//! The engine's guarantees, stated and proved once over the scanner's and the
//! engine's specifications: identity on block-free text, identity under total
//! failure, exact substitution of a single successful block, preservation of
//! the non-block segments, and tolerance of unterminated openers.

use vstd::prelude::*;

use crate::b64::{decode_spec, encode_spec, lemma_decode_encode_roundtrip};
use crate::embed::embed_spec;
use crate::engine::{replacement, splice, RenderOutcome};
use crate::scanner::{closer_at, lemma_scan_wf, matches_wf, opener_at, scan_from};

verus! {

/// No-op law: a text with no well-formed fenced block comes out unchanged,
/// whatever the outcomes.
pub proof fn lemma_no_blocks_identity(t: Seq<u8>, os: Seq<RenderOutcome>)
    requires
        scan_from(t, 0).len() == 0,
    ensures
        splice(t, scan_from(t, 0), os, 0) == t,
{
    assert(splice(t, scan_from(t, 0), os, 0) =~= t);
}

/// Helper for the fallback law: under well-placed matches whose outcomes all
/// fail, splicing from `pos` reproduces `t[pos ..]` verbatim.
proof fn lemma_splice_failures(t: Seq<u8>, ms: Seq<(int, int)>, os: Seq<RenderOutcome>, pos: int)
    requires
        matches_wf(t, ms, pos),
        0 <= pos <= t.len(),
        os.len() == ms.len(),
        forall|k: int| 0 <= k < os.len() ==> (#[trigger] os[k]) is Failure,
    ensures
        splice(t, ms, os, pos) == t.subrange(pos, t.len() as int),
    decreases ms.len(),
{
    if ms.len() == 0 {
    } else {
        let s = ms[0].0;
        let ce = ms[0].1;
        assert(os[0] is Failure);
        assert(forall|k: int| 0 <= k < os.drop_first().len() ==> (#[trigger] os.drop_first()[k])
            is Failure) by {
            assert(forall|k: int|
                0 <= k < os.drop_first().len() ==> os.drop_first()[k] == #[trigger] os[k + 1]);
        }
        lemma_splice_failures(t, ms.drop_first(), os.drop_first(), ce + 4);
        assert(t.subrange(pos, s) + t.subrange(s, ce + 4) + t.subrange(ce + 4, t.len() as int)
            =~= t.subrange(pos, t.len() as int));
    }
}

/// Fallback law: if every outcome is a failure, the output text equals the
/// input text exactly, however many well-formed blocks it holds.
pub proof fn lemma_all_failures_identity(t: Seq<u8>, os: Seq<RenderOutcome>)
    requires
        os.len() == scan_from(t, 0).len(),
        forall|k: int| 0 <= k < os.len() ==> (#[trigger] os[k]) is Failure,
    ensures
        splice(t, scan_from(t, 0), os, 0) == t,
{
    lemma_scan_wf(t, 0);
    lemma_splice_failures(t, scan_from(t, 0), os, 0);
    assert(t.subrange(0, t.len() as int) =~= t);
}

/// Substitution law: with exactly one well-formed block and a successful
/// outcome carrying bytes `B`, the output is the input with the block's full
/// matched span replaced by the embed markup over `B` — and the markup's
/// base64 payload decodes back to exactly `B`.
pub proof fn lemma_single_block_substitution(t: Seq<u8>, os: Seq<RenderOutcome>)
    requires
        scan_from(t, 0).len() == 1,
        os.len() == 1,
        os[0] is Success,
    ensures
        ({
            let m = scan_from(t, 0)[0];
            let b = os[0]->Success_0;
            &&& splice(t, scan_from(t, 0), os, 0) == t.subrange(0, m.0) + embed_spec(b@)
                + t.subrange(m.1 + 4, t.len() as int)
            &&& decode_spec(encode_spec(b@)) == b@
        }),
{
    let ms = scan_from(t, 0);
    let m = ms[0];
    let b = os[0]->Success_0;
    assert(ms.drop_first().len() == 0);
    assert(splice(t, ms.drop_first(), os.drop_first(), m.1 + 4) == t.subrange(
        m.1 + 4,
        t.len() as int,
    ));
    assert(replacement(t, m.0, m.1, os[0]) == embed_spec(b@));
    lemma_decode_encode_roundtrip(b@);
}

/// The non-block segments of `t` relative to the match list: the text before
/// the first block, between consecutive blocks, and after the last block.
/// They depend on the text and the matches alone, never on the outcomes.
pub open spec fn segments(t: Seq<u8>, ms: Seq<(int, int)>, pos: int) -> Seq<Seq<u8>>
    decreases ms.len(),
{
    if ms.len() == 0 {
        seq![t.subrange(pos, t.len() as int)]
    } else {
        seq![t.subrange(pos, ms[0].0)] + segments(t, ms.drop_first(), ms[0].1 + 4)
    }
}

/// The per-block replacements, in block order.
pub open spec fn replacements(t: Seq<u8>, ms: Seq<(int, int)>, os: Seq<RenderOutcome>) -> Seq<
    Seq<u8>,
> {
    ms.map(|k: int, m: (int, int)| replacement(t, m.0, m.1, os[k]))
}

/// Alternating concatenation: one segment, one replacement, …, one segment.
pub open spec fn interleave(segs: Seq<Seq<u8>>, reps: Seq<Seq<u8>>) -> Seq<u8>
    recommends
        segs.len() == reps.len() + 1,
    decreases reps.len(),
{
    if reps.len() == 0 {
        if segs.len() == 0 {
            Seq::empty()
        } else {
            segs[0]
        }
    } else {
        segs[0] + reps[0] + interleave(segs.drop_first(), reps.drop_first())
    }
}

/// Helper: splicing is exactly the interleaving of the input's non-block
/// segments with the per-block replacements.
proof fn lemma_splice_interleaves(t: Seq<u8>, ms: Seq<(int, int)>, os: Seq<RenderOutcome>, pos: int)
    requires
        os.len() == ms.len(),
    ensures
        segments(t, ms, pos).len() == ms.len() + 1,
        splice(t, ms, os, pos) == interleave(segments(t, ms, pos), replacements(t, ms, os)),
    decreases ms.len(),
{
    if ms.len() == 0 {
        assert(interleave(segments(t, ms, pos), replacements(t, ms, os)) == t.subrange(
            pos,
            t.len() as int,
        ));
    } else {
        lemma_splice_interleaves(t, ms.drop_first(), os.drop_first(), ms[0].1 + 4);
        assert(replacements(t, ms.drop_first(), os.drop_first()) =~= replacements(t, ms, os)
            .drop_first());
        assert(segments(t, ms, pos).drop_first() =~= segments(t, ms.drop_first(), ms[0].1 + 4));
        assert(segments(t, ms, pos)[0] == t.subrange(pos, ms[0].0));
        assert(replacements(t, ms, os)[0] == replacement(t, ms[0].0, ms[0].1, os[0]));
    }
}

/// Order and count preservation law: the output is the interleaving of the
/// input's non-block segments — one more than there are blocks, in input
/// order, byte-identical, independent of the outcomes — with the per-block
/// replacements.
pub proof fn lemma_order_count_preservation(t: Seq<u8>, os: Seq<RenderOutcome>)
    requires
        os.len() == scan_from(t, 0).len(),
    ensures
        segments(t, scan_from(t, 0), 0).len() == scan_from(t, 0).len() + 1,
        splice(t, scan_from(t, 0), os, 0) == interleave(
            segments(t, scan_from(t, 0), 0),
            replacements(t, scan_from(t, 0), os),
        ),
{
    lemma_splice_interleaves(t, scan_from(t, 0), os, 0);
}

/// Helper for the malformed-tolerance law: when no closing delimiter occurs at
/// or after `p - 3`, every well-placed match ends at or before `p` and the
/// spliced text ends with `t[p ..]` verbatim.
proof fn lemma_splice_suffix(
    t: Seq<u8>,
    ms: Seq<(int, int)>,
    os: Seq<RenderOutcome>,
    pos: int,
    p: int,
)
    requires
        matches_wf(t, ms, pos),
        0 <= pos <= p <= t.len(),
        forall|q: int| p - 3 <= q ==> !closer_at(t, q),
    ensures
        forall|k: int| 0 <= k < ms.len() ==> (#[trigger] ms[k]).1 + 4 <= p,
        exists|head: Seq<u8>| splice(t, ms, os, pos) == head + t.subrange(p, t.len() as int),
    decreases ms.len(),
{
    if ms.len() == 0 {
        assert(splice(t, ms, os, pos) == t.subrange(pos, p) + t.subrange(p, t.len() as int)) by {
            assert(t.subrange(pos, p) + t.subrange(p, t.len() as int) =~= t.subrange(
                pos,
                t.len() as int,
            ));
        }
    } else {
        let s = ms[0].0;
        let ce = ms[0].1;
        assert(closer_at(t, ce));
        assert(ce < p - 3);
        lemma_splice_suffix(t, ms.drop_first(), os.drop_first(), ce + 4, p);
        assert forall|k: int| 0 <= k < ms.len() implies (#[trigger] ms[k]).1 + 4 <= p by {
            if k > 0 {
                assert(ms[k] == ms.drop_first()[k - 1]);
                assert(ms.drop_first()[k - 1].1 + 4 <= p);
            }
        }
        let head0 = choose|head: Seq<u8>|
            splice(t, ms.drop_first(), os.drop_first(), ce + 4) == head + t.subrange(
                p,
                t.len() as int,
            );
        let head1 = t.subrange(pos, s) + replacement(t, s, ce, os[0]) + head0;
        assert(splice(t, ms, os, pos) == head1 + t.subrange(p, t.len() as int)) by {
            assert(t.subrange(pos, s) + replacement(t, s, ce, os[0]) + (head0 + t.subrange(
                p,
                t.len() as int,
            )) =~= head1 + t.subrange(p, t.len() as int));
        }
    }
}

/// Malformed-tolerance law: an opening delimiter at `p` with no closing
/// delimiter anywhere at or after `p - 3` is matched by no block — every
/// block ends at or before `p` — and the text from `p` on is preserved
/// verbatim at the end of the output.
pub proof fn lemma_unterminated_opener_preserved(t: Seq<u8>, os: Seq<RenderOutcome>, p: int)
    requires
        opener_at(t, p),
        forall|q: int| p - 3 <= q ==> !closer_at(t, q),
        os.len() == scan_from(t, 0).len(),
    ensures
        forall|k: int|
            0 <= k < scan_from(t, 0).len() ==> (#[trigger] scan_from(t, 0)[k]).1 + 4 <= p,
        exists|head: Seq<u8>|
            splice(t, scan_from(t, 0), os, 0) == head + t.subrange(p, t.len() as int),
{
    lemma_scan_wf(t, 0);
    lemma_splice_suffix(t, scan_from(t, 0), os, 0, p);
}

} // verus!
