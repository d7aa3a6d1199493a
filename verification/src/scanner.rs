//! Block scanner: finds every well-formed fenced `markmap` block in a byte
//! text, left to right and non-overlapping.
//!
//! A block opens with the line `` ```markmap `` (the fence marker immediately
//! followed by the tag and a newline) and closes at the earliest following
//! `` \n``` ``. The inner content is everything between the opener's newline
//! and the closer's newline. An opener with no closer anywhere later yields
//! no match.

use vstd::prelude::*;

verus! {

/// The opening delimiter: `` ```markmap `` followed by a newline.
pub open spec fn opener() -> Seq<u8> {
    seq![96u8, 96u8, 96u8, 109u8, 97u8, 114u8, 107u8, 109u8, 97u8, 112u8, 10u8]
}

/// The closing delimiter: a newline followed by the bare fence marker.
pub open spec fn closer() -> Seq<u8> {
    seq![10u8, 96u8, 96u8, 96u8]
}

/// The opening delimiter occupies `t[i .. i + 11]`.
pub open spec fn opener_at(t: Seq<u8>, i: int) -> bool {
    &&& 0 <= i
    &&& i + 11 <= t.len()
    &&& t.subrange(i, i + 11) == opener()
}

/// The closing delimiter occupies `t[i .. i + 4]`.
pub open spec fn closer_at(t: Seq<u8>, i: int) -> bool {
    &&& 0 <= i
    &&& i + 4 <= t.len()
    &&& t.subrange(i, i + 4) == closer()
}

/// Some closing delimiter starts at or after position `j`.
pub open spec fn has_closer_from(t: Seq<u8>, j: int) -> bool {
    exists|q: int| j <= q && closer_at(t, q)
}

/// Position of the earliest closing delimiter at or after `j`.
pub open spec fn first_closer_from(t: Seq<u8>, j: int) -> int
    recommends
        has_closer_from(t, j),
    decreases t.len() - j,
{
    if j + 4 > t.len() {
        j
    } else if closer_at(t, j) {
        j
    } else {
        first_closer_from(t, j + 1)
    }
}

/// `first_closer_from` lands on a closing delimiter, and on the earliest one.
pub proof fn lemma_first_closer(t: Seq<u8>, j: int)
    requires
        has_closer_from(t, j),
    ensures
        j <= first_closer_from(t, j),
        closer_at(t, first_closer_from(t, j)),
        forall|q: int| j <= q < first_closer_from(t, j) ==> !closer_at(t, q),
    decreases t.len() - j,
{
    if j + 4 > t.len() {
        let q = choose|q: int| j <= q && closer_at(t, q);
        assert(q + 4 <= t.len());
        assert(false);
    } else if closer_at(t, j) {
    } else {
        let q = choose|q: int| j <= q && closer_at(t, q);
        assert(j + 1 <= q && closer_at(t, q));
        lemma_first_closer(t, j + 1);
    }
}

/// All well-formed blocks of `t` at or after position `from`, left to right:
/// each element is the pair of the block's start and of its closer's start.
/// The full matched span of a block `(s, ce)` is `t[s .. ce + 4]`, its inner
/// content `t[s + 11 .. ce]`.
pub open spec fn scan_from(t: Seq<u8>, from: int) -> Seq<(int, int)>
    decreases t.len() - from,
    via scan_from_decreases
{
    if from < 0 || from + 11 > t.len() {
        Seq::empty()
    } else if opener_at(t, from) && has_closer_from(t, from + 11) {
        let ce = first_closer_from(t, from + 11);
        seq![(from, ce)] + scan_from(t, ce + 4)
    } else {
        scan_from(t, from + 1)
    }
}

#[via_fn]
proof fn scan_from_decreases(t: Seq<u8>, from: int) {
    if !(from < 0 || from + 11 > t.len()) && opener_at(t, from) && has_closer_from(
        t,
        from + 11,
    ) {
        lemma_first_closer(t, from + 11);
    }
}

/// Well-placedness of a match list relative to a lower bound `from`: each
/// match sits at or after `from`, is a real opener/closer pair inside `t`,
/// and the next match starts only after this one's full span ends.
pub open spec fn matches_wf(t: Seq<u8>, ms: Seq<(int, int)>, from: int) -> bool
    decreases ms.len(),
{
    ms.len() == 0 || {
        &&& from <= ms[0].0
        &&& opener_at(t, ms[0].0)
        &&& ms[0].0 + 11 <= ms[0].1
        &&& closer_at(t, ms[0].1)
        &&& ms[0].1 + 4 <= t.len()
        &&& matches_wf(t, ms.drop_first(), ms[0].1 + 4)
    }
}

/// A lower bound on well-placedness may be relaxed.
pub proof fn lemma_matches_wf_weaken(t: Seq<u8>, ms: Seq<(int, int)>, from: int, from2: int)
    requires
        matches_wf(t, ms, from),
        from2 <= from,
    ensures
        matches_wf(t, ms, from2),
{
}

/// What the scanner yields is well placed.
pub proof fn lemma_scan_wf(t: Seq<u8>, from: int)
    requires
        0 <= from,
    ensures
        matches_wf(t, scan_from(t, from), from),
    decreases t.len() - from,
{
    if from + 11 > t.len() {
    } else if opener_at(t, from) && has_closer_from(t, from + 11) {
        let ce = first_closer_from(t, from + 11);
        lemma_first_closer(t, from + 11);
        lemma_scan_wf(t, ce + 4);
        let ms = scan_from(t, from);
        assert(ms.drop_first() =~= scan_from(t, ce + 4));
    } else {
        lemma_scan_wf(t, from + 1);
        lemma_matches_wf_weaken(t, scan_from(t, from + 1), from + 1, from);
    }
}

/// With no closing delimiter at or after `from + 11`, nothing at or after
/// `from` can match.
pub proof fn lemma_scan_no_closer(t: Seq<u8>, from: int)
    requires
        0 <= from,
        !has_closer_from(t, from + 11),
    ensures
        scan_from(t, from) == Seq::<(int, int)>::empty(),
    decreases t.len() - from,
{
    if from + 11 > t.len() {
    } else if opener_at(t, from) && has_closer_from(t, from + 11) {
        assert(false);
    } else {
        assert(!has_closer_from(t, from + 1 + 11)) by {
            if has_closer_from(t, from + 12) {
                let q = choose|q: int| from + 12 <= q && closer_at(t, q);
                assert(from + 11 <= q && closer_at(t, q));
            }
        }
        lemma_scan_no_closer(t, from + 1);
    }
}

/// One well-formed fenced block: the full matched span is
/// `t[start .. content_end + 4]`, the inner content `t[start + 11 .. content_end]`.
#[derive(Clone, Copy, Debug, PartialEq, Eq)]
pub struct BlockMatch {
    /// Byte offset of the opening delimiter.
    pub start: usize,
    /// Byte offset of the closing delimiter, one past the inner content.
    pub content_end: usize,
}

/// The mathematical reading of a list of matches.
pub open spec fn matches_view(ms: Seq<BlockMatch>) -> Seq<(int, int)> {
    ms.map_values(|m: BlockMatch| (m.start as int, m.content_end as int))
}

/// Does the opening delimiter start at `i`? (Executable form of `opener_at`.)
fn is_opener_at(t: &Vec<u8>, i: usize) -> (b: bool)
    requires
        i + 11 <= t@.len(),
    ensures
        b == opener_at(t@, i as int),
{
    let n: usize = t.len();
    assert(i + 11 <= n);
    let b = t[i] == 96 && t[i + 1] == 96 && t[i + 2] == 96 && t[i + 3] == 109 && t[i + 4] == 97
        && t[i + 5] == 114 && t[i + 6] == 107 && t[i + 7] == 109 && t[i + 8] == 97 && t[i + 9]
        == 112 && t[i + 10] == 10;
    proof {
        let s = t@.subrange(i as int, i as int + 11);
        if b {
            assert(s =~= opener());
        }
        if s == opener() {
            assert(forall|k: int| 0 <= k < 11 ==> t@[i + k] == opener()[k]) by {
                assert(forall|k: int| 0 <= k < 11 ==> t@[i + k] == #[trigger] s[k]);
            }
            assert(t@[i as int] == opener()[0]);
            assert(t@[i + 1] == opener()[1]);
            assert(t@[i + 2] == opener()[2]);
            assert(t@[i + 3] == opener()[3]);
            assert(t@[i + 4] == opener()[4]);
            assert(t@[i + 5] == opener()[5]);
            assert(t@[i + 6] == opener()[6]);
            assert(t@[i + 7] == opener()[7]);
            assert(t@[i + 8] == opener()[8]);
            assert(t@[i + 9] == opener()[9]);
            assert(t@[i + 10] == opener()[10]);
        }
    }
    b
}

/// Does the closing delimiter start at `i`? (Executable form of `closer_at`.)
fn is_closer_at(t: &Vec<u8>, i: usize) -> (b: bool)
    requires
        i + 4 <= t@.len(),
    ensures
        b == closer_at(t@, i as int),
{
    let n: usize = t.len();
    assert(i + 4 <= n);
    let b = t[i] == 10 && t[i + 1] == 96 && t[i + 2] == 96 && t[i + 3] == 96;
    proof {
        let s = t@.subrange(i as int, i as int + 4);
        if b {
            assert(s =~= closer());
        }
        if s == closer() {
            assert(forall|k: int| 0 <= k < 4 ==> t@[i + k] == closer()[k]) by {
                assert(forall|k: int| 0 <= k < 4 ==> t@[i + k] == #[trigger] s[k]);
            }
            assert(t@[i as int] == closer()[0]);
            assert(t@[i + 1] == closer()[1]);
            assert(t@[i + 2] == closer()[2]);
            assert(t@[i + 3] == closer()[3]);
        }
    }
    b
}

/// Earliest closing delimiter at or after `j`, if any.
fn find_closer(t: &Vec<u8>, j: usize) -> (r: Option<usize>)
    requires
        j <= t@.len(),
    ensures
        match r {
            Option::Some(q) => {
                &&& j <= q
                &&& closer_at(t@, q as int)
                &&& has_closer_from(t@, j as int)
                &&& q as int == first_closer_from(t@, j as int)
            },
            Option::None => !has_closer_from(t@, j as int),
        },
{
    let mut q: usize = j;
    while t.len() >= 4 && q <= t.len() - 4
        invariant
            j <= q,
            q <= t@.len(),
            forall|p: int| j <= p < q ==> !closer_at(t@, p),
        decreases t@.len() - q,
    {
        if is_closer_at(t, q) {
            proof {
                lemma_first_closer(t@, j as int);
                let c = first_closer_from(t@, j as int);
                if c < q {
                    assert(!closer_at(t@, c));
                } else if (q as int) < c {
                    assert(!closer_at(t@, q as int));
                }
            }
            return Some(q);
        }
        q = q + 1;
    }
    proof {
        assert(forall|p: int| j <= p ==> !closer_at(t@, p)) by {
            assert(forall|p: int| q <= p ==> !closer_at(t@, p));
        }
    }
    None
}

/// Scan the whole text for well-formed fenced `markmap` blocks.
///
/// The result lists exactly the blocks of `scan_from(text@, 0)`, in text
/// order, and is well placed: spans are in bounds and non-overlapping.
pub fn scan_blocks(text: &Vec<u8>) -> (ms: Vec<BlockMatch>)
    ensures
        matches_view(ms@) == scan_from(text@, 0),
        matches_wf(text@, matches_view(ms@), 0),
{
    let mut ms: Vec<BlockMatch> = Vec::new();
    let mut i: usize = 0;
    let mut done: bool = false;
    proof {
        assert(matches_view(ms@) + scan_from(text@, 0) =~= scan_from(text@, 0));
    }
    while !done && text.len() >= 11 && i <= text.len() - 11
        invariant
            i <= text@.len(),
            matches_view(ms@) + scan_from(text@, i as int) =~= scan_from(text@, 0),
            done ==> scan_from(text@, i as int) == Seq::<(int, int)>::empty(),
        decreases text@.len() - i + (if done { 0int } else { 1int }),
    {
        if is_opener_at(text, i) {
            match find_closer(text, i + 11) {
                Some(q) => {
                    proof {
                        assert(scan_from(text@, i as int) =~= seq![(i as int, q as int)]
                            + scan_from(text@, q as int + 4));
                    }
                    let ghost old_ms = ms@;
                    ms.push(BlockMatch { start: i, content_end: q });
                    proof {
                        assert(matches_view(ms@) =~= matches_view(old_ms).push(
                            (i as int, q as int),
                        ));
                        assert(matches_view(ms@) + scan_from(text@, q as int + 4) =~= scan_from(
                            text@,
                            0,
                        ));
                    }
                    i = q + 4;
                },
                None => {
                    proof {
                        lemma_scan_no_closer(text@, i as int);
                    }
                    done = true;
                },
            }
        } else {
            proof {
                assert(scan_from(text@, i as int) =~= scan_from(text@, i as int + 1));
            }
            i = i + 1;
        }
    }
    proof {
        if !done {
            assert(scan_from(text@, i as int) =~= Seq::<(int, int)>::empty());
        }
        assert(matches_view(ms@) + scan_from(text@, i as int) =~= matches_view(ms@));
        assert(matches_view(ms@) == scan_from(text@, 0));
        lemma_scan_wf(text@, 0);
    }
    ms
}

} // verus!
