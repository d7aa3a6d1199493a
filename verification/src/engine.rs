//! Substitution engine: resolves every well-formed fenced block of a text.
//!
//! For each block the caller supplies a `RenderOutcome`. A successful outcome
//! replaces the block's full matched span by the inline embed markup over the
//! artifact bytes; a failed outcome leaves the span untouched. Text outside
//! the blocks is copied verbatim, so a failing renderer degrades to showing
//! the raw block source and never corrupts the surrounding document.

use vstd::prelude::*;

use crate::embed::{embed_markup, embed_spec};
use crate::scanner::{matches_view, matches_wf, scan_blocks, scan_from, BlockMatch};

verus! {

/// Why a block failed to render; mirrors the failure conditions of a renderer
/// invocation, from staging through read-back.
#[derive(Debug, PartialEq, Eq)]
pub enum RenderError {
    /// The input or output staging file could not be created or written.
    Staging,
    /// The external renderer could not be started.
    Spawn,
    /// The renderer ran but exited unsuccessfully; holds its error stream.
    Render(String),
    /// The renderer reported success but its output could not be read back.
    ReadBack,
}

/// Outcome of rendering one block: the artifact bytes, or a failure.
#[derive(Debug, PartialEq, Eq)]
pub enum RenderOutcome {
    /// The renderer produced these artifact bytes.
    Success(Vec<u8>),
    /// The render attempt failed; the block is to be left unchanged.
    Failure(RenderError),
}

/// The decision taken after the renderer has been waited for: a non-success
/// exit keeps its error stream as the diagnostic; a success whose output
/// cannot be read back is a failure too; otherwise the bytes are the artifact.
pub fn render_outcome(exit_ok: bool, stderr: String, artifact: Option<Vec<u8>>) -> (r:
    RenderOutcome)
    ensures
        !exit_ok ==> r == RenderOutcome::Failure(RenderError::Render(stderr)),
        exit_ok ==> match artifact {
            Option::Some(b) => r == RenderOutcome::Success(b),
            Option::None => r == RenderOutcome::Failure(RenderError::ReadBack),
        },
{
    if !exit_ok {
        RenderOutcome::Failure(RenderError::Render(stderr))
    } else {
        match artifact {
            Option::Some(b) => RenderOutcome::Success(b),
            Option::None => RenderOutcome::Failure(RenderError::ReadBack),
        }
    }
}

/// What a block `(s, ce)` of `t` is replaced by under outcome `o`.
pub open spec fn replacement(t: Seq<u8>, s: int, ce: int, o: RenderOutcome) -> Seq<u8> {
    match o {
        RenderOutcome::Success(b) => embed_spec(b@),
        RenderOutcome::Failure(_) => t.subrange(s, ce + 4),
    }
}

/// The substituted text from position `pos` on: the text before each block is
/// copied verbatim, each block's span becomes its replacement, and the text
/// after the last block is copied verbatim.
pub open spec fn splice(t: Seq<u8>, ms: Seq<(int, int)>, os: Seq<RenderOutcome>, pos: int) -> Seq<
    u8,
>
    decreases ms.len(),
{
    if ms.len() == 0 {
        t.subrange(pos, t.len() as int)
    } else {
        t.subrange(pos, ms[0].0) + replacement(t, ms[0].0, ms[0].1, os[0]) + splice(
            t,
            ms.drop_first(),
            os.drop_first(),
            ms[0].1 + 4,
        )
    }
}

/// Append `t[a .. b]` to `out`.
fn copy_range(out: &mut Vec<u8>, t: &Vec<u8>, a: usize, b: usize)
    requires
        a <= b,
        b <= t@.len(),
    ensures
        final(out)@ == old(out)@ + t@.subrange(a as int, b as int),
{
    let mut j: usize = a;
    proof {
        assert(out@ =~= out@ + t@.subrange(a as int, a as int));
    }
    while j < b
        invariant
            a <= j <= b,
            b <= t@.len(),
            out@ == old(out)@ + t@.subrange(a as int, j as int),
        decreases b - j,
    {
        let x = t[j];
        out.push(x);
        proof {
            assert(old(out)@ + t@.subrange(a as int, j as int + 1) =~= (old(out)@ + t@.subrange(
                a as int,
                j as int,
            )).push(t@[j as int]));
        }
        j = j + 1;
    }
}

/// Substitute every well-formed fenced block of `text`, resolving the `k`-th
/// block by `outcomes[k]`: the embed markup on success, the original span on
/// failure. Everything outside the blocks is copied verbatim.
pub fn substitute_blocks(text: &Vec<u8>, outcomes: &Vec<RenderOutcome>) -> (out: Vec<u8>)
    requires
        outcomes@.len() == scan_from(text@, 0).len(),
    ensures
        out@ == splice(text@, scan_from(text@, 0), outcomes@, 0),
{
    let ghost msv = scan_from(text@, 0);
    let ms = scan_blocks(text);
    let n: usize = text.len();
    let mut out: Vec<u8> = Vec::new();
    let mut pos: usize = 0;
    let mut k: usize = 0;
    proof {
        assert(msv.skip(0) =~= msv);
        assert(outcomes@.skip(0) =~= outcomes@);
        assert(out@ + splice(text@, msv, outcomes@, 0) =~= splice(text@, msv, outcomes@, 0));
    }
    while k < ms.len()
        invariant
            k <= ms@.len(),
            ms@.len() == msv.len(),
            outcomes@.len() == msv.len(),
            matches_view(ms@) == msv,
            msv == scan_from(text@, 0),
            n == text@.len(),
            matches_wf(text@, msv.skip(k as int), pos as int),
            pos <= n,
            out@ + splice(text@, msv.skip(k as int), outcomes@.skip(k as int), pos as int)
                == splice(text@, msv, outcomes@, 0),
        decreases ms@.len() - k,
    {
        let s: usize = ms[k].start;
        let ce: usize = ms[k].content_end;
        let ghost rest = msv.skip(k as int);
        let ghost orest = outcomes@.skip(k as int);
        proof {
            assert(matches_view(ms@)[k as int] == (s as int, ce as int));
            assert(rest[0] == msv[k as int]);
            assert(rest.drop_first() =~= msv.skip(k as int + 1));
            assert(orest[0] == outcomes@[k as int]);
            assert(orest.drop_first() =~= outcomes@.skip(k as int + 1));
        }
        let ghost out0 = out@;
        copy_range(&mut out, text, pos, s);
        let o = &outcomes[k];
        match o {
            RenderOutcome::Success(b) => {
                let mut e = embed_markup(b);
                out.append(&mut e);
            },
            RenderOutcome::Failure(_) => {
                copy_range(&mut out, text, s, ce + 4);
            },
        }
        proof {
            assert(out@ =~= out0 + t_seg(text@, pos as int, s as int) + replacement(
                text@,
                s as int,
                ce as int,
                outcomes@[k as int],
            ));
            assert(splice(text@, rest, orest, pos as int) == t_seg(text@, pos as int, s as int)
                + replacement(text@, s as int, ce as int, outcomes@[k as int]) + splice(
                text@,
                msv.skip(k as int + 1),
                outcomes@.skip(k as int + 1),
                ce as int + 4,
            ));
            assert(out@ + splice(text@, msv.skip(k as int + 1), outcomes@.skip(k as int + 1),
                ce as int + 4,
            ) =~= out0 + splice(text@, rest, orest, pos as int));
        }
        pos = ce + 4;
        k = k + 1;
    }
    let ghost out1 = out@;
    copy_range(&mut out, text, pos, n);
    proof {
        assert(msv.skip(k as int) =~= Seq::<(int, int)>::empty());
        assert(splice(text@, msv.skip(k as int), outcomes@.skip(k as int), pos as int)
            == t_seg(text@, pos as int, n as int));
        assert(out@ =~= out1 + t_seg(text@, pos as int, n as int));
    }
    out
}

/// Short name for a verbatim segment of the text.
spec fn t_seg(t: Seq<u8>, a: int, b: int) -> Seq<u8> {
    t.subrange(a, b)
}

/// A block span `(s, ce)` fits inside `t`: room for the opener before the
/// content and for the closer after it.
pub open spec fn well_placed(t: Seq<u8>, s: int, ce: int) -> bool {
    &&& 0 <= s
    &&& s + 11 <= ce
    &&& ce + 4 <= t.len()
}

/// The inner content of a scanned block: the bytes strictly between the
/// opener's newline and the closer's newline. `None` only when the match does
/// not fit the text, which never holds of a match the scanner produced.
pub fn block_content(text: &Vec<u8>, m: &BlockMatch) -> (c: Option<Vec<u8>>)
    ensures
        match c {
            Option::Some(v) => well_placed(text@, m.start as int, m.content_end as int) && v@
                == text@.subrange(m.start as int + 11, m.content_end as int),
            Option::None => !well_placed(text@, m.start as int, m.content_end as int),
        },
{
    let n: usize = text.len();
    if n >= 4 && m.content_end <= n - 4 && m.start <= m.content_end && m.content_end - m.start
        >= 11 {
        let mut v: Vec<u8> = Vec::new();
        proof {
            assert(v@ + text@.subrange(m.start as int + 11, m.content_end as int) =~= text@
                .subrange(m.start as int + 11, m.content_end as int));
        }
        copy_range(&mut v, text, m.start + 11, m.content_end);
        Some(v)
    } else {
        None
    }
}

} // verus!
