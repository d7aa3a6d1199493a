//! Preprocessing library for documents that carry fenced `markmap` blocks.
//!
//! The library locates fenced blocks of the form ```` ```markmap\n … \n``` ````
//! in a byte text, and splices, for each block, either an inline HTML embed of
//! the rendered artifact (on success) or the original block text (on failure).
//! Invoking the external renderer is the caller's job; the caller hands one
//! `RenderOutcome` per block to the substitution engine.

use vstd::prelude::*;

pub mod b64;
pub mod embed;
pub mod engine;
pub mod laws;
pub mod scanner;

verus! {

use crate::engine::{splice, substitute_blocks, RenderOutcome};
use crate::scanner::scan_from;

/// The preprocessor: a namespace for the block-substitution pipeline.
pub struct MarkmapPreprocessor;

impl MarkmapPreprocessor {
    /// The name under which the preprocessor registers itself with a host.
    pub fn name(&self) -> (r: &str)
        ensures
            r@ == "markmap"@,
    {
        "markmap"
    }

    /// Substitute every well-formed fenced `markmap` block of `content`,
    /// resolving the `k`-th block by `outcomes[k]`: the inline embed markup
    /// on success, the original span unchanged on failure.
    pub fn process_markmap_blocks(content: &Vec<u8>, outcomes: &Vec<RenderOutcome>) -> (out: Vec<
        u8,
    >)
        requires
            outcomes@.len() == scan_from(content@, 0).len(),
        ensures
            out@ == splice(content@, scan_from(content@, 0), outcomes@, 0),
    {
        substitute_blocks(content, outcomes)
    }
}

} // verus!
