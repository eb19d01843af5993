//! Human-friendly grep output: groups nearby matches of a file into
//! context-padded snippets ("chunks") and renders them with line-number
//! gutters, tab expansion and character-wise text wrapping.

pub mod chunk;
pub mod orchestrator;
pub mod printer;
pub mod ripgrep;

use vstd::prelude::*;

verus! {

/// Clamp the context pair so that the maximum is never below the minimum:
/// the effective maximum is `max(min_context, max_context)`.
pub fn clamp_context(min_context: u64, max_context: u64) -> (r: u64)
    ensures
        r == if max_context < min_context {
            min_context
        } else {
            max_context
        },
{
    if max_context < min_context {
        min_context
    } else {
        max_context
    }
}

} // verus!
