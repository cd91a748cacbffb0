//! Matching core of a desktop file search: a small boolean query language,
//! its compilation into matcher trees over pooled regular expressions, the
//! evaluation of those trees against index entries, and the translation of
//! capture ranges into grapheme-aligned UTF-16 offsets.

pub mod entry;
pub mod highlight;
pub mod index;
pub mod json;
pub mod match_engine;
pub mod pattern;
pub mod pool;
pub mod query;
pub mod ranges;
pub mod registry;
pub mod search;
pub mod text;

use vstd::prelude::*;

verus! {

/// Prepares the library for use. There is nothing to prepare, so this
/// always succeeds.
pub fn init() -> (ready: bool)
    ensures
        ready,
{
    true
}

} // verus!
