//! Index entries.

use crate::text::{lowercase_text, lowercased};
use unicode_normalization::UnicodeNormalization;
use vstd::prelude::*;

verus! {

/// The text in Unicode Normalization Form KC, as the
/// `unicode-normalization` crate computes it.
pub uninterp spec fn nfkc(text: Seq<char>) -> Seq<char>;

/// `UnicodeNormalization::nfkc`, collected into a string.
#[verifier::external_body]
fn nfkc_text(s: &str) -> (r: String)
    ensures
        r@ == nfkc(s@),
{
    s.nfkc().collect::<String>()
}

/// The form of a name that searches without a query language compare
/// with: Normalization Form KC, then lower case.
pub open spec fn normalized_name(name: Seq<char>) -> Seq<char> {
    lowercased(nfkc(name))
}

/// One file of the index.
#[derive(Debug, Clone)]
pub struct Entry {
    pub id: u64,
    pub name: String,
    pub path: String,
    pub size: u64,
    pub mtime: u64,
    /// The normalized form of `name`.
    pub normalized: String,
}

/// The mathematical value of an [`Entry`].
pub struct EntryModel {
    pub id: u64,
    pub name: Seq<char>,
    pub path: Seq<char>,
    pub size: u64,
    pub mtime: u64,
    pub normalized: Seq<char>,
}

impl View for Entry {
    type V = EntryModel;

    open spec fn view(&self) -> EntryModel {
        EntryModel {
            id: self.id,
            name: self.name@,
            path: self.path@,
            size: self.size,
            mtime: self.mtime,
            normalized: self.normalized@,
        }
    }
}

/// The entry for a file, with the normalized form of its name.
pub open spec fn entry_of(
    id: u64,
    name: Seq<char>,
    path: Seq<char>,
    size: u64,
    mtime: u64,
) -> EntryModel {
    EntryModel { id, name, path, size, mtime, normalized: normalized_name(name) }
}

impl Entry {
    /// The entry for the file `name` at `path`.
    pub fn new(id: u64, name: String, path: String, size: u64, mtime: u64) -> (r: Entry)
        ensures
            r@ == entry_of(id, name@, path@, size, mtime),
    {
        let composed = nfkc_text(name.as_str());
        let normalized = lowercase_text(composed.as_str());
        Entry { id, name, path, size, mtime, normalized }
    }
}

} // verus!
