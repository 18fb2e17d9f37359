use vstd::prelude::*;

use crate::kind::EntryType;

verus! {

/// One indexable symbol: a fully qualified name, a kind, and the storage
/// location (a docset-relative file path, with an optional `#`-suffixed
/// in-page anchor).
#[derive(Debug, Clone, PartialEq, Eq)]
pub struct DocsetEntry {
    pub name: String,
    pub ty: EntryType,
    pub path: String,
}

/// The mathematical image of one entry.
pub ghost struct EntryV {
    pub name: Seq<char>,
    pub ty: EntryType,
    pub path: Seq<char>,
}

impl View for DocsetEntry {
    type V = EntryV;

    open spec fn view(&self) -> EntryV {
        EntryV { name: self.name@, ty: self.ty, path: self.path@ }
    }
}

/// The views of a sequence of entries.
pub open spec fn entry_views(v: Seq<DocsetEntry>) -> Seq<EntryV> {
    v.map_values(|e: DocsetEntry| e@)
}

impl DocsetEntry {
    pub fn new(name: &str, ty: EntryType, path: &str) -> (r: DocsetEntry)
        ensures
            r@ == (EntryV { name: name@, ty, path: path@ }),
    {
        DocsetEntry { name: String::from_str(name), ty, path: String::from_str(path) }
    }
}

} // verus!
