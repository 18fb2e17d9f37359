use vstd::prelude::*;

verus! {

/// The error taxonomy of the library.
///
/// `UnknownEntryType` is a structural-assumption violation: a symbol file's
/// kind token does not belong to the fixed vocabulary, which aborts a whole
/// indexing run. `NotFound` reports a queried name, fragment or element that
/// does not exist and is recoverable. `Sqlite` carries the message of a
/// failed call into the relational store.
#[derive(Debug, Clone, PartialEq, Eq)]
pub enum Error {
    UnknownEntryType(String),
    NotFound,
    Sqlite(String),
}

} // verus!
