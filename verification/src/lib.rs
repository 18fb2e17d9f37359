//! A documentation indexing and retrieval engine.
//!
//! The library turns a directory tree of generated API-reference HTML pages
//! (a "docset") into a queryable symbol index, persists the index in a
//! relational store, answers fuzzy, kind-filtered, deterministically ranked
//! queries against it, and extracts precise documentation fragments from the
//! docset's HTML on demand.
//!
//! All file and network handling lives outside the library: callers hand in
//! file contents and relative paths as plain values, and receive plain values
//! back.

pub mod dom;
pub mod entry;
pub mod error;
pub mod extract;
pub mod kind;
pub mod resolve;
pub mod search;
pub mod store;
pub mod text;
pub mod walk;

pub use entry::DocsetEntry;
pub use error::Error;
pub use kind::EntryType;
pub use resolve::resolve_item;
pub use resolve::search_src;
pub use resolve::type_definition;
pub use resolve::Item;
pub use resolve::SrcMatch;
pub use resolve::TypeDefinition;
pub use search::search;
pub use store::build_index;
pub use store::index;
pub use store::StoreRow;
pub use walk::docset_entries;
pub use walk::file_entries;
pub use walk::DocFile;
