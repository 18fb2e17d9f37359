use vstd::multiset::Multiset;
use vstd::prelude::*;

use crate::entry::entry_views;
use crate::entry::DocsetEntry;
use crate::entry::EntryV;
use crate::error::Error;
use crate::kind::spec_label;
use crate::walk::docset_entries;
use crate::walk::file_views;
use crate::walk::spec_docset_entries;
use crate::walk::DocFile;

verus! {

#[verifier::external_type_specification]
#[verifier::external_body]
pub struct ExConnection(rusqlite::Connection);

/// One raw row of the persisted `searchIndex` table: a fully qualified
/// name, a kind label, and a location path (row ids are not modeled).
#[derive(Debug, Clone, PartialEq, Eq)]
pub struct StoreRow {
    pub name: String,
    pub ty: String,
    pub path: String,
}

/// The mathematical image of one row.
pub ghost struct RowV {
    pub name: Seq<char>,
    pub ty: Seq<char>,
    pub path: Seq<char>,
}

impl View for StoreRow {
    type V = RowV;

    open spec fn view(&self) -> RowV {
        RowV { name: self.name@, ty: self.ty@, path: self.path@ }
    }
}

/// The views of a sequence of rows.
pub open spec fn row_views(v: Seq<StoreRow>) -> Seq<RowV> {
    v.map_values(|r: StoreRow| r@)
}

/// What the `searchIndex` table of a store connection holds, as a multiset:
/// the store promises no row order. The contents are modeled per handle:
/// writes must go through the connection a reader holds, which is the same
/// serialization discipline the engine asks of rebuilds.
pub uninterp spec fn store_rows(conn: rusqlite::Connection) -> Multiset<RowV>;

/// Whether the `searchIndex` table exists, with its unique index over
/// `(name, type, path)`.
pub uninterp spec fn store_ready(conn: rusqlite::Connection) -> bool;

/// The state a `ROLLBACK` through this handle would restore: `Some` of the
/// rows and readiness at the open transaction's `BEGIN`, or `None` when
/// the handle is in autocommit mode (no transaction open).
pub uninterp spec fn store_txn_base(conn: rusqlite::Connection) -> Option<(Multiset<RowV>, bool)>;

/// Relies on rusqlite's `Connection::execute_batch` running the given SQL:
/// dropping any previous `searchIndex` table and creating it afresh, with a
/// unique index over `(name, type, path)`, leaves the store ready and
/// empty. A failed batch stops at its first failing statement, each of
/// which backs itself out: either nothing has changed yet, or the table or
/// its unique index is missing.
#[verifier::external_body]
fn store_reset(conn: &mut rusqlite::Connection) -> (r: Result<(), String>)
    ensures
        r is Ok ==> store_ready(*final(conn)) && store_rows(*final(conn))
            == Multiset::<RowV>::empty(),
        r is Err ==> (store_rows(*final(conn)) == store_rows(*old(conn)) && store_ready(
            *final(conn),
        ) == store_ready(*old(conn))) || !store_ready(*final(conn)),
{
    conn.execute_batch(
        "DROP TABLE IF EXISTS searchIndex;
         CREATE TABLE searchIndex(id INTEGER PRIMARY KEY, name TEXT, type TEXT, path TEXT);
         CREATE UNIQUE INDEX anchor ON searchIndex (name, type, path);",
    ).map_err(|e| format!("{e}"))
}

/// Relies on rusqlite's `Connection::execute_batch`: `BEGIN` changes no
/// rows; when it succeeds, it opens a transaction whose rollback target is
/// the state the store had at that moment.
#[verifier::external_body]
fn store_begin(conn: &mut rusqlite::Connection) -> (r: Result<(), String>)
    ensures
        store_rows(*final(conn)) == store_rows(*old(conn)),
        store_ready(*final(conn)) == store_ready(*old(conn)),
        r is Ok ==> store_txn_base(*final(conn)) == Some(
            (store_rows(*old(conn)), store_ready(*old(conn))),
        ),
{
    conn.execute_batch("BEGIN").map_err(|e| format!("{e}"))
}

/// Relies on rusqlite's `Connection::execute_batch`: a successful `COMMIT`
/// makes the open transaction's rows durable, changes none of them, and
/// returns the handle to autocommit mode. A failed one either keeps the
/// transaction and its state as they were, or — for errors such as FULL or
/// IOERR — rolls the transaction back to its target (the implicit rollback
/// that libsqlite3-sys's header documents beside autocommit mode).
#[verifier::external_body]
fn store_commit(conn: &mut rusqlite::Connection) -> (r: Result<(), String>)
    ensures
        r is Ok ==> store_rows(*final(conn)) == store_rows(*old(conn)) && store_ready(
            *final(conn),
        ) == store_ready(*old(conn)) && store_txn_base(*final(conn)) is None,
        r is Err ==> (store_rows(*final(conn)) == store_rows(*old(conn)) && store_ready(
            *final(conn),
        ) == store_ready(*old(conn)) && store_txn_base(*final(conn)) == store_txn_base(
            *old(conn),
        )) || (store_txn_base(*old(conn)) matches Some(base) && store_rows(*final(conn)) == base.0
            && store_ready(*final(conn)) == base.1 && store_txn_base(*final(conn)) is None),
{
    conn.execute_batch("COMMIT").map_err(|e| format!("{e}"))
}

/// Relies on sqlite's transaction opcode (in libsqlite3-sys's amalgamation):
/// with a transaction open, `ROLLBACK` always runs, restoring the
/// transaction's target state and returning the handle to autocommit mode;
/// the only rollback error is that no transaction is active, which changes
/// nothing.
#[verifier::external_body]
fn store_rollback(conn: &mut rusqlite::Connection) -> (r: Result<(), String>)
    ensures
        r is Ok ==> (store_txn_base(*old(conn)) matches Some(base) && store_rows(*final(conn))
            == base.0 && store_ready(*final(conn)) == base.1 && store_txn_base(
            *final(conn),
        ) is None),
        r is Err ==> store_txn_base(*old(conn)) is None && store_rows(*final(conn)) == store_rows(
            *old(conn),
        ) && store_ready(*final(conn)) == store_ready(*old(conn)) && store_txn_base(
            *final(conn),
        ) is None,
{
    conn.execute_batch("ROLLBACK").map_err(|e| format!("{e}"))
}

/// Relies on rusqlite's `Connection::execute` running an `INSERT` under the
/// unique index over `(name, type, path)`: the insert succeeds only when
/// the row is not yet present, and never moves an open transaction's
/// rollback target. A failed statement either backs out only itself, or —
/// for errors such as FULL or IOERR inside a transaction — rolls the whole
/// transaction back to its target (the implicit rollback that
/// libsqlite3-sys's header documents beside autocommit mode).
#[verifier::external_body]
fn store_insert(conn: &mut rusqlite::Connection, name: &str, ty: &str, path: &str) -> (r: Result<
    (),
    String,
>)
    requires
        store_ready(*old(conn)),
    ensures
        r is Ok ==> store_ready(*final(conn)) && !store_rows(*old(conn)).contains(
            RowV { name: name@, ty: ty@, path: path@ },
        ) && store_rows(*final(conn)) == store_rows(*old(conn)).insert(
            RowV { name: name@, ty: ty@, path: path@ },
        ) && store_txn_base(*final(conn)) == store_txn_base(*old(conn)),
        r is Err ==> (store_rows(*final(conn)) == store_rows(*old(conn)) && store_ready(
            *final(conn),
        ) == store_ready(*old(conn)) && store_txn_base(*final(conn)) == store_txn_base(
            *old(conn),
        )) || (store_txn_base(*old(conn)) matches Some(base) && store_rows(*final(conn)) == base.0
            && store_ready(*final(conn)) == base.1 && store_txn_base(*final(conn)) is None),
{
    conn.execute("INSERT INTO searchIndex (name, type, path) VALUES (?1, ?2, ?3)", [name, ty, path])
        .map(|_| ()).map_err(|e| format!("{e}"))
}

/// Relies on rusqlite's prepared `SELECT` over the whole table: every row
/// comes back exactly once, in an order the store does not promise.
#[verifier::external_body]
pub(crate) fn store_select_all(conn: &rusqlite::Connection) -> (r: Result<Vec<StoreRow>, String>)
    ensures
        r matches Ok(v) ==> row_views(v@).to_multiset() == store_rows(*conn),
{
    let run = || -> Result<Vec<StoreRow>, rusqlite::Error> {
        let mut stmt = conn.prepare("SELECT name, type, path FROM searchIndex")?;
        let rows = stmt.query_map(
            [],
            |row| Ok(StoreRow { name: row.get(0)?, ty: row.get(1)?, path: row.get(2)? }),
        )?;
        rows.collect()
    };
    run().map_err(|e| format!("{e}"))
}

/// The row a persisted entry becomes: its kind written as its label.
pub open spec fn row_of_entry(e: EntryV) -> RowV {
    RowV { name: e.name, ty: spec_label(e.ty), path: e.path }
}

/// The row set of an entry list.
pub open spec fn rows_of_entries(es: Seq<EntryV>) -> Multiset<RowV> {
    es.map_values(|e: EntryV| row_of_entry(e)).to_multiset()
}

/// Whether an entry list holds no two entries with the same
/// `(name, kind, location)` key.
pub open spec fn distinct_entries(es: Seq<EntryV>) -> bool {
    forall|i: int, j: int|
        0 <= i < j < es.len() ==> #[trigger] row_of_entry(es[i]) != #[trigger] row_of_entry(es[j])
}

/// What a failed rebuild may leave behind, relative to the store state it
/// started from: the store untouched (the failure came before any change),
/// the index missing, or an empty index — never a partially filled one, so
/// a reader sees the absence of an index, not corruption.
pub open spec fn failed_build_state(
    pre_rows: Multiset<RowV>,
    pre_ready: bool,
    conn: rusqlite::Connection,
) -> bool {
    ||| (store_rows(conn) == pre_rows && store_ready(conn) == pre_ready)
    ||| !store_ready(conn)
    ||| (store_ready(conn) && store_rows(conn) == Multiset::<RowV>::empty())
}

/// Drops and recreates the persisted table, then inserts all entries in one
/// transaction. Duplicate `(name, kind, location)` keys are rejected by the
/// store's unique index, so a successful build both proves the entries
/// pairwise distinct and leaves exactly their rows. A failed build rolls
/// its transaction back: no subset of the entries stays visible.
pub fn build_index(conn: &mut rusqlite::Connection, entries: &Vec<DocsetEntry>) -> (r: Result<
    (),
    Error,
>)
    ensures
        r is Ok ==> {
            &&& store_ready(*final(conn))
            &&& store_rows(*final(conn)) == rows_of_entries(entry_views(entries@))
            &&& distinct_entries(entry_views(entries@))
        },
        r is Err ==> r->Err_0 is Sqlite && failed_build_state(
            store_rows(*old(conn)),
            store_ready(*old(conn)),
            *final(conn),
        ),
{
    broadcast use vstd::seq_lib::group_to_multiset_ensures;

    if let Err(e) = store_reset(conn) {
        return Err(Error::Sqlite(e));
    }
    if let Err(e) = store_begin(conn) {
        return Err(Error::Sqlite(e));
    }
    let ghost evs = entry_views(entries@);
    let n = entries.len();
    let mut i: usize = 0;
    proof {
        assert(evs.take(0).map_values(|e: EntryV| row_of_entry(e)) =~= Seq::<RowV>::empty());
    }
    while i < n
        invariant
            n == entries@.len(),
            evs == entry_views(entries@),
            i <= n,
            store_ready(*conn),
            store_rows(*conn) == rows_of_entries(evs.take(i as int)),
            store_txn_base(*conn) == Some((Multiset::<RowV>::empty(), true)),
            distinct_entries(evs.take(i as int)),
        decreases n - i,
    {
        let e = &entries[i];
        let ghost rows_before = store_rows(*conn);
        let label = e.ty.label();
        match store_insert(conn, e.name.as_str(), label.as_str(), e.path.as_str()) {
            Err(err) => {
                match store_rollback(conn) {
                    Ok(()) => {},
                    Err(_) => {},
                }
                proof {
                    assert(store_ready(*conn) && store_rows(*conn) == Multiset::<RowV>::empty());
                }
                return Err(Error::Sqlite(err));
            },
            Ok(()) => {
                proof {
                    let row = RowV { name: e.name@, ty: spec_label(e.ty), path: e.path@ };
                    assert(row == row_of_entry(evs[i as int]));
                    let pref = evs.take(i as int).map_values(|x: EntryV| row_of_entry(x));
                    let pref1 = evs.take(i + 1).map_values(|x: EntryV| row_of_entry(x));
                    assert(pref1 =~= pref.push(row));
                    pref.to_multiset_ensures();
                    assert(pref.push(row).to_multiset() =~= pref.to_multiset().insert(row));
                    assert forall|k: int, l: int| 0 <= k < l < i + 1 implies #[trigger] row_of_entry(
                        evs.take(i + 1)[k],
                    ) != #[trigger] row_of_entry(evs.take(i + 1)[l]) by {
                        if l == i {
                            assert(!rows_before.contains(row));
                            assert(pref[k] == row_of_entry(evs.take(i as int)[k]));
                            assert(pref.contains(pref[k]));
                            assert(pref.to_multiset().count(pref[k]) > 0);
                        } else {
                            assert(row_of_entry(evs.take(i as int)[k]) != row_of_entry(
                                evs.take(i as int)[l],
                            ));
                        }
                    }
                }
                i = i + 1;
            },
        }
    }
    if let Err(e) = store_commit(conn) {
        match store_rollback(conn) {
            Ok(()) => {},
            Err(_) => {},
        }
        proof {
            assert(store_ready(*conn) && store_rows(*conn) == Multiset::<RowV>::empty());
        }
        return Err(Error::Sqlite(e));
    }
    proof {
        assert(evs.take(n as int) =~= evs);
    }
    Ok(())
}

/// Uniqueness: the row set of a pairwise-distinct entry list holds every
/// row at most once, so a successful build never leaves a silently
/// duplicated `(name, kind, location)` row.
pub proof fn lemma_store_rows_unique(es: Seq<EntryV>)
    requires
        distinct_entries(es),
    ensures
        forall|row: RowV| rows_of_entries(es).count(row) <= 1,
    decreases es.len(),
{
    broadcast use vstd::multiset::group_multiset_axioms;

    let m = es.map_values(|e: EntryV| row_of_entry(e));
    m.to_multiset_ensures();
    if es.len() == 0 {
        assert forall|row: RowV| rows_of_entries(es).count(row) <= 1 by {
            assert(!m.contains(row));
        }
    } else {
        let dl = es.drop_last();
        let md = dl.map_values(|e: EntryV| row_of_entry(e));
        md.to_multiset_ensures();
        assert(distinct_entries(dl)) by {
            assert forall|i: int, j: int| 0 <= i < j < dl.len() implies #[trigger] row_of_entry(
                dl[i],
            ) != #[trigger] row_of_entry(dl[j]) by {
                assert(dl[i] == es[i] && dl[j] == es[j]);
            }
        }
        lemma_store_rows_unique(dl);
        let last_row = row_of_entry(es.last());
        assert(m =~= md.push(last_row));
        assert(md.push(last_row).to_multiset() =~= md.to_multiset().insert(last_row));
        assert forall|row: RowV| rows_of_entries(es).count(row) <= 1 by {
            assert(rows_of_entries(dl).count(row) <= 1);
            if row == last_row {
                assert(md.to_multiset().count(row) == 0) by {
                    if md.to_multiset().count(row) > 0 {
                        assert(md.contains(row));
                        let k = choose|k: int| 0 <= k < md.len() && md[k] == row;
                        assert(row_of_entry(es[k]) == row_of_entry(es[es.len() - 1]));
                    }
                }
            }
        }
    }
}

/// Every entry of a built list has its row in the built store: the bridge
/// from an entry the walker produced to the row a later search ranks.
pub proof fn lemma_indexed_entry_row(es: Seq<EntryV>, i: int)
    requires
        0 <= i < es.len(),
    ensures
        rows_of_entries(es).contains(row_of_entry(es[i])),
{
    broadcast use vstd::multiset::group_multiset_axioms;

    let m = es.map_values(|e: EntryV| row_of_entry(e));
    m.to_multiset_ensures();
    assert(m[i] == row_of_entry(es[i]));
    assert(m.contains(row_of_entry(es[i])));
}

/// Idempotence: what a successful build leaves in the store is a pure
/// function of the docset's files, so rebuilding from an unchanged docset
/// yields an identical row set.
pub proof fn lemma_index_idempotent(
    files: Seq<crate::walk::DocFileV>,
    r1: Multiset<RowV>,
    r2: Multiset<RowV>,
)
    requires
        spec_docset_entries(files) is Ok,
        r1 == rows_of_entries(spec_docset_entries(files)->Ok_0),
        r2 == rows_of_entries(spec_docset_entries(files)->Ok_0),
    ensures
        r1 == r2,
{
}

/// Indexes a docset, handed as its flat file list, into the store behind
/// the given connection: a full rebuild, dropping whatever index was there.
pub fn index(files: &Vec<DocFile>, conn: &mut rusqlite::Connection) -> (r: Result<(), Error>)
    ensures
        r is Ok ==> {
            &&& spec_docset_entries(file_views(files@)) is Ok
            &&& store_ready(*final(conn))
            &&& store_rows(*final(conn)) == rows_of_entries(
                spec_docset_entries(file_views(files@))->Ok_0,
            )
            &&& distinct_entries(spec_docset_entries(file_views(files@))->Ok_0)
        },
        r matches Err(e) ==> failed_build_state(
            store_rows(*old(conn)),
            store_ready(*old(conn)),
            *final(conn),
        ) && (e is Sqlite || (e matches Error::UnknownEntryType(m) && spec_docset_entries(
            file_views(files@),
        ) == Err::<Seq<EntryV>, _>(m@))),
{
    let entries = match docset_entries(files) {
        Err(e) => {
            return Err(e);
        },
        Ok(v) => v,
    };
    build_index(conn, &entries)
}

} // verus!
