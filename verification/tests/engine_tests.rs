use bookworm::build_index;
use bookworm::docset_entries;
use bookworm::index;
use bookworm::search;
use bookworm::DocFile;
use bookworm::DocsetEntry;
use bookworm::EntryType;
use bookworm::Error;
use rusqlite::Connection;

fn enum_page() -> String {
    let mut h = String::new();
    h.push_str("<html><head><title>E in demo</title></head><body>");
    h.push_str("<main id=\"main-content\">");
    h.push_str("<section class=\"variant\" id=\"variant.Array\"><h3>Array</h3></section>");
    h.push_str("<div class=\"docblock\"><p>Array variant docs</p></div>");
    h.push_str("<div class=\"impl-items\">");
    h.push_str("<details class=\"toggle method-toggle\">");
    h.push_str("<summary><section class=\"method\" id=\"method.get\">");
    h.push_str("<a class=\"src\" href=\"../src/demo/lib.rs.html#42\">source</a>");
    h.push_str("<h4>fn get</h4></section></summary>");
    h.push_str("<div class=\"docblock\">get docs</div>");
    h.push_str("</details>");
    h.push_str("</div>");
    h.push_str("<div id=\"trait-implementations-list\">");
    h.push_str("<div class=\"impl-items\">NOISETEXT</div>");
    h.push_str("</div>");
    h.push_str("</main></body></html>");
    h
}

fn struct_page() -> String {
    let mut h = String::new();
    h.push_str("<html><head><title>Foo in demo</title></head><body>");
    h.push_str("<main id=\"main-content\"><div class=\"docblock\">Foo docs</div></main>");
    h.push_str("</body></html>");
    h
}

fn module_page() -> String {
    let mut h = String::new();
    h.push_str("<html><head><title>demo</title></head><body>");
    h.push_str("<main id=\"main-content\">module docs</main></body></html>");
    h
}

fn redirect_page() -> String {
    let mut h = String::new();
    h.push_str("<html><head><title>Redirection</title></head>");
    h.push_str("<body>redirecting</body></html>");
    h
}

fn file(path: &str, html: String) -> DocFile {
    DocFile { path: path.to_string(), head: html.clone(), html }
}

fn docset() -> Vec<DocFile> {
    vec![
        file("demo/index.html", module_page()),
        file("demo/enum.E.html", enum_page()),
        file("demo/struct.Foo.html", struct_page()),
        file("demo/struct.Gone.html", redirect_page()),
        file("src/demo/lib.rs.html", "<html>source</html>".to_string()),
        file("demo/all.html", "<html>listing</html>".to_string()),
    ]
}

fn indexed() -> Connection {
    let mut conn = Connection::open_in_memory().expect("open");
    index(&docset(), &mut conn).expect("index");
    conn
}

#[test]
fn walker_enumerates_every_entry() {
    let entries = docset_entries(&docset()).expect("walk");
    let expected = vec![
        DocsetEntry::new("demo", EntryType::Module, "demo/index.html"),
        DocsetEntry::new("E::get", EntryType::Method, "demo/enum.E.html#method.get"),
        DocsetEntry::new("E::Array", EntryType::Variant, "demo/enum.E.html#variant.Array"),
        DocsetEntry::new("E", EntryType::Enum, "demo/enum.E.html"),
        DocsetEntry::new("Foo", EntryType::Struct, "demo/struct.Foo.html"),
    ];
    assert_eq!(entries, expected);
}

#[test]
fn unknown_kind_token_aborts_the_walk() {
    let files = vec![file("demo/widget.Odd.html", struct_page())];
    assert_eq!(
        docset_entries(&files),
        Err(Error::UnknownEntryType("widget".to_string()))
    );
}

#[test]
fn redirection_page_yields_no_entries() {
    // The sentinel wins over an otherwise classifiable name.
    let files = vec![file("demo/struct.Gone.html", redirect_page())];
    assert_eq!(docset_entries(&files), Ok(vec![]));
}

#[test]
fn nested_module_paths_accumulate() {
    let files = vec![file("demo/de/value/struct.Inner.html", struct_page())];
    let entries = docset_entries(&files).expect("walk");
    assert_eq!(
        entries,
        vec![DocsetEntry::new(
            "de::value::Inner",
            EntryType::Struct,
            "demo/de/value/struct.Inner.html"
        )]
    );
}

#[test]
fn duplicate_rows_are_rejected() {
    let mut conn = Connection::open_in_memory().expect("open");
    let entries = vec![
        DocsetEntry::new("A", EntryType::Struct, "demo/struct.A.html"),
        DocsetEntry::new("A", EntryType::Struct, "demo/struct.A.html"),
    ];
    let r = build_index(&mut conn, &entries);
    assert!(matches!(r, Err(Error::Sqlite(_))));
    // The failed build rolled its transaction back: an empty index is
    // visible, not the first of the duplicate rows.
    let rows = search(&conn, "", &vec![], None).expect("search");
    assert!(rows.is_empty());
}

#[test]
fn failed_rebuild_leaves_no_partial_index() {
    let mut conn = Connection::open_in_memory().expect("open");
    let good = vec![
        DocsetEntry::new("A", EntryType::Struct, "demo/struct.A.html"),
        DocsetEntry::new("B", EntryType::Struct, "demo/struct.B.html"),
    ];
    build_index(&mut conn, &good).expect("first build");
    assert_eq!(search(&conn, "", &vec![], None).expect("search").len(), 2);
    // A failing rebuild drops the previous index and keeps no subset of the
    // new entries: its absence (an empty table) is what a reader observes.
    let bad = vec![
        DocsetEntry::new("C", EntryType::Struct, "demo/struct.C.html"),
        DocsetEntry::new("C", EntryType::Struct, "demo/struct.C.html"),
    ];
    assert!(build_index(&mut conn, &bad).is_err());
    let rows = search(&conn, "", &vec![], None).expect("search");
    assert!(rows.is_empty());
}

#[test]
fn rebuild_is_idempotent() {
    let mut conn = Connection::open_in_memory().expect("open");
    let files = docset();
    index(&files, &mut conn).expect("first build");
    let first = search(&conn, "", &vec![], None).expect("search");
    index(&files, &mut conn).expect("second build");
    let second = search(&conn, "", &vec![], None).expect("search");
    assert_eq!(first, second);
    assert_eq!(first.len(), 5);
}

#[test]
fn empty_query_returns_every_entry_once() {
    let conn = indexed();
    let rows = search(&conn, "", &vec![], None).expect("search");
    assert_eq!(rows.len(), 5);
    let mut paths: Vec<String> = rows.iter().map(|r| r.path.clone()).collect();
    paths.sort();
    let mut expected = vec![
        "demo/enum.E.html".to_string(),
        "demo/enum.E.html#method.get".to_string(),
        "demo/enum.E.html#variant.Array".to_string(),
        "demo/index.html".to_string(),
        "demo/struct.Foo.html".to_string(),
    ];
    expected.sort();
    assert_eq!(paths, expected);
}

#[test]
fn exact_name_ranks_first() {
    let conn = indexed();
    for name in ["E", "E::get", "E::Array", "Foo", "demo"] {
        let rows = search(&conn, name, &vec![], None).expect("search");
        assert!(!rows.is_empty(), "no results for {name}");
        assert_eq!(rows[0].name, name, "top result for {name}");
    }
}

#[test]
fn ranking_prefers_exact_suffix_then_shorter_name() {
    let mut conn = Connection::open_in_memory().expect("open");
    let entries = vec![
        DocsetEntry::new("foo::Bar::baz", EntryType::Method, "foo/struct.Bar.html#method.baz"),
        DocsetEntry::new("foo::Bar", EntryType::Struct, "foo/struct.Bar.html"),
    ];
    build_index(&mut conn, &entries).expect("build");
    let rows = search(&conn, "Bar", &vec![], None).expect("search");
    assert_eq!(rows.len(), 2);
    assert_eq!(rows[0].name, "foo::Bar");
    assert_eq!(rows[1].name, "foo::Bar::baz");
}

#[test]
fn kind_filter_excludes_other_kinds() {
    let conn = indexed();
    for query in ["", "E", "e", "%", "demo"] {
        let rows = search(&conn, query, &vec![EntryType::Method], None).expect("search");
        for row in &rows {
            assert_eq!(row.ty, "Method");
        }
    }
    let rows = search(&conn, "", &vec![EntryType::Method], None).expect("search");
    assert_eq!(rows.len(), 1);
    assert_eq!(rows[0].name, "E::get");
}

#[test]
fn limit_truncates_results() {
    let conn = indexed();
    let rows = search(&conn, "", &vec![], Some(2)).expect("search");
    assert_eq!(rows.len(), 2);
    let rows = search(&conn, "", &vec![], Some(0)).expect("search");
    assert_eq!(rows.len(), 0);
}

#[test]
fn spaces_become_wildcard_gaps() {
    let conn = indexed();
    let rows = search(&conn, "e array", &vec![], None).expect("search");
    assert_eq!(rows.len(), 1);
    assert_eq!(rows[0].name, "E::Array");
}

#[test]
fn matching_is_case_insensitive() {
    let conn = indexed();
    let rows = search(&conn, "e::array", &vec![], None).expect("search");
    assert!(!rows.is_empty());
    assert_eq!(rows[0].name, "E::Array");
}

#[test]
fn wildcard_edged_queries_are_used_verbatim() {
    let conn = indexed();
    // A leading wildcard suppresses the space-to-gap rewrite and wrapping.
    let rows = search(&conn, "%.get", &vec![], None).expect("search");
    assert_eq!(rows.len(), 1);
    assert_eq!(rows[0].path, "demo/enum.E.html#method.get");
}

#[test]
fn match_can_come_from_the_path_alone() {
    let conn = indexed();
    let rows = search(&conn, "index.html", &vec![], None).expect("search");
    assert_eq!(rows.len(), 1);
    assert_eq!(rows[0].name, "demo");
}

#[test]
fn underscore_matches_any_single_character() {
    let conn = indexed();
    let rows = search(&conn, "e_:array", &vec![], None).expect("search");
    assert_eq!(rows.len(), 1);
    assert_eq!(rows[0].name, "E::Array");
}

#[test]
fn root_index_file_names_the_empty_module() {
    let files = vec![file("index.html", module_page())];
    let entries = docset_entries(&files).expect("walk");
    assert_eq!(entries, vec![DocsetEntry::new("", EntryType::Module, "index.html")]);
}

#[test]
fn searching_missing_table_fails_with_store_error() {
    let conn = Connection::open_in_memory().expect("open");
    let r = search(&conn, "", &vec![], None);
    assert!(matches!(r, Err(Error::Sqlite(_))));
}
