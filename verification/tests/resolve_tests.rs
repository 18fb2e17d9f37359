use bookworm::index;
use bookworm::resolve_item;
use bookworm::search_src;
use bookworm::type_definition;
use bookworm::DocFile;
use bookworm::Error;
use bookworm::Item;
use rusqlite::Connection;

fn enum_page() -> String {
    let mut h = String::new();
    h.push_str("<html><head><title>E in demo</title></head><body>");
    h.push_str("<main id=\"main-content\">");
    h.push_str("<section class=\"variant\" id=\"variant.Array\"><h3>Array</h3></section>");
    h.push_str("<div class=\"docblock\"><p>Array variant docs</p></div>");
    h.push_str("<div class=\"impl-items\">");
    h.push_str("<details class=\"toggle method-toggle\">");
    h.push_str("<summary><section class=\"method\" id=\"method.get\">");
    h.push_str("<a class=\"src\" href=\"../src/demo/lib.rs.html#42\">source</a>");
    h.push_str("<h4>fn get</h4></section></summary>");
    h.push_str("<div class=\"docblock\">get docs</div>");
    h.push_str("</details>");
    h.push_str("</div>");
    h.push_str("<div id=\"trait-implementations-list\">");
    h.push_str("<div class=\"impl-items\">NOISETEXT</div>");
    h.push_str("</div>");
    h.push_str("</main></body></html>");
    h
}

fn module_page() -> String {
    let mut h = String::new();
    h.push_str("<html><head><title>demo</title></head><body>");
    h.push_str("<main id=\"main-content\">module docs</main></body></html>");
    h
}

fn file(path: &str, html: String) -> DocFile {
    DocFile { path: path.to_string(), head: html.clone(), html }
}

fn docset() -> Vec<DocFile> {
    vec![
        file("demo/index.html", module_page()),
        file("demo/enum.E.html", enum_page()),
        file("src/demo/lib.rs.html", "<html>source</html>".to_string()),
    ]
}

fn file_list() -> Vec<String> {
    docset().iter().map(|f| f.path.clone()).collect()
}

fn indexed() -> Connection {
    let mut conn = Connection::open_in_memory().expect("open");
    index(&docset(), &mut conn).expect("index");
    conn
}

#[test]
fn variant_fragment_resolves() {
    let conn = indexed();
    let item = resolve_item(&conn, "demo/enum.E.html#variant.Array", &enum_page(), &file_list())
        .expect("resolve");
    assert!(item.path.ends_with("::Array"));
    assert_eq!(item.path, "E::Array");
    assert_eq!(item.kind, "Variant");
    let type_info = item.type_info.expect("type info");
    assert!(!type_info.is_empty());
    assert!(type_info.contains("Array"));
    let docs = item.documentation.expect("documentation");
    assert!(docs.contains("Array variant docs"));
}

#[test]
fn method_fragment_resolves_with_source_reference() {
    let conn = indexed();
    let item = resolve_item(&conn, "demo/enum.E.html#method.get", &enum_page(), &file_list())
        .expect("resolve");
    assert_eq!(item.path, "E::get");
    assert_eq!(item.kind, "Method");
    assert!(item.type_info.expect("type info").contains("fn get"));
    assert_eq!(item.src_path, Some("/src/demo/lib.rs.html#42".to_string()));
}

#[test]
fn empty_fragment_returns_stripped_main_content() {
    let conn = indexed();
    let item =
        resolve_item(&conn, "demo/enum.E.html", &enum_page(), &file_list()).expect("resolve");
    assert_eq!(item.path, "E");
    assert_eq!(item.kind, "Enum");
    assert!(item.type_info.is_none());
    let docs = item.documentation.expect("documentation");
    assert!(docs.contains("Array variant docs"));
    assert!(!docs.contains("NOISETEXT"));
}

#[test]
fn unknown_path_is_not_found() {
    let conn = indexed();
    let r = resolve_item(&conn, "demo/enum.Other.html", &enum_page(), &file_list());
    assert_eq!(r, Err(Error::NotFound));
}

#[test]
fn missing_main_content_is_not_found() {
    let conn = indexed();
    let bare = "<html><body>nothing here</body></html>".to_string();
    let r = resolve_item(&conn, "demo/enum.E.html", &bare, &file_list());
    assert_eq!(r, Err(Error::NotFound));
}

#[test]
fn missing_fragment_element_is_not_found() {
    let conn = indexed();
    let bare = "<html><body><main id=\"main-content\"></main></body></html>".to_string();
    let r = resolve_item(&conn, "demo/enum.E.html#variant.Array", &bare, &file_list());
    assert_eq!(r, Err(Error::NotFound));
}

#[test]
fn source_reference_outside_docset_is_dropped() {
    // The same page, but its file list lacks the source file the link names.
    let conn = indexed();
    let files = vec!["demo/index.html".to_string(), "demo/enum.E.html".to_string()];
    let item =
        resolve_item(&conn, "demo/enum.E.html#method.get", &enum_page(), &files).expect("resolve");
    assert_eq!(item.src_path, None);
}

#[test]
fn search_src_is_a_stub() {
    let hits = search_src("anything").expect("stub");
    assert!(hits.is_empty());
}

#[test]
fn type_definition_builds_resource_names() {
    let item = Item {
        path: "E::get".to_string(),
        kind: "Method".to_string(),
        type_info: None,
        documentation: None,
        src_path: Some("/src/demo/lib.rs.html#42".to_string()),
    };
    let def = type_definition(item, "demo/enum.E.html#method.get", "demo", "1.0.0");
    assert_eq!(def.docs_resource, "crate://demo/1.0.0/items/demo/enum.E.html#method.get");
    assert_eq!(
        def.src_resource,
        Some("crate://demo/1.0.0/src/demo/lib.rs.html#42".to_string())
    );
    assert_eq!(def.item.path, "E::get");
}

#[test]
fn type_definition_without_source() {
    let item = Item {
        path: "demo".to_string(),
        kind: "Module".to_string(),
        type_info: None,
        documentation: Some("docs".to_string()),
        src_path: None,
    };
    let def = type_definition(item, "demo/index.html", "demo", "latest");
    assert_eq!(def.docs_resource, "crate://demo/latest/items/demo/index.html");
    assert_eq!(def.src_resource, None);
}
