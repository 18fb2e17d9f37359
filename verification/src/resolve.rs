use vstd::prelude::*;

use crate::dom::flat_dom;
use crate::dom::has_class;
use crate::dom::inner_html_without;
use crate::dom::node_views;
use crate::dom::parse_dom;
use crate::dom::DomNode;
use crate::dom::FlatNode;
use crate::error::Error;
use crate::extract::find_subtree_end;
use crate::extract::subtree_end;
use crate::store::store_rows;
use crate::store::store_select_all;
use crate::store::RowV;
use crate::text::first_index_of;
use crate::text::last_index_of;
use crate::text::spec_join;
use crate::text::spec_split;
use crate::text::str_eq;
use crate::text::views_of;

verus! {

/// One resolved documentation item: the symbol's fully qualified name, its
/// kind label, the markup of the addressed fragment (for in-page anchors),
/// the prose documentation block, and the docset-relative source-code
/// reference, where one resolves.
#[derive(Debug, Clone, PartialEq, Eq)]
pub struct Item {
    pub path: String,
    pub kind: String,
    pub type_info: Option<String>,
    pub documentation: Option<String>,
    pub src_path: Option<String>,
}

/// The mathematical image of one item.
pub ghost struct ItemV {
    pub path: Seq<char>,
    pub kind: Seq<char>,
    pub type_info: Option<Seq<char>>,
    pub documentation: Option<Seq<char>>,
    pub src_path: Option<Seq<char>>,
}

impl View for Item {
    type V = ItemV;

    open spec fn view(&self) -> ItemV {
        ItemV {
            path: self.path@,
            kind: self.kind@,
            type_info: match self.type_info {
                Some(ref s) => Some(s@),
                None => None,
            },
            documentation: match self.documentation {
                Some(ref s) => Some(s@),
                None => None,
            },
            src_path: match self.src_path {
                Some(ref s) => Some(s@),
                None => None,
            },
        }
    }
}

/// One source-code search hit.
#[derive(Debug, Clone, PartialEq, Eq)]
pub struct SrcMatch {
    pub path: String,
    pub line: usize,
    pub column: usize,
    pub context: String,
}

/// Searching source code is not part of the engine; the lookup always comes
/// back empty.
pub fn search_src(query: &str) -> (r: Result<Vec<SrcMatch>, Error>)
    ensures
        r matches Ok(v) && v@.len() == 0,
{
    Ok(Vec::new())
}

/// The file part of a storage path: everything before the last `#`, or the
/// whole path when it has none.
pub open spec fn spec_file_of(path: Seq<char>) -> Seq<char> {
    match last_index_of(path, '#') {
        Some(i) => path.take(i),
        None => path,
    }
}

/// The fragment part of a storage path: everything after the last `#`, or
/// empty when it has none.
pub open spec fn spec_frag_of(path: Seq<char>) -> Seq<char> {
    match last_index_of(path, '#') {
        Some(i) => path.skip(i + 1),
        None => Seq::<char>::empty(),
    }
}

/// The first node at or after `lo` carrying the given id.
pub open spec fn first_with_id(nodes: Seq<DomNode>, lo: int, id: Seq<char>) -> Option<int>
    decreases nodes.len() - lo,
{
    if lo < 0 || lo >= nodes.len() {
        None
    } else if nodes[lo].id == id {
        Some(lo)
    } else {
        first_with_id(nodes, lo + 1, id)
    }
}

/// A found id names its node.
pub proof fn lemma_first_with_id(nodes: Seq<DomNode>, lo: int, id: Seq<char>)
    ensures
        first_with_id(nodes, lo, id) matches Some(e) ==> lo <= e < nodes.len() && nodes[e].id
            == id,
    decreases nodes.len() - lo,
{
    if 0 <= lo < nodes.len() && nodes[lo].id != id {
        lemma_first_with_id(nodes, lo + 1, id);
    }
}

/// A documentation block: any node classed `docblock`.
pub open spec fn is_docblock(n: DomNode) -> bool {
    has_class(n, "docblock"@)
}

/// The parent of node `i`: the nearest preceding node that lies less deep.
pub open spec fn par_scan(nodes: Seq<DomNode>, d: nat, j: int) -> Option<int>
    decreases j + 1,
{
    if j < 0 || j >= nodes.len() {
        None
    } else if nodes[j].depth < d {
        Some(j)
    } else {
        par_scan(nodes, d, j - 1)
    }
}

pub open spec fn parent_of(nodes: Seq<DomNode>, i: int) -> Option<int> {
    par_scan(nodes, nodes[i].depth, i - 1)
}

/// The first documentation block in positions `lo .. hi`.
pub open spec fn first_docblock_in(nodes: Seq<DomNode>, lo: int, hi: int) -> Option<int>
    decreases hi - lo,
{
    if lo < 0 || lo >= hi || lo >= nodes.len() {
        None
    } else if is_docblock(nodes[lo]) {
        Some(lo)
    } else {
        first_docblock_in(nodes, lo + 1, hi)
    }
}

/// The recursive documentation search from node `i`: the node itself when
/// it is a documentation block; else the first block among the following
/// siblings and their descendants, up to the end of the parent's subtree;
/// else the same search from the parent. It ends when no parent remains.
pub open spec fn docblock_from(nodes: Seq<DomNode>, i: int) -> Option<int>
    decreases i,
{
    if i < 0 || i >= nodes.len() {
        None
    } else if is_docblock(nodes[i]) {
        Some(i)
    } else {
        let stop = match parent_of(nodes, i) {
            Some(p) => subtree_end(nodes, p),
            None => nodes.len() as int,
        };
        match first_docblock_in(nodes, subtree_end(nodes, i), stop) {
            Some(m) => Some(m),
            None => match parent_of(nodes, i) {
                Some(p) => if 0 <= p < i {
                    docblock_from(nodes, p)
                } else {
                    None
                },
                None => None,
            },
        }
    }
}

/// A source link: an `a` element classed `src`.
pub open spec fn is_src_link(n: DomNode) -> bool {
    n.tag == "a"@ && has_class(n, "src"@)
}

/// The first source link in positions `lo .. hi`.
pub open spec fn first_src_link(nodes: Seq<DomNode>, lo: int, hi: int) -> Option<int>
    decreases hi - lo,
{
    if lo < 0 || lo >= hi || lo >= nodes.len() {
        None
    } else if is_src_link(nodes[lo]) {
        Some(lo)
    } else {
        first_src_link(nodes, lo + 1, hi)
    }
}

/// Lexical path resolution: each segment is pushed onto the directory
/// stack, `.` and empty segments are dropped, and `..` pops; popping past
/// the docset root fails.
pub open spec fn spec_normalize(stack: Seq<Seq<char>>, segs: Seq<Seq<char>>) -> Option<
    Seq<Seq<char>>,
>
    decreases segs.len(),
{
    if segs.len() == 0 {
        Some(stack)
    } else {
        let s0 = segs[0];
        if s0 == "."@ || s0 == Seq::<char>::empty() {
            spec_normalize(stack, segs.skip(1))
        } else if s0 == ".."@ {
            if stack.len() == 0 {
                None
            } else {
                spec_normalize(stack.drop_last(), segs.skip(1))
            }
        } else {
            spec_normalize(stack.push(s0), segs.skip(1))
        }
    }
}

/// The docset-relative path a source href points at, resolved against the
/// referring file's directory; an absolute href, or one that climbs out of
/// the docset, resolves to nothing.
pub open spec fn spec_src_candidate(file: Seq<char>, href: Seq<char>) -> Option<Seq<char>> {
    let src = match first_index_of(href, '#') {
        Some(i) => href.take(i),
        None => href,
    };
    if src.len() > 0 && src[0] == '/' {
        None
    } else {
        let dir = spec_split(file, '/').drop_last();
        match spec_normalize(dir, spec_split(src, '/')) {
            None => None,
            Some(segs) => Some(spec_join(segs, "/"@)),
        }
    }
}

/// The source reference a href yields: the resolved candidate must name a
/// file of the docset, and the href's own anchor is re-appended after a
/// leading slash. Every failure is silently "no source reference".
pub open spec fn spec_src_path(file: Seq<char>, href: Seq<char>, files: Seq<Seq<char>>) -> Option<
    Seq<char>,
> {
    match spec_src_candidate(file, href) {
        None => None,
        Some(cand) => if files.contains(cand) {
            let frag = match first_index_of(href, '#') {
                Some(i) => href.skip(i + 1),
                None => Seq::<char>::empty(),
            };
            Some(seq!['/'] + cand + seq!['#'] + frag)
        } else {
            None
        },
    }
}

/// The source reference of the element at position `e`: its first source
/// link descendant's href, resolved; a link without an href yields none.
pub open spec fn spec_elem_src(
    nodes: Seq<DomNode>,
    e: int,
    file: Seq<char>,
    files: Seq<Seq<char>>,
) -> Option<Seq<char>> {
    match first_src_link(nodes, e + 1, subtree_end(nodes, e)) {
        None => None,
        Some(m) => if nodes[m].href.len() == 0 {
            None
        } else {
            spec_src_path(file, nodes[m].href, files)
        },
    }
}

/// The strip selector applied to a page's main content before it is handed
/// back: the implementation details of the trait-implementations listing.
pub open spec fn strip_selector() -> Seq<char> {
    "#trait-implementations-list .impl-items"@
}

/// The item a stored row resolves to against the given page, or nothing
/// when the addressed element does not exist. With an empty fragment the
/// page's main content (stripped of trait-implementation details) is the
/// documentation; with a fragment, the addressed element's markup is the
/// type info and the nearest documentation block is the documentation.
pub open spec fn spec_item(
    row: RowV,
    path: Seq<char>,
    html: Seq<char>,
    files: Seq<Seq<char>>,
) -> Option<ItemV> {
    let nodes = flat_dom(html);
    let file = spec_file_of(path);
    let frag = spec_frag_of(path);
    if frag.len() == 0 {
        match first_with_id(nodes, 0, "main-content"@) {
            None => None,
            Some(e) => Some(
                ItemV {
                    path: row.name,
                    kind: row.ty,
                    type_info: None,
                    documentation: crate::dom::cleaned_inner(html, "main-content"@, strip_selector()),
                    src_path: spec_elem_src(nodes, e, file, files),
                },
            ),
        }
    } else {
        match first_with_id(nodes, 0, frag) {
            None => None,
            Some(e) => Some(
                ItemV {
                    path: row.name,
                    kind: row.ty,
                    type_info: Some(nodes[e].html),
                    documentation: match docblock_from(nodes, e) {
                        Some(m) => Some(nodes[m].html),
                        None => None,
                    },
                    src_path: spec_elem_src(nodes, e, file, files),
                },
            ),
        }
    }
}

/// One search hit joined with its resolved item and the resource names the
/// surrounding retrieval layer hands out.
#[derive(Debug, Clone, PartialEq, Eq)]
pub struct TypeDefinition {
    pub item: Item,
    pub docs_resource: String,
    pub src_resource: Option<String>,
}

/// Builds the resource names of one resolved item: the documentation
/// resource `crate://{name}/{version}/items/{path}`, and, where the item
/// carries a source reference, `crate://{name}/{version}{src_path}`.
pub fn type_definition(item: Item, raw_path: &str, crate_name: &str, crate_version: &str) -> (r:
    TypeDefinition)
    ensures
        r.item == item,
        r.docs_resource@ == "crate://"@ + crate_name@ + "/"@ + crate_version@ + "/items/"@
            + raw_path@,
        match item@.src_path {
            None => r.src_resource is None,
            Some(p) => (r.src_resource matches Some(s) && s@ == "crate://"@ + crate_name@ + "/"@
                + crate_version@ + p),
        },
{
    let mut docs_resource = String::from_str("crate://");
    docs_resource.append(crate_name);
    docs_resource.append("/");
    docs_resource.append(crate_version);
    docs_resource.append("/items/");
    docs_resource.append(raw_path);
    let src_resource = match &item.src_path {
        None => None,
        Some(p) => {
            let mut s = String::from_str("crate://");
            s.append(crate_name);
            s.append("/");
            s.append(crate_version);
            s.append(p.as_str());
            Some(s)
        },
    };
    TypeDefinition { item, docs_resource, src_resource }
}

/// Runtime search for the first node at or after `lo` with the given id.
fn find_first_with_id(nodes: &Vec<FlatNode>, lo: usize, id: &str) -> (r: Option<usize>)
    ensures
        match r {
            Some(e) => first_with_id(node_views(nodes@), lo as int, id@) == Some(e as int) && lo
                <= e < nodes@.len(),
            None => first_with_id(node_views(nodes@), lo as int, id@) is None,
        },
{
    let n = nodes.len();
    if lo >= n {
        return None;
    }
    let mut m = lo;
    while m < n
        invariant
            n == nodes@.len(),
            lo <= m <= n,
            first_with_id(node_views(nodes@), lo as int, id@) == first_with_id(
                node_views(nodes@),
                m as int,
                id@,
            ),
        decreases n - m,
    {
        proof {
            assert(node_views(nodes@)[m as int] == nodes@[m as int]@);
        }
        if str_eq(nodes[m].id.as_str(), id) {
            return Some(m);
        }
        m = m + 1;
    }
    None
}

/// Runtime search for the parent of node `i`.
fn find_parent(nodes: &Vec<FlatNode>, i: usize) -> (r: Option<usize>)
    requires
        i < nodes@.len(),
    ensures
        match r {
            Some(p) => parent_of(node_views(nodes@), i as int) == Some(p as int) && p < i,
            None => parent_of(node_views(nodes@), i as int) is None,
        },
{
    let d = nodes[i].depth;
    proof {
        assert(node_views(nodes@)[i as int].depth == d as nat);
    }
    let mut j = i;
    while j > 0
        invariant
            i < nodes@.len(),
            j <= i,
            d as nat == node_views(nodes@)[i as int].depth,
            parent_of(node_views(nodes@), i as int) == par_scan(node_views(nodes@), d as nat, j - 1),
        decreases j,
    {
        j = j - 1;
        proof {
            assert(node_views(nodes@)[j as int].depth == nodes@[j as int].depth as nat);
        }
        if nodes[j].depth < d {
            return Some(j);
        }
    }
    None
}

/// Runtime search for the first documentation block in `lo .. hi`.
fn find_docblock_in(nodes: &Vec<FlatNode>, lo: usize, hi: usize) -> (r: Option<usize>)
    requires
        hi <= nodes@.len(),
    ensures
        match r {
            Some(m) => first_docblock_in(node_views(nodes@), lo as int, hi as int) == Some(
                m as int,
            ) && m < nodes@.len(),
            None => first_docblock_in(node_views(nodes@), lo as int, hi as int) is None,
        },
{
    let mut m = lo;
    while m < hi
        invariant
            hi <= nodes@.len(),
            lo <= m,
            first_docblock_in(node_views(nodes@), lo as int, hi as int) == first_docblock_in(
                node_views(nodes@),
                m as int,
                hi as int,
            ),
        decreases hi - m,
    {
        proof {
            assert(node_views(nodes@)[m as int] == nodes@[m as int]@);
        }
        if crate::dom::classes_name(nodes[m].classes.as_str(), "docblock") {
            return Some(m);
        }
        m = m + 1;
    }
    None
}

/// Runtime search for the first source link in `lo .. hi`.
fn find_src_link(nodes: &Vec<FlatNode>, lo: usize, hi: usize) -> (r: Option<usize>)
    requires
        hi <= nodes@.len(),
    ensures
        match r {
            Some(m) => first_src_link(node_views(nodes@), lo as int, hi as int) == Some(m as int)
                && m < nodes@.len(),
            None => first_src_link(node_views(nodes@), lo as int, hi as int) is None,
        },
{
    let mut m = lo;
    while m < hi
        invariant
            hi <= nodes@.len(),
            lo <= m,
            first_src_link(node_views(nodes@), lo as int, hi as int) == first_src_link(
                node_views(nodes@),
                m as int,
                hi as int,
            ),
        decreases hi - m,
    {
        proof {
            assert(node_views(nodes@)[m as int] == nodes@[m as int]@);
        }
        if crate::dom::node_is_tagged(&nodes[m], "a", "src") {
            return Some(m);
        }
        m = m + 1;
    }
    None
}

/// The explicit worklist form of the recursive documentation search: check
/// the node, scan its following siblings' subtrees, walk up; the walk ends
/// at the root.
fn find_docblock(nodes: &Vec<FlatNode>, start: usize) -> (r: Option<usize>)
    requires
        start < nodes@.len(),
    ensures
        match r {
            Some(m) => docblock_from(node_views(nodes@), start as int) == Some(m as int) && m
                < nodes@.len(),
            None => docblock_from(node_views(nodes@), start as int) is None,
        },
{
    let ghost nv = node_views(nodes@);
    let mut cur = start;
    loop
        invariant
            nv == node_views(nodes@),
            cur < nodes@.len(),
            docblock_from(nv, start as int) == docblock_from(nv, cur as int),
        decreases cur,
    {
        proof {
            assert(nv[cur as int] == nodes@[cur as int]@);
        }
        if crate::dom::classes_name(nodes[cur].classes.as_str(), "docblock") {
            return Some(cur);
        }
        let e = find_subtree_end(nodes, cur);
        let parent = find_parent(nodes, cur);
        let stop = match parent {
            Some(p) => find_subtree_end(nodes, p),
            None => nodes.len(),
        };
        let scan = if e <= stop {
            find_docblock_in(nodes, e, stop)
        } else {
            proof {
                assert(first_docblock_in(nv, e as int, stop as int) is None);
            }
            None
        };
        match scan {
            Some(m) => {
                return Some(m);
            },
            None => {
                match parent {
                    None => {
                        return None;
                    },
                    Some(p) => {
                        cur = p;
                    },
                }
            },
        }
    }
}

/// Whether one of the docset's files has exactly this path.
fn contains_file(files: &Vec<String>, x: &str) -> (r: bool)
    ensures
        r == views_of(files@).contains(x@),
{
    let n = files.len();
    for i in 0..n
        invariant
            n == files@.len(),
            forall|k: int| 0 <= k < i ==> #[trigger] views_of(files@)[k] != x@,
    {
        if str_eq(files[i].as_str(), x) {
            proof {
                assert(views_of(files@)[i as int] == x@);
            }
            return true;
        }
    }
    proof {
        if views_of(files@).contains(x@) {
            let j = choose|j: int|
                0 <= j < views_of(files@).len() && views_of(files@)[j] == x@;
            assert(views_of(files@)[j] == x@);
        }
    }
    false
}

/// Runtime resolution of a source href against the referring file's
/// directory and the docset's file list.
fn src_path_of(file: &str, href: &str, files: &Vec<String>) -> (r: Option<String>)
    ensures
        match r {
            Some(s) => spec_src_path(file@, href@, views_of(files@)) == Some(s@),
            None => spec_src_path(file@, href@, views_of(files@)) is None,
        },
{
    let (src, frag) = match crate::text::find_char(href, '#') {
        Some(i) => crate::text::split_at_index(href, i),
        None => (String::from_str(href), String::new()),
    };
    proof {
        assert(src@ == match first_index_of(href@, '#') {
            Some(i) => href@.take(i),
            None => href@,
        });
        assert(frag@ == match first_index_of(href@, '#') {
            Some(i) => href@.skip(i + 1),
            None => Seq::<char>::empty(),
        });
    }
    if src.unicode_len() > 0 && src.as_str().get_char(0) == '/' {
        return None;
    }
    let dir_segs = crate::text::split_char(file, '/');
    let mut stack: Vec<String> = Vec::new();
    let dn = dir_segs.len();
    let mut di: usize = 0;
    while di < dn - 1
        invariant
            dn == dir_segs@.len() && dn >= 1,
            di <= dn - 1,
            views_of(stack@) =~= views_of(dir_segs@).take(di as int),
        decreases dn - di,
    {
        let ghost before = views_of(stack@);
        stack.push(dir_segs[di].clone());
        proof {
            assert(views_of(stack@) =~= before.push(dir_segs@[di as int]@));
            assert(views_of(stack@) =~= views_of(dir_segs@).take(di + 1));
        }
        di = di + 1;
    }
    proof {
        assert(views_of(dir_segs@).take(dn - 1) =~= views_of(dir_segs@).drop_last());
        assert(views_of(dir_segs@).drop_last() =~= spec_split(file@, '/').drop_last());
    }
    let src_segs = crate::text::split_char(src.as_str(), '/');
    proof {
        assert(views_of(src_segs@).skip(0) =~= views_of(src_segs@));
    }
    let sn = src_segs.len();
    let mut si: usize = 0;
    while si < sn
        invariant
            sn == src_segs@.len(),
            si <= sn,
            src@ == (match first_index_of(href@, '#') {
                Some(i) => href@.take(i),
                None => href@,
            }),
            !(src@.len() > 0 && src@[0] == '/'),
            spec_normalize(spec_split(file@, '/').drop_last(), spec_split(src@, '/')) == (
            spec_normalize(views_of(stack@), views_of(src_segs@).skip(si as int))),
        decreases sn - si,
    {
        let ghost st = views_of(stack@);
        let ghost rest = views_of(src_segs@).skip(si as int);
        proof {
            assert(rest[0] == views_of(src_segs@)[si as int]);
            assert(rest.skip(1) =~= views_of(src_segs@).skip(si + 1));
        }
        let seg = &src_segs[si];
        if str_eq(seg.as_str(), ".") || seg.unicode_len() == 0 {
            proof {
                assert(rest[0] == "."@ || rest[0] == Seq::<char>::empty());
            }
        } else if str_eq(seg.as_str(), "..") {
            if stack.len() == 0 {
                proof {
                    assert(spec_normalize(st, rest) is None);
                }
                return None;
            }
            let ghost before = views_of(stack@);
            stack.pop();
            proof {
                assert(views_of(stack@) =~= before.drop_last());
            }
        } else {
            let ghost before = views_of(stack@);
            stack.push(seg.clone());
            proof {
                assert(views_of(stack@) =~= before.push(rest[0]));
            }
        }
        si = si + 1;
    }
    proof {
        assert(views_of(src_segs@).skip(sn as int) =~= Seq::<Seq<char>>::empty());
        assert(spec_normalize(views_of(stack@), Seq::<Seq<char>>::empty()) == Some(
            views_of(stack@),
        ));
    }
    let cand = crate::text::join_sep(&stack, "/");
    if !contains_file(files, cand.as_str()) {
        return None;
    }
    proof {
        reveal_strlit("/");
        reveal_strlit("#");
    }
    let mut out = String::from_str("/");
    out.append(cand.as_str());
    out.append("#");
    out.append(frag.as_str());
    proof {
        assert(out@ =~= seq!['/'] + cand@ + seq!['#'] + frag@);
    }
    Some(out)
}

/// Looks a storage path up in the index store and extracts the addressed
/// documentation fragment from the page's markup, which the caller reads
/// from the file the path names. `files` lists every file of the docset, so
/// that a source reference can only resolve to one of them.
pub fn resolve_item(
    conn: &rusqlite::Connection,
    path: &str,
    html: &str,
    files: &Vec<String>,
) -> (r: Result<Item, Error>)
    ensures
        r matches Ok(item) ==> exists|row: RowV|
            {
                &&& #[trigger] store_rows(*conn).contains(row)
                &&& row.path == path@
                &&& spec_item(row, path@, html@, views_of(files@)) == Some(item@)
            },
        r matches Err(e) ==> e is Sqlite || e is NotFound,
        r matches Err(e) && e is NotFound ==> (forall|row: RowV|
            store_rows(*conn).contains(row) ==> row.path != path@) || (exists|row: RowV|
            {
                &&& #[trigger] store_rows(*conn).contains(row)
                &&& row.path == path@
                &&& spec_item(row, path@, html@, views_of(files@)) is None
            }),
{
    broadcast use vstd::seq_lib::group_to_multiset_ensures;

    let rows = match store_select_all(conn) {
        Err(e) => {
            return Err(Error::Sqlite(e));
        },
        Ok(v) => v,
    };
    let n = rows.len();
    let mut found: Option<usize> = None;
    for i in 0..n
        invariant
            n == rows@.len(),
            match found {
                Some(f) => f < i && rows@[f as int]@.path == path@,
                None => forall|k: int| 0 <= k < i ==> #[trigger] rows@[k]@.path != path@,
            },
        decreases n - i,
    {
        if found.is_none() && str_eq(rows[i].path.as_str(), path) {
            found = Some(i);
        }
    }
    let fi = match found {
        None => {
            proof {
                assert forall|row: RowV| store_rows(*conn).contains(row) implies row.path
                    != path@ by {
                    let rvs = crate::store::row_views(rows@);
                    assert(rvs.to_multiset().contains(row));
                    assert(rvs.contains(row));
                    let k = choose|k: int| 0 <= k < rvs.len() && rvs[k] == row;
                    assert(rows@[k]@.path != path@);
                }
            }
            return Err(Error::NotFound);
        },
        Some(f) => f,
    };
    let row_name = rows[fi].name.clone();
    let row_ty = rows[fi].ty.clone();
    let ghost the_row = rows@[fi as int]@;
    proof {
        let rvs = crate::store::row_views(rows@);
        assert(rvs[fi as int] == the_row);
        assert(rvs.contains(the_row));
        assert(rvs.to_multiset().count(the_row) > 0);
        assert(store_rows(*conn).contains(the_row));
    }
    let (file, frag) = match crate::text::rfind_char(path, '#') {
        Some(i) => crate::text::split_at_index(path, i),
        None => (String::from_str(path), String::new()),
    };
    proof {
        assert(file@ == spec_file_of(path@));
        assert(frag@ == spec_frag_of(path@));
    }
    let nodes = parse_dom(html);
    let ghost nv = node_views(nodes@);
    if frag.unicode_len() == 0 {
        let elem = match find_first_with_id(&nodes, 0, "main-content") {
            None => {
                proof {
                    assert(spec_item(the_row, path@, html@, views_of(files@)) is None);
                }
                return Err(Error::NotFound);
            },
            Some(e) => e,
        };
        proof {
            reveal_strlit("main-content");
            assert("main-content"@.len() == 12);
            assert forall|i: int| 0 <= i < "main-content"@.len() implies ('a'
                <= #[trigger] "main-content"@[i] && "main-content"@[i] <= 'z')
                || "main-content"@[i] == '-' by {
                assert("main-content"@[0] == 'm');
                assert("main-content"@[1] == 'a');
                assert("main-content"@[2] == 'i');
                assert("main-content"@[3] == 'n');
                assert("main-content"@[4] == '-');
                assert("main-content"@[5] == 'c');
                assert("main-content"@[6] == 'o');
                assert("main-content"@[7] == 'n');
                assert("main-content"@[8] == 't');
                assert("main-content"@[9] == 'e');
                assert("main-content"@[10] == 'n');
                assert("main-content"@[11] == 't');
            }
        }
        let doc = match inner_html_without(html, "main-content", "#trait-implementations-list .impl-items") {
            None => {
                proof {
                    assert(spec_item(the_row, path@, html@, views_of(files@)) is None) by {
                        assert(!crate::dom::flat_has_id(flat_dom(html@), "main-content"@));
                        lemma_first_with_id(nv, 0, "main-content"@);
                        assert(nv[elem as int].id == "main-content"@);
                    }
                }
                return Err(Error::NotFound);
            },
            Some(s) => s,
        };
        let src_path = elem_src(&nodes, elem, file.as_str(), files);
        let item = Item {
            path: row_name,
            kind: row_ty,
            type_info: None,
            documentation: Some(doc),
            src_path,
        };
        proof {
            assert(spec_item(the_row, path@, html@, views_of(files@)) == Some(item@));
        }
        Ok(item)
    } else {
        let elem = match find_first_with_id(&nodes, 0, frag.as_str()) {
            None => {
                proof {
                    assert(spec_item(the_row, path@, html@, views_of(files@)) is None);
                }
                return Err(Error::NotFound);
            },
            Some(e) => e,
        };
        let type_info = Some(nodes[elem].html.clone());
        let documentation = match find_docblock(&nodes, elem) {
            Some(m) => Some(nodes[m].html.clone()),
            None => None,
        };
        let src_path = elem_src(&nodes, elem, file.as_str(), files);
        let item = Item { path: row_name, kind: row_ty, type_info, documentation, src_path };
        proof {
            assert(spec_item(the_row, path@, html@, views_of(files@)) == Some(item@));
        }
        Ok(item)
    }
}

/// Runtime computation of `spec_elem_src`.
fn elem_src(nodes: &Vec<FlatNode>, e: usize, file: &str, files: &Vec<String>) -> (r: Option<
    String,
>)
    requires
        e < nodes@.len(),
    ensures
        match r {
            Some(s) => spec_elem_src(node_views(nodes@), e as int, file@, views_of(files@))
                == Some(s@),
            None => spec_elem_src(node_views(nodes@), e as int, file@, views_of(files@)) is None,
        },
{
    let hi = find_subtree_end(nodes, e);
    let m = match find_src_link(nodes, e + 1, hi) {
        None => {
            return None;
        },
        Some(m) => m,
    };
    proof {
        assert(node_views(nodes@)[m as int] == nodes@[m as int]@);
    }
    if nodes[m].href.unicode_len() == 0 {
        return None;
    }
    src_path_of(file, nodes[m].href.as_str(), files)
}

} // verus!
