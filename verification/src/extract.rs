use vstd::prelude::*;

use crate::dom::flat_dom;
use crate::dom::has_class;
use crate::dom::is_tagged;
use crate::dom::node_is_tagged;
use crate::dom::node_views;
use crate::dom::parse_dom;
use crate::dom::DomNode;
use crate::dom::FlatNode;
use crate::entry::entry_views;
use crate::entry::DocsetEntry;
use crate::entry::EntryV;
use crate::kind::EntryType;
use crate::text::has_prefix;
use crate::text::str_has_prefix;

verus! {

/// Where the subtree rooted just before position `j` ends: the first
/// position at or after `j` whose node does not lie deeper than `d`.
pub open spec fn scan_end(nodes: Seq<DomNode>, d: nat, j: int) -> int
    decreases nodes.len() - j,
{
    if j >= nodes.len() {
        nodes.len() as int
    } else if nodes[j].depth <= d {
        j
    } else {
        scan_end(nodes, d, j + 1)
    }
}

/// The end of the subtree rooted at position `i`: nodes `i+1 .. subtree_end`
/// are exactly the descendants of node `i` in the flattened document.
pub open spec fn subtree_end(nodes: Seq<DomNode>, i: int) -> int {
    scan_end(nodes, nodes[i].depth, i + 1)
}

/// Runtime computation of `subtree_end`.
pub fn find_subtree_end(nodes: &Vec<FlatNode>, i: usize) -> (r: usize)
    requires
        i < nodes@.len(),
    ensures
        r == subtree_end(node_views(nodes@), i as int),
        i < r <= nodes@.len(),
{
    let d = nodes[i].depth;
    let n = nodes.len();
    let mut j = i + 1;
    proof {
        assert(node_views(nodes@)[i as int].depth == d as nat);
    }
    while j < n && nodes[j].depth > d
        invariant
            n == nodes@.len(),
            i < j <= n,
            d as nat == node_views(nodes@)[i as int].depth,
            scan_end(node_views(nodes@), d as nat, i + 1) == scan_end(
                node_views(nodes@),
                d as nat,
                j as int,
            ),
        decreases n - j,
    {
        proof {
            assert(node_views(nodes@)[j as int].depth == nodes@[j as int].depth as nat);
        }
        j = j + 1;
    }
    proof {
        if j < n {
            assert(node_views(nodes@)[j as int].depth == nodes@[j as int].depth as nat);
        }
    }
    j
}

/// A variant section: a `section` element classed `variant` whose id names
/// the variant as `variant.{name}`.
pub open spec fn is_variant_section(n: DomNode) -> bool {
    is_tagged(n, "section"@, "variant"@) && has_prefix(n.id, "variant."@)
}

/// The nested entry a variant section yields: the parent's name extended
/// with the variant name, located at the same file with the section id as
/// fragment anchor.
pub open spec fn variant_entry(n: DomNode, parent: Seq<char>, rel: Seq<char>) -> EntryV {
    EntryV {
        name: parent + "::"@ + n.id.skip("variant."@.len() as int),
        ty: EntryType::Variant,
        path: rel + "#"@ + n.id,
    }
}

/// The variant entries contributed by nodes from position `i` on, in
/// document order.
pub open spec fn spec_variants_from(
    nodes: Seq<DomNode>,
    i: int,
    parent: Seq<char>,
    rel: Seq<char>,
) -> Seq<EntryV>
    decreases nodes.len() - i,
{
    if i < 0 || i >= nodes.len() {
        Seq::<EntryV>::empty()
    } else {
        let head = if is_variant_section(nodes[i]) {
            seq![variant_entry(nodes[i], parent, rel)]
        } else {
            Seq::<EntryV>::empty()
        };
        head + spec_variants_from(nodes, i + 1, parent, rel)
    }
}

/// All variant entries of a parsed document.
pub open spec fn spec_variant_entries(html: Seq<char>, parent: Seq<char>, rel: Seq<char>) -> Seq<
    EntryV,
> {
    spec_variants_from(flat_dom(html), 0, parent, rel)
}

/// The shape every variant entry has: for some variant name `v`, the entry
/// is named `{parent}::{v}`, sits at `{rel}#variant.{v}`, and is a variant.
pub open spec fn variant_shaped(e: EntryV, parent: Seq<char>, rel: Seq<char>, v: Seq<char>) -> bool {
    &&& e.name == parent + "::"@ + v
    &&& e.path == rel + "#"@ + ("variant."@ + v)
    &&& e.ty == EntryType::Variant
}

proof fn lemma_variants_from_shape(
    nodes: Seq<DomNode>,
    i: int,
    parent: Seq<char>,
    rel: Seq<char>,
    k: int,
)
    requires
        0 <= k < spec_variants_from(nodes, i, parent, rel).len(),
    ensures
        exists|v: Seq<char>|
            #[trigger] variant_shaped(spec_variants_from(nodes, i, parent, rel)[k], parent, rel, v),
    decreases nodes.len() - i,
{
    let cur = spec_variants_from(nodes, i, parent, rel);
    if is_variant_section(nodes[i]) && k == 0 {
        let id = nodes[i].id;
        let v = id.skip("variant."@.len() as int);
        assert(cur[0] == variant_entry(nodes[i], parent, rel));
        assert("variant."@ + v =~= id) by {
            assert(id.take("variant."@.len() as int) == "variant."@);
            assert(id =~= id.take("variant."@.len() as int) + id.skip("variant."@.len() as int));
        }
        assert(variant_shaped(cur[0], parent, rel, v));
    } else if is_variant_section(nodes[i]) {
        lemma_variants_from_shape(nodes, i + 1, parent, rel, k - 1);
        assert(cur[k] == spec_variants_from(nodes, i + 1, parent, rel)[k - 1]);
        let v = choose|v: Seq<char>|
            #[trigger] variant_shaped(
                spec_variants_from(nodes, i + 1, parent, rel)[k - 1],
                parent,
                rel,
                v,
            );
        assert(variant_shaped(cur[k], parent, rel, v));
    } else {
        lemma_variants_from_shape(nodes, i + 1, parent, rel, k);
        assert(cur[k] == spec_variants_from(nodes, i + 1, parent, rel)[k]);
        let v = choose|v: Seq<char>|
            #[trigger] variant_shaped(
                spec_variants_from(nodes, i + 1, parent, rel)[k],
                parent,
                rel,
                v,
            );
        assert(variant_shaped(cur[k], parent, rel, v));
    }
}

/// Fragment shape: every variant entry a page yields carries, for some
/// variant name `v`, the name `{parent}::{v}` at location
/// `{rel}#variant.{v}` — so resolving a stored `variant.`-anchored location
/// always finds a row whose name ends in `::{v}`.
pub proof fn lemma_variant_entries_shape(html: Seq<char>, parent: Seq<char>, rel: Seq<char>, k: int)
    requires
        0 <= k < spec_variant_entries(html, parent, rel).len(),
    ensures
        exists|v: Seq<char>|
            #[trigger] variant_shaped(spec_variant_entries(html, parent, rel)[k], parent, rel, v),
{
    lemma_variants_from_shape(flat_dom(html), 0, parent, rel, k);
}

/// An implementation-block container: a `div` element classed `impl-items`.
pub open spec fn is_impl_block(n: DomNode) -> bool {
    is_tagged(n, "div"@, "impl-items"@)
}

/// A collapsible method entry: a `details` element classed both `toggle`
/// and `method-toggle`.
pub open spec fn is_method_toggle(n: DomNode) -> bool {
    n.tag == "details"@ && has_class(n, "toggle"@) && has_class(n, "method-toggle"@)
}

/// The method section inside a toggle: a `section` element classed `method`.
pub open spec fn is_method_section(n: DomNode) -> bool {
    is_tagged(n, "section"@, "method"@)
}

/// The first method section at or after position `lo`, before `hi`.
pub open spec fn first_method_section(nodes: Seq<DomNode>, lo: int, hi: int) -> Option<int>
    decreases hi - lo,
{
    if lo < 0 || lo >= hi || hi > nodes.len() {
        None
    } else if is_method_section(nodes[lo]) {
        Some(lo)
    } else {
        first_method_section(nodes, lo + 1, hi)
    }
}

/// The nested entry a method section yields.
pub open spec fn method_entry(n: DomNode, parent: Seq<char>, rel: Seq<char>) -> EntryV {
    EntryV {
        name: parent + "::"@ + n.id.skip("method."@.len() as int),
        ty: EntryType::Method,
        path: rel + "#"@ + n.id,
    }
}

/// The entry a method toggle at position `k` yields: the first method
/// section among its descendants, when it has one whose id is of the shape
/// `method.{name}`.
pub open spec fn toggle_entries(nodes: Seq<DomNode>, k: int, parent: Seq<char>, rel: Seq<char>) -> Seq<
    EntryV,
> {
    match first_method_section(nodes, k + 1, subtree_end(nodes, k)) {
        Some(m) => if has_prefix(nodes[m].id, "method."@) {
            seq![method_entry(nodes[m], parent, rel)]
        } else {
            Seq::<EntryV>::empty()
        },
        None => Seq::<EntryV>::empty(),
    }
}

/// The method entries contributed by the toggles at positions `lo .. hi`
/// (the descendants of one implementation block), in document order.
pub open spec fn spec_block_methods(
    nodes: Seq<DomNode>,
    lo: int,
    hi: int,
    parent: Seq<char>,
    rel: Seq<char>,
) -> Seq<EntryV>
    decreases hi - lo,
{
    if lo < 0 || lo >= hi || hi > nodes.len() {
        Seq::<EntryV>::empty()
    } else {
        let head = if is_method_toggle(nodes[lo]) {
            toggle_entries(nodes, lo, parent, rel)
        } else {
            Seq::<EntryV>::empty()
        };
        head + spec_block_methods(nodes, lo + 1, hi, parent, rel)
    }
}

/// The method entries contributed by the implementation blocks from
/// position `i` on, in document order.
pub open spec fn spec_methods_from(
    nodes: Seq<DomNode>,
    i: int,
    parent: Seq<char>,
    rel: Seq<char>,
) -> Seq<EntryV>
    decreases nodes.len() - i,
{
    if i < 0 || i >= nodes.len() {
        Seq::<EntryV>::empty()
    } else {
        let head = if is_impl_block(nodes[i]) {
            spec_block_methods(nodes, i + 1, subtree_end(nodes, i), parent, rel)
        } else {
            Seq::<EntryV>::empty()
        };
        head + spec_methods_from(nodes, i + 1, parent, rel)
    }
}

/// All method entries of a parsed document.
pub open spec fn spec_method_entries(html: Seq<char>, parent: Seq<char>, rel: Seq<char>) -> Seq<
    EntryV,
> {
    spec_methods_from(flat_dom(html), 0, parent, rel)
}

/// Builds `{parent}::{rest-of-id}` where `rest` drops the given prefix, and
/// the `{rel}#{id}` location, as runtime strings.
fn nested_entry(parent: &str, rel: &str, id: &str, plen: usize, ty: EntryType) -> (r: DocsetEntry)
    requires
        plen <= id@.len(),
    ensures
        r@ == (EntryV {
            name: parent@ + "::"@ + id@.skip(plen as int),
            ty,
            path: rel@ + "#"@ + id@,
        }),
{
    let mut name = String::from_str(parent);
    name.append("::");
    name.append(id.substring_char(plen, id.unicode_len()));
    let mut path = String::from_str(rel);
    path.append("#");
    path.append(id);
    proof {
        assert(name@ =~= parent@ + "::"@ + id@.skip(plen as int));
        assert(path@ =~= rel@ + "#"@ + id@);
    }
    DocsetEntry { name, ty, path }
}

/// Runtime search for the first method section in `lo .. hi`.
fn find_first_section(nodes: &Vec<FlatNode>, lo: usize, hi: usize) -> (r: Option<usize>)
    requires
        lo <= hi <= nodes@.len(),
    ensures
        match r {
            Some(m) => first_method_section(node_views(nodes@), lo as int, hi as int) == Some(
                m as int,
            ) && lo <= m < hi,
            None => first_method_section(node_views(nodes@), lo as int, hi as int) is None,
        },
{
    let mut m = lo;
    while m < hi
        invariant
            lo <= m <= hi <= nodes@.len(),
            first_method_section(node_views(nodes@), lo as int, hi as int) == first_method_section(
                node_views(nodes@),
                m as int,
                hi as int,
            ),
        decreases hi - m,
    {
        proof {
            assert(node_views(nodes@)[m as int] == nodes@[m as int]@);
        }
        if node_is_tagged(&nodes[m], "section", "method") {
            return Some(m);
        }
        m = m + 1;
    }
    None
}

/// Enumerates the methods of the implementation blocks of a symbol file's
/// document (used for struct, enum and trait pages).
pub fn method_entries(html: &str, parent: &str, rel: &str) -> (r: Vec<DocsetEntry>)
    ensures
        entry_views(r@) == spec_method_entries(html@, parent@, rel@),
{
    let nodes = parse_dom(html);
    let ghost fd = flat_dom(html@);
    let n = nodes.len();
    let mut out: Vec<DocsetEntry> = Vec::new();
    proof {
        assert(spec_methods_from(fd, 0, parent@, rel@) =~= entry_views(out@) + spec_methods_from(
            fd,
            0,
            parent@,
            rel@,
        ));
    }
    for i in 0..n
        invariant
            n == nodes@.len(),
            node_views(nodes@) == fd,
            fd == flat_dom(html@),
            spec_methods_from(fd, 0, parent@, rel@) == entry_views(out@) + spec_methods_from(
                fd,
                i as int,
                parent@,
                rel@,
            ),
    {
        proof {
            assert(node_views(nodes@)[i as int] == nodes@[i as int]@);
        }
        if node_is_tagged(&nodes[i], "div", "impl-items") {
            let hi = find_subtree_end(&nodes, i);
            let mut k = i + 1;
            proof {
                assert(spec_methods_from(fd, i as int, parent@, rel@) == spec_block_methods(
                    fd,
                    i + 1,
                    hi as int,
                    parent@,
                    rel@,
                ) + spec_methods_from(fd, i + 1, parent@, rel@));
            }
            while k < hi
                invariant
                    n == nodes@.len(),
                    node_views(nodes@) == fd,
                    fd == flat_dom(html@),
                    i < k <= hi <= n,
                    spec_methods_from(fd, 0, parent@, rel@) == entry_views(out@)
                        + spec_block_methods(fd, k as int, hi as int, parent@, rel@)
                        + spec_methods_from(fd, i + 1, parent@, rel@),
                decreases hi - k,
            {
                let ghost before = entry_views(out@);
                let ghost tail = spec_methods_from(fd, i + 1, parent@, rel@);
                proof {
                    assert(node_views(nodes@)[k as int] == nodes@[k as int]@);
                }
                let is_toggle = node_is_tagged(&nodes[k], "details", "toggle") && classes_have(
                    &nodes[k],
                    "method-toggle",
                );
                if is_toggle {
                    let ke = find_subtree_end(&nodes, k);
                    let ghost mut pushed: Seq<EntryV> = Seq::<EntryV>::empty();
                    match find_first_section(&nodes, k + 1, ke) {
                        Some(m) => {
                            proof {
                                assert(node_views(nodes@)[m as int] == nodes@[m as int]@);
                            }
                            if str_has_prefix(nodes[m].id.as_str(), "method.") {
                                let e = nested_entry(
                                    parent,
                                    rel,
                                    nodes[m].id.as_str(),
                                    "method.".unicode_len(),
                                    EntryType::Method,
                                );
                                proof {
                                    assert(e@ == method_entry(fd[m as int], parent@, rel@));
                                }
                                out.push(e);
                                proof {
                                    pushed = seq![e@];
                                    assert(entry_views(out@) =~= before.push(e@));
                                    assert(before.push(e@) =~= before + pushed);
                                }
                            }
                        },
                        None => {
                        },
                    }
                    proof {
                        assert(toggle_entries(fd, k as int, parent@, rel@) == pushed);
                        assert(spec_block_methods(fd, k as int, hi as int, parent@, rel@)
                            == toggle_entries(fd, k as int, parent@, rel@) + spec_block_methods(
                            fd,
                            k + 1,
                            hi as int,
                            parent@,
                            rel@,
                        ));
                        assert(entry_views(out@) =~= before + pushed);
                        assert((before + pushed) + spec_block_methods(
                            fd,
                            k + 1,
                            hi as int,
                            parent@,
                            rel@,
                        ) + tail =~= before + (pushed + spec_block_methods(
                            fd,
                            k + 1,
                            hi as int,
                            parent@,
                            rel@,
                        )) + tail);
                    }
                } else {
                    proof {
                        assert(!is_method_toggle(fd[k as int]));
                        assert(spec_block_methods(fd, k as int, hi as int, parent@, rel@)
                            == Seq::<EntryV>::empty() + spec_block_methods(
                            fd,
                            k + 1,
                            hi as int,
                            parent@,
                            rel@,
                        ));
                        assert(Seq::<EntryV>::empty() + spec_block_methods(
                            fd,
                            k + 1,
                            hi as int,
                            parent@,
                            rel@,
                        ) =~= spec_block_methods(fd, k + 1, hi as int, parent@, rel@));
                    }
                }
                k = k + 1;
            }
            proof {
                assert(spec_block_methods(fd, hi as int, hi as int, parent@, rel@)
                    =~= Seq::<EntryV>::empty());
                assert(entry_views(out@) + Seq::<EntryV>::empty() + spec_methods_from(
                    fd,
                    i + 1,
                    parent@,
                    rel@,
                ) =~= entry_views(out@) + spec_methods_from(fd, i + 1, parent@, rel@));
            }
        } else {
            proof {
                assert(!is_impl_block(fd[i as int]));
                assert(spec_methods_from(fd, i as int, parent@, rel@) == Seq::<EntryV>::empty()
                    + spec_methods_from(fd, i + 1, parent@, rel@));
                assert(Seq::<EntryV>::empty() + spec_methods_from(fd, i + 1, parent@, rel@)
                    =~= spec_methods_from(fd, i + 1, parent@, rel@));
            }
        }
    }
    proof {
        assert(spec_methods_from(fd, n as int, parent@, rel@) =~= Seq::<EntryV>::empty());
        assert(entry_views(out@) + Seq::<EntryV>::empty() =~= entry_views(out@));
    }
    out
}

/// Runtime test that a node carries the given class (beside whatever else
/// `node_is_tagged` already checked).
fn classes_have(n: &FlatNode, class: &str) -> (r: bool)
    ensures
        r == has_class(n@, class@),
{
    crate::dom::classes_name(n.classes.as_str(), class)
}

/// Enumerates the variant sections of a symbol file's document (used for
/// enum and type-alias pages; a page without variant sections yields none).
pub fn variant_entries(html: &str, parent: &str, rel: &str) -> (r: Vec<DocsetEntry>)
    ensures
        entry_views(r@) == spec_variant_entries(html@, parent@, rel@),
{
    let nodes = parse_dom(html);
    let n = nodes.len();
    let mut out: Vec<DocsetEntry> = Vec::new();
    proof {
        assert(entry_views(out@) =~= Seq::<EntryV>::empty());
    }
    for i in 0..n
        invariant
            n == nodes@.len(),
            node_views(nodes@) == flat_dom(html@),
            spec_variants_from(flat_dom(html@), 0, parent@, rel@) == entry_views(out@)
                + spec_variants_from(flat_dom(html@), i as int, parent@, rel@),
    {
        let ghost before = entry_views(out@);
        let ghost nv = node_views(nodes@);
        proof {
            assert(nv[i as int] == nodes@[i as int]@);
        }
        if node_is_tagged(&nodes[i], "section", "variant") && str_has_prefix(
            nodes[i].id.as_str(),
            "variant.",
        ) {
            let e = nested_entry(
                parent,
                rel,
                nodes[i].id.as_str(),
                "variant.".unicode_len(),
                EntryType::Variant,
            );
            out.push(e);
            proof {
                assert(entry_views(out@) =~= before.push(e@));
                assert(e@ == variant_entry(nv[i as int], parent@, rel@));
                assert(before.push(e@) =~= before + seq![e@]);
                assert(spec_variants_from(flat_dom(html@), i as int, parent@, rel@) == seq![
                    variant_entry(nv[i as int], parent@, rel@),
                ] + spec_variants_from(flat_dom(html@), i + 1, parent@, rel@));
                assert((before + seq![e@]) + spec_variants_from(flat_dom(html@), i + 1, parent@, rel@)
                    =~= before + spec_variants_from(flat_dom(html@), i as int, parent@, rel@));
            }
        } else {
            proof {
                assert(!is_variant_section(nv[i as int]));
                assert(spec_variants_from(flat_dom(html@), i as int, parent@, rel@)
                    == Seq::<EntryV>::empty() + spec_variants_from(
                    flat_dom(html@),
                    i + 1,
                    parent@,
                    rel@,
                ));
                assert(Seq::<EntryV>::empty() + spec_variants_from(
                    flat_dom(html@),
                    i + 1,
                    parent@,
                    rel@,
                ) =~= spec_variants_from(flat_dom(html@), i + 1, parent@, rel@));
            }
        }
    }
    proof {
        assert(spec_variants_from(flat_dom(html@), n as int, parent@, rel@)
            =~= Seq::<EntryV>::empty());
        assert(entry_views(out@) + Seq::<EntryV>::empty() =~= entry_views(out@));
    }
    out
}

} // verus!
