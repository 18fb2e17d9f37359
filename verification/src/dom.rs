use vstd::prelude::*;

use crate::text::spec_split;
use crate::text::views_of;

verus! {

/// One node of a parsed HTML document. Nodes are listed in document
/// (preorder) position; `depth` is the node's distance from the document
/// root, so the structure of the tree can be recovered from the flat list.
/// Attribute fields hold the empty string where the node has no such
/// attribute (text and comment nodes have none at all, and an empty `tag`).
pub struct FlatNode {
    pub depth: usize,
    pub tag: String,
    pub id: String,
    pub classes: String,
    pub href: String,
    pub html: String,
}

/// The mathematical image of one parsed node.
pub ghost struct DomNode {
    pub depth: nat,
    pub tag: Seq<char>,
    pub id: Seq<char>,
    pub classes: Seq<char>,
    pub href: Seq<char>,
    pub html: Seq<char>,
}

impl View for FlatNode {
    type V = DomNode;

    open spec fn view(&self) -> DomNode {
        DomNode {
            depth: self.depth as nat,
            tag: self.tag@,
            id: self.id@,
            classes: self.classes@,
            href: self.href@,
            html: self.html@,
        }
    }
}

/// The views of a parsed node list.
pub open spec fn node_views(v: Seq<FlatNode>) -> Seq<DomNode> {
    v.map_values(|n: FlatNode| n@)
}

/// The flattened DOM of an HTML document: parsing is a function of the text
/// alone.
pub uninterp spec fn flat_dom(html: Seq<char>) -> Seq<DomNode>;

/// Relies on dom_query's `Document::from` and `NodeRef::descendants_it`: the
/// parse is a pure function of the HTML text, and the traversal yields every
/// node of the tree in document (preorder) order, each knowing its ancestor
/// count, element name, attributes and inner markup.
#[verifier::external_body]
pub(crate) fn parse_dom(html: &str) -> (r: Vec<FlatNode>)
    ensures
        node_views(r@) == flat_dom(html@),
{
    let doc = dom_query::Document::from(html);
    doc.root().descendants_it().map(|n| FlatNode {
        depth: n.ancestors(None).len(),
        tag: n.node_name().map(|t| t.to_string()).unwrap_or_default(),
        id: n.attr("id").map(|t| t.to_string()).unwrap_or_default(),
        classes: n.attr("class").map(|t| t.to_string()).unwrap_or_default(),
        href: n.attr("href").map(|t| t.to_string()).unwrap_or_default(),
        html: n.try_inner_html().map(|t| t.to_string()).unwrap_or_default(),
    }).collect()
}

/// The inner markup of the element carrying the given id, after the subtrees
/// matching the strip selector have been removed: a function of the three
/// arguments.
pub uninterp spec fn cleaned_inner(html: Seq<char>, id: Seq<char>, strip_sel: Seq<char>) -> Option<
    Seq<char>,
>;

/// Whether some node of the flattened document carries the given id.
pub open spec fn flat_has_id(nodes: Seq<DomNode>, id: Seq<char>) -> bool {
    exists|i: int| 0 <= i < nodes.len() && nodes[i].id == id
}

/// Relies on dom_query's attribute selection, subtree removal and
/// serialization: the result is a function of the HTML text, the id and the
/// strip selector, and an element is selected exactly when one carries the
/// id. The id is restricted to lower-case letters and hyphens so that it
/// always forms a valid selector.
#[verifier::external_body]
pub(crate) fn inner_html_without(html: &str, id: &str, strip_sel: &str) -> (r: Option<String>)
    requires
        id@.len() > 0,
        forall|i: int|
            0 <= i < id@.len() ==> ('a' <= #[trigger] id@[i] && id@[i] <= 'z') || id@[i] == '-',
    ensures
        match r {
            Some(s) => cleaned_inner(html@, id@, strip_sel@) == Some(s@),
            None => cleaned_inner(html@, id@, strip_sel@) is None,
        },
        r is Some <==> flat_has_id(flat_dom(html@), id@),
{
    let doc = dom_query::Document::from(html);
    let sel = format!("[id='{}']", id);
    let Some(found) = doc.try_select(&sel) else {
        return None;
    };
    let Some(el) = found.iter().next() else {
        return None;
    };
    if let Some(noise) = el.try_select(strip_sel) {
        noise.remove();
    }
    Some(el.inner_html().to_string())
}

/// Whether a node's `class` attribute names the given (nonempty) class:
/// the attribute is split on spaces and one piece must equal it.
pub open spec fn has_class(n: DomNode, class: Seq<char>) -> bool {
    class.len() > 0 && spec_split(n.classes, ' ').contains(class)
}

/// Whether a node is an element with the given tag carrying the given class.
pub open spec fn is_tagged(n: DomNode, tag: Seq<char>, class: Seq<char>) -> bool {
    n.tag == tag && has_class(n, class)
}

/// Runtime test for the class membership that `has_class` speaks of.
pub fn classes_name(classes: &str, class: &str) -> (r: bool)
    ensures
        r == (class@.len() > 0 && spec_split(classes@, ' ').contains(class@)),
{
    if class.unicode_len() == 0 {
        return false;
    }
    let parts = crate::text::split_char(classes, ' ');
    let n = parts.len();
    for i in 0..n
        invariant
            n == parts@.len(),
            class@.len() > 0,
            views_of(parts@) == spec_split(classes@, ' '),
            forall|k: int| 0 <= k < i ==> #[trigger] views_of(parts@)[k] != class@,
    {
        if crate::text::str_eq(parts[i].as_str(), class) {
            proof {
                assert(spec_split(classes@, ' ')[i as int] == class@);
            }
            return true;
        }
    }
    proof {
        if spec_split(classes@, ' ').contains(class@) {
            let j = choose|j: int|
                0 <= j < spec_split(classes@, ' ').len() && spec_split(classes@, ' ')[j] == class@;
            assert(views_of(parts@)[j] == class@);
        }
    }
    false
}

/// Runtime test for `is_tagged`.
pub fn node_is_tagged(n: &FlatNode, tag: &str, class: &str) -> (r: bool)
    ensures
        r == is_tagged(n@, tag@, class@),
{
    crate::text::str_eq(n.tag.as_str(), tag) && classes_name(n.classes.as_str(), class)
}

} // verus!
