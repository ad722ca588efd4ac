//! Flattening the window manager's scene graph and keeping the nodes that
//! stand for real application windows.

use crate::entity::{window_views, Window, WindowView};
use vstd::prelude::*;

verus! {

/// One node of the scene graph, reduced to what window selection reads.
#[derive(Debug)]
pub struct Node {
    /// Identifier of the client window shown in this node, if there is one.
    pub window: Option<i32>,
    /// Name of the node; for a client window, its title.
    pub name: Option<String>,
    /// Class of the client window, if known.
    pub class_name: Option<String>,
    /// Child nodes, in the manager's order.
    pub nodes: Vec<Node>,
}

/// The leaves below `nodes`, in depth-first order. A node with children
/// stands for its descendants and is not itself among the leaves.
pub open spec fn leaves(nodes: Seq<Node>) -> Seq<Node>
    decreases nodes,
{
    if nodes.len() == 0 {
        Seq::empty()
    } else {
        leaves(nodes.drop_last()) + leaves_under(nodes.last())
    }
}

/// The leaves at or below `node`.
pub open spec fn leaves_under(node: Node) -> Seq<Node>
    decreases node,
{
    if node.nodes@.len() > 0 {
        leaves(node.nodes@)
    } else {
        seq![node]
    }
}

/// The nodes that a sequence of references points at.
pub open spec fn targets(refs: Seq<&Node>) -> Seq<Node> {
    refs.map_values(|r: &Node| *r)
}

/// Collects references to the leaves below `nodes`, depth first.
pub fn flatten_nodes<'a>(nodes: &'a [Node]) -> (out: Vec<&'a Node>)
    ensures
        targets(out@) == leaves(nodes@),
    decreases nodes@,
{
    let mut out: Vec<&'a Node> = Vec::new();
    let mut i: usize = 0;
    while i < nodes.len()
        invariant
            i <= nodes.len(),
            targets(out@) == leaves(nodes@.take(i as int)),
        decreases nodes.len() - i,
    {
        let node = &nodes[i];
        assert(nodes@.take(i + 1).drop_last() =~= nodes@.take(i as int));
        assert(leaves(nodes@.take(i + 1)) == targets(out@) + leaves_under(*node));
        if node.nodes.len() > 0 {
            let mut below = flatten_nodes(&node.nodes);
            out.append(&mut below);
        } else {
            out.push(node);
        }
        i += 1;
    }
    assert(nodes@.take(nodes@.len() as int) =~= nodes@);
    out
}

/// Whether `name` is one of the manager's internal pseudo-window names.
pub open spec fn is_ignored_name(name: Seq<char>) -> bool {
    name == "__i3_scratch"@
}

/// Whether `class` belongs to a known program that is not an application.
pub open spec fn is_ignored_class(class: Seq<char>) -> bool {
    class == "i3bar"@
}

/// Whether `node` stands for a real application window: it carries a window
/// identifier, it has a name that is not ignored, and its class, if it has
/// one, is not ignored either.
pub open spec fn is_window(node: Node) -> bool {
    &&& node.window is Some
    &&& node.name matches Some(name) && !is_ignored_name(name@)
    &&& node.class_name matches Some(class) ==> !is_ignored_class(class@)
}

/// Decides whether `name` is an ignored window name.
pub fn ignored_name(name: &String) -> (b: bool)
    ensures
        b == is_ignored_name(name@),
{
    let ignored = String::from_str("__i3_scratch");
    *name == ignored
}

/// Decides whether `class` is an ignored window class.
pub fn ignored_class(class: &String) -> (b: bool)
    ensures
        b == is_ignored_class(class@),
{
    let ignored = String::from_str("i3bar");
    *class == ignored
}

/// Decides whether `node` stands for a real application window.
pub fn filter_node(node: &Node) -> (keep: bool)
    ensures
        keep == is_window(*node),
{
    node.window.is_some() && match &node.name {
        Some(name) => !ignored_name(name),
        None => false,
    } && match &node.class_name {
        Some(class) => !ignored_class(class),
        None => true,
    }
}

/// The window that `node` stands for, if it stands for one.
pub open spec fn window_of(node: Node) -> Option<WindowView> {
    if is_window(node) {
        Some(
            WindowView {
                id: node.window->0 as int,
                name: node.name->0@,
                class_name: match node.class_name {
                    Some(class) => Some(class@),
                    None => None,
                },
            },
        )
    } else {
        None
    }
}

/// The windows that the nodes of `nodes` stand for, in order.
pub open spec fn windows_among(nodes: Seq<Node>) -> Seq<WindowView> {
    nodes.filter_map(|node: Node| window_of(node))
}

/// Lists the application windows found below `nodes`, in depth-first order.
pub fn get_windows_names(nodes: &[Node]) -> (windows: Vec<Window>)
    ensures
        window_views(windows@) == windows_among(leaves(nodes@)),
{
    let flat = flatten_nodes(nodes);
    let mut windows: Vec<Window> = Vec::new();
    let mut i: usize = 0;
    while i < flat.len()
        invariant
            i <= flat.len(),
            window_views(windows@) == windows_among(targets(flat@).take(i as int)),
        decreases flat.len() - i,
    {
        let node = flat[i];
        assert(targets(flat@).take(i + 1).drop_last() =~= targets(flat@).take(i as int));
        if filter_node(node) {
            match (&node.window, &node.name) {
                (Some(id), Some(name)) => {
                    let class_name = match &node.class_name {
                        Some(class) => Some(class.clone()),
                        None => None,
                    };
                    let window = Window { id: *id, name: name.clone(), class_name };
                    windows.push(window);
                },
                _ => {},
            }
        }
        i += 1;
    }
    assert(targets(flat@).take(flat@.len() as int) =~= targets(flat@));
    windows
}

/// Flattening goes through a list from left to right: the leaves of two
/// lists put together are the leaves of the first followed by the leaves
/// of the second.
pub proof fn lemma_leaves_concat(left: Seq<Node>, right: Seq<Node>)
    ensures
        leaves(left + right) == leaves(left) + leaves(right),
    decreases right.len(),
{
    if right.len() > 0 {
        assert((left + right).drop_last() =~= left + right.drop_last());
        lemma_leaves_concat(left, right.drop_last());
    }
}

/// A node with children is replaced by the leaves below its children.
pub proof fn lemma_container_is_expanded(node: Node)
    requires
        node.nodes@.len() > 0,
    ensures
        leaves(seq![node]) == leaves(node.nodes@),
{
    assert(seq![node].drop_last() =~= Seq::<Node>::empty());
    assert(leaves(Seq::<Node>::empty()) =~= Seq::<Node>::empty());
    assert(leaves(seq![node]) =~= leaves_under(node));
}

/// Nodes without children are all kept, in their order.
pub proof fn lemma_leaves_of_childless(nodes: Seq<Node>)
    requires
        forall|i: int| 0 <= i < nodes.len() ==> (#[trigger] nodes[i]).nodes@.len() == 0,
    ensures
        leaves(nodes) == nodes,
    decreases nodes.len(),
{
    if nodes.len() > 0 {
        lemma_leaves_of_childless(nodes.drop_last());
        assert(leaves_under(nodes.last()) == seq![nodes.last()]);
    }
}

/// No node that comes out of flattening has children.
pub proof fn lemma_leaves_are_childless(nodes: Seq<Node>)
    ensures
        forall|i: int| 0 <= i < leaves(nodes).len() ==> (#[trigger] leaves(nodes)[i]).nodes@.len() == 0,
    decreases nodes,
{
    if nodes.len() > 0 {
        let front = nodes.drop_last();
        let last = nodes.last();
        lemma_leaves_are_childless(front);
        if last.nodes@.len() > 0 {
            lemma_leaves_are_childless(last.nodes@);
        }
        let found = leaves(nodes);
        assert forall|i: int| 0 <= i < found.len() implies (#[trigger] found[i]).nodes@.len()
            == 0 by {
            if i >= leaves(front).len() {
                assert(found[i] == leaves_under(last)[i - leaves(front).len()]);
            }
        }
    }
}

/// Windows are listed from left to right: the windows among two lists put
/// together are those among the first followed by those among the second.
pub proof fn lemma_windows_among_concat(left: Seq<Node>, right: Seq<Node>)
    ensures
        windows_among(left + right) == windows_among(left) + windows_among(right),
    decreases right.len(),
{
    if right.len() > 0 {
        assert((left + right).drop_last() =~= left + right.drop_last());
        lemma_windows_among_concat(left, right.drop_last());
    }
}

/// A single node contributes its window if it stands for one, and nothing
/// otherwise.
pub proof fn lemma_windows_among_one(node: Node)
    ensures
        windows_among(seq![node]) == match window_of(node) {
            Some(window) => seq![window],
            None => Seq::empty(),
        },
{
    assert(seq![node].drop_last() =~= Seq::<Node>::empty());
    assert(windows_among(Seq::<Node>::empty()) =~= Seq::<WindowView>::empty());
}

/// A container whose children are all leaves yields exactly those of its
/// children that stand for windows, in the order of the children.
pub proof fn lemma_windows_below_flat_container(node: Node)
    requires
        node.nodes@.len() > 0,
        forall|i: int| 0 <= i < node.nodes@.len() ==> (#[trigger] node.nodes@[i]).nodes@.len() == 0,
    ensures
        windows_among(leaves(seq![node])) == windows_among(node.nodes@),
{
    lemma_container_is_expanded(node);
    lemma_leaves_of_childless(node.nodes@);
}

/// A node without a window identifier, without a name, with an ignored
/// name or with an ignored class stands for no window, whatever else it
/// carries.
pub proof fn lemma_not_a_window(node: Node)
    ensures
        node.window is None ==> window_of(node) is None,
        node.name is None ==> window_of(node) is None,
        node.name matches Some(name) && is_ignored_name(name@) ==> window_of(node) is None,
        node.class_name matches Some(class) && is_ignored_class(class@) ==> window_of(node) is None,
{
}

/// Every listed window comes from one of the nodes, and it is a real one:
/// neither its name nor its class is ignored.
pub proof fn lemma_listed_windows_are_real(nodes: Seq<Node>, i: int)
    requires
        0 <= i < windows_among(nodes).len(),
    ensures
        exists|k: int|
            0 <= k < nodes.len() && window_of(#[trigger] nodes[k]) == Some(windows_among(nodes)[i]),
        !is_ignored_name(windows_among(nodes)[i].name),
        windows_among(nodes)[i].class_name matches Some(class) ==> !is_ignored_class(class),
    decreases nodes.len(),
{
    let front = nodes.drop_last();
    if i < windows_among(front).len() {
        lemma_listed_windows_are_real(front, i);
        let k = choose|k: int|
            0 <= k < front.len() && window_of(#[trigger] front[k]) == Some(windows_among(front)[i]);
        assert(window_of(nodes[k]) == Some(windows_among(nodes)[i]));
    } else {
        assert(window_of(nodes[nodes.len() - 1]) == Some(windows_among(nodes)[i]));
    }
}

} // verus!
