//! The scene tree: an arena of nodes, each with its style record, computed
//! geometry, registered events and the ordered list of its children.
//!
//! Node 0 is the root view. Nodes are only ever added, each as the last child
//! of a node that already exists, so the tree never loses a node, a child never
//! changes parent, and every node's parent has a smaller index.
use vstd::prelude::*;
use crate::children::ChildList;
use crate::event::CapsuleObjectEvent;
use crate::style::{
    Styling, CODimension, COAlignItems, COJustifyContent, COFlexDirection, dimension_of,
    try_parse_dimension,
};
use crate::color::{color_of, css_color_of, try_parse_color};
use crate::text::str_eq;

verus! {

/// What a node is; each kind renders and behaves differently.
#[derive(Debug)]
pub enum CapsuleObjectKind {
    /// The root of the tree: lays out its children, draws nothing.
    View,
    /// A box that draws a rectangle in its colour.
    Obj,
    /// A run of text.
    Text(String),
    /// Script source; draws nothing.
    Script(String),
}

/// A node's rectangle in absolute document coordinates, in thousandths of a
/// pixel.
#[derive(Clone, Copy, PartialEq, Eq, Debug, Structural)]
pub struct ComputedStyling {
    pub x: i64,
    pub y: i64,
    pub width: i64,
    pub height: i64,
}

impl ComputedStyling {
    pub fn zero() -> (r: Self)
        ensures
            r == (ComputedStyling { x: 0, y: 0, width: 0, height: 0 }),
    {
        ComputedStyling { x: 0, y: 0, width: 0, height: 0 }
    }
}

/// One node of the tree.
pub struct CapsuleObjectBase {
    pub kind: CapsuleObjectKind,
    pub id: Option<String>,
    pub parent: Option<usize>,
    pub children: ChildList,
    pub events: Vec<CapsuleObjectEvent>,
    pub style: Styling,
    pub computed_style: ComputedStyling,
}

/// What a new node is made of.
pub struct CapsuleObjectCreationContext {
    pub kind: CapsuleObjectKind,
    pub id: Option<String>,
    pub events: Vec<CapsuleObjectEvent>,
    pub style: Styling,
}

impl CapsuleObjectCreationContext {
    pub fn new(
        kind: CapsuleObjectKind,
        events: Vec<CapsuleObjectEvent>,
        style: Styling,
        id: Option<String>,
    ) -> (r: Self)
        ensures
            r == (CapsuleObjectCreationContext { kind, id, events, style }),
    {
        CapsuleObjectCreationContext { kind, id, events, style }
    }
}

/// The tree's shape holds together: node 0 is the root view; every other node
/// has a parent with a smaller index and is listed once among that parent's
/// children; every listed child names that node as its parent.
pub open spec fn tree_wf(nodes: Seq<CapsuleObjectBase>) -> bool {
    &&& nodes.len() >= 1
    &&& nodes.len() < usize::MAX
    &&& nodes[0].parent is None
    &&& nodes[0].kind is View
    &&& forall|i: int|
        0 < i < nodes.len() ==> (#[trigger] nodes[i].parent matches Some(p) && p < i
            && nodes[p as int].children@.contains(i as usize))
    &&& forall|i: int|
        0 <= i < nodes.len() ==> (#[trigger] nodes[i].children@).no_duplicates()
    &&& forall|i: int, k: int|
        0 <= i < nodes.len() && 0 <= k < nodes[i].children@.len() ==> {
            let c = #[trigger] nodes[i].children@[k];
            &&& (c as int) < nodes.len()
            &&& nodes[c as int].parent == Some(i as usize)
        }
}

/// The nodes of the subtree at `i`, in pre-order: the node, then the subtree
/// of each child in turn.
pub open spec fn preorder_node(nodes: Seq<CapsuleObjectBase>, i: int) -> Seq<usize>
    decreases nodes.len() - i + 1, 0int,
{
    if 0 <= i < nodes.len() {
        seq![i as usize] + preorder_list(nodes, nodes[i].children@, i)
    } else {
        Seq::empty()
    }
}

/// The subtrees of the nodes in `list`, one after the other, in pre-order;
/// entries that cannot be children of node `above` are passed over.
pub open spec fn preorder_list(nodes: Seq<CapsuleObjectBase>, list: Seq<usize>, above: int) -> Seq<
    usize,
>
    decreases nodes.len() - above, list.len(),
{
    if list.len() == 0 {
        Seq::empty()
    } else if above < list.last() < nodes.len() {
        preorder_list(nodes, list.drop_last(), above) + preorder_node(nodes, list.last() as int)
    } else {
        preorder_list(nodes, list.drop_last(), above)
    }
}

/// Node `j` lies in the subtree of node `a`.
pub open spec fn is_desc(nodes: Seq<CapsuleObjectBase>, j: int, a: int) -> bool
    decreases j,
{
    if j == a {
        true
    } else if a < j < nodes.len() {
        match nodes[j].parent {
            Some(p) => if (p as int) < j {
                is_desc(nodes, p as int, a)
            } else {
                false
            },
            None => false,
        }
    } else {
        false
    }
}

proof fn lemma_desc_ge(nodes: Seq<CapsuleObjectBase>, j: int, a: int)
    requires
        is_desc(nodes, j, a),
    ensures
        j >= a,
{
}

/// A node below a child of `a` lies below `a`.
proof fn lemma_desc_through_parent(nodes: Seq<CapsuleObjectBase>, x: int, c: int, a: int)
    requires
        is_desc(nodes, x, c),
        0 <= a < c < nodes.len(),
        nodes.len() < usize::MAX,
        nodes[c].parent == Some(a as usize),
    ensures
        is_desc(nodes, x, a),
    decreases x,
{
    lemma_desc_ge(nodes, x, c);
    if x != c {
        let p = nodes[x].parent->Some_0;
        lemma_desc_ge(nodes, p as int, c);
        lemma_desc_through_parent(nodes, p as int, c, a);
        assert(is_desc(nodes, x, a));
    } else {
        assert(is_desc(nodes, a, a));
    }
}

/// The subtrees of two different children of one node share no node.
proof fn lemma_siblings_disjoint(nodes: Seq<CapsuleObjectBase>, x: int, c1: int, c2: int)
    requires
        tree_wf(nodes),
        0 <= c1 < nodes.len(),
        0 <= c2 < nodes.len(),
        c1 != c2,
        nodes[c1].parent is Some,
        nodes[c1].parent == nodes[c2].parent,
    ensures
        !(is_desc(nodes, x, c1) && is_desc(nodes, x, c2)),
    decreases x,
{
    if !(is_desc(nodes, x, c1) && is_desc(nodes, x, c2)) {
        return;
    }
    let a = nodes[c1].parent->Some_0 as int;
    lemma_desc_ge(nodes, x, c1);
    lemma_desc_ge(nodes, x, c2);
    if c1 > 0 {
        assert(a < c1);
    }
    if c2 > 0 {
        assert(a < c2);
    }
    if x == c1 {
        let p = nodes[c1].parent->Some_0;
        lemma_desc_ge(nodes, p as int, c2);
    } else if x == c2 {
        let p = nodes[c2].parent->Some_0;
        lemma_desc_ge(nodes, p as int, c1);
    } else {
        let p = nodes[x].parent->Some_0;
        lemma_siblings_disjoint(nodes, p as int, c1, c2);
    }
}

/// Every node of a subtree's walk lies in that subtree.
proof fn lemma_preorder_node_desc(nodes: Seq<CapsuleObjectBase>, i: int, x: usize)
    requires
        tree_wf(nodes),
        0 <= i < nodes.len(),
        preorder_node(nodes, i).contains(x),
    ensures
        is_desc(nodes, x as int, i),
        i <= x < nodes.len(),
    decreases nodes.len() - i + 1, 0int,
{
    let rest = preorder_list(nodes, nodes[i].children@, i);
    let k = choose|k: int| 0 <= k < preorder_node(nodes, i).len() && preorder_node(nodes, i)[k] == x;
    if k > 0 {
        assert(rest[k - 1] == x);
        lemma_preorder_list_desc(nodes, nodes[i].children@, i, x);
        let c = choose|c: int| 0 <= c < nodes[i].children@.len() && i < nodes[i].children@[c]
            && is_desc(nodes, x as int, nodes[i].children@[c] as int);
        let cc = nodes[i].children@[c];
        lemma_desc_through_parent(nodes, x as int, cc as int, i);
        lemma_desc_ge(nodes, x as int, cc as int);
    }
}

proof fn lemma_preorder_list_desc(
    nodes: Seq<CapsuleObjectBase>,
    list: Seq<usize>,
    above: int,
    x: usize,
)
    requires
        tree_wf(nodes),
        0 <= above < nodes.len(),
        preorder_list(nodes, list, above).contains(x),
    ensures
        exists|c: int|
            0 <= c < list.len() && above < list[c] && is_desc(nodes, x as int, #[trigger] list[c] as int),
        x < nodes.len(),
    decreases nodes.len() - above, list.len(),
{
    let dl = list.drop_last();
    let front = preorder_list(nodes, dl, above);
    let whole = preorder_list(nodes, list, above);
    let k = choose|k: int| 0 <= k < whole.len() && whole[k] == x;
    if above < list.last() < nodes.len() && k >= front.len() {
        let last = list.last() as int;
        assert(preorder_node(nodes, last)[k - front.len()] == x);
        lemma_preorder_node_desc(nodes, last, x);
        assert(list[list.len() - 1] == list.last());
    } else {
        assert(front[k] == x);
        lemma_preorder_list_desc(nodes, dl, above, x);
        let c = choose|c: int| 0 <= c < dl.len() && above < dl[c] && is_desc(nodes, x as int, #[trigger] dl[c] as int);
        assert(list[c] == dl[c]);
    }
}

proof fn lemma_concat_no_duplicates(a: Seq<usize>, b: Seq<usize>)
    requires
        a.no_duplicates(),
        b.no_duplicates(),
        forall|x: usize| a.contains(x) ==> !b.contains(x),
    ensures
        (a + b).no_duplicates(),
{
    let s = a + b;
    assert forall|i: int, j: int| 0 <= i < s.len() && 0 <= j < s.len() && i != j implies s[i] != s[j] by {
        if i < a.len() && j >= a.len() {
            assert(a.contains(s[i]));
            assert(b[j - a.len()] == s[j]);
        } else if j < a.len() && i >= a.len() {
            assert(a.contains(s[j]));
            assert(b[i - a.len()] == s[i]);
        } else if i >= a.len() {
            assert(b[i - a.len()] == s[i]);
            assert(b[j - a.len()] == s[j]);
        }
    }
}

/// A subtree's walk meets no node twice.
proof fn lemma_preorder_node_unique(nodes: Seq<CapsuleObjectBase>, i: int)
    requires
        tree_wf(nodes),
        0 <= i < nodes.len(),
    ensures
        preorder_node(nodes, i).no_duplicates(),
    decreases nodes.len() - i + 1, 0int,
{
    let kids = nodes[i].children@;
    assert forall|k: int| 0 <= k < kids.len() implies nodes[#[trigger] kids[k] as int].parent == Some(i as usize) by {}
    lemma_preorder_list_unique(nodes, kids, i);
    let rest = preorder_list(nodes, kids, i);
    assert forall|x: usize| seq![i as usize].contains(x) implies !rest.contains(x) by {
        if rest.contains(x) {
            assert(seq![i as usize][0] == x);
            lemma_preorder_list_desc(nodes, kids, i, x);
            let c = choose|c: int| 0 <= c < kids.len() && i < kids[c] && is_desc(nodes, x as int, #[trigger] kids[c] as int);
            lemma_desc_ge(nodes, x as int, kids[c] as int);
        }
    }
    lemma_concat_no_duplicates(seq![i as usize], rest);
}

proof fn lemma_preorder_list_unique(nodes: Seq<CapsuleObjectBase>, list: Seq<usize>, above: int)
    requires
        tree_wf(nodes),
        0 <= above < nodes.len(),
        list.no_duplicates(),
        forall|k: int| 0 <= k < list.len() ==> nodes[#[trigger] list[k] as int].parent == Some(above as usize),
        forall|k: int| 0 <= k < list.len() ==> (#[trigger] list[k] as int) < nodes.len(),
    ensures
        preorder_list(nodes, list, above).no_duplicates(),
    decreases nodes.len() - above, list.len(),
{
    if list.len() > 0 {
        let dl = list.drop_last();
        let c = list.last();
        assert(list[list.len() - 1] == c);
        assert forall|k: int| 0 <= k < dl.len() implies nodes[#[trigger] dl[k] as int].parent == Some(above as usize) by {
            assert(dl[k] == list[k]);
        }
        assert forall|k: int| 0 <= k < dl.len() implies (#[trigger] dl[k] as int) < nodes.len() by {
            assert(dl[k] == list[k]);
        }
        lemma_preorder_list_unique(nodes, dl, above);
        if c > 0 {
            assert(above < c);
        }
        if c == 0 {
            assert(nodes[0].parent is None);
        }
        lemma_preorder_node_unique(nodes, c as int);
        let front = preorder_list(nodes, dl, above);
        let back = preorder_node(nodes, c as int);
        assert forall|x: usize| front.contains(x) implies !back.contains(x) by {
            if back.contains(x) {
                lemma_preorder_list_desc(nodes, dl, above, x);
                let k = choose|k: int| 0 <= k < dl.len() && above < dl[k] && is_desc(nodes, x as int, #[trigger] dl[k] as int);
                lemma_preorder_node_desc(nodes, c as int, x);
                assert(dl[k] == list[k]);
                assert(dl[k] != c);
                lemma_siblings_disjoint(nodes, x as int, dl[k] as int, c as int);
            }
        }
        lemma_concat_no_duplicates(front, back);
    }
}

/// A child's subtree walk is part of the walk of its parent's child list.
proof fn lemma_preorder_list_covers(nodes: Seq<CapsuleObjectBase>, list: Seq<usize>, above: int, k: int, x: usize)
    requires
        0 <= k < list.len(),
        above < list[k] < nodes.len(),
        preorder_node(nodes, list[k] as int).contains(x),
    ensures
        preorder_list(nodes, list, above).contains(x),
    decreases list.len(),
{
    let dl = list.drop_last();
    let front = preorder_list(nodes, dl, above);
    if k == list.len() - 1 {
        let back = preorder_node(nodes, list[k] as int);
        let q = choose|q: int| 0 <= q < back.len() && back[q] == x;
        assert((front + back)[front.len() + q] == x);
    } else {
        assert(dl[k] == list[k]);
        lemma_preorder_list_covers(nodes, dl, above, k, x);
        let q = choose|q: int| 0 <= q < front.len() && front[q] == x;
        if above < list.last() < nodes.len() {
            assert((front + preorder_node(nodes, list.last() as int))[q] == x);
        }
    }
}

/// Every node has a chain of parents that ends at the root.
proof fn lemma_desc_of_root(nodes: Seq<CapsuleObjectBase>, j: int)
    requires
        tree_wf(nodes),
        0 <= j < nodes.len(),
    ensures
        is_desc(nodes, j, 0),
    decreases j,
{
    if j > 0 {
        let p = nodes[j].parent->Some_0;
        lemma_desc_of_root(nodes, p as int);
    }
}

/// The child of `a` on the way up from `j`.
proof fn lemma_child_toward(nodes: Seq<CapsuleObjectBase>, j: int, a: int) -> (c: int)
    requires
        tree_wf(nodes),
        is_desc(nodes, j, a),
        j != a,
    ensures
        a < c <= j,
        nodes[c].parent == Some(a as usize),
        is_desc(nodes, j, c),
    decreases j,
{
    let p = nodes[j].parent->Some_0 as int;
    if p == a {
        j
    } else {
        let c = lemma_child_toward(nodes, p, a);
        lemma_desc_ge(nodes, p, c);
        c
    }
}

/// A subtree's walk meets every node of the subtree.
proof fn lemma_preorder_complete(nodes: Seq<CapsuleObjectBase>, i: int, j: int)
    requires
        tree_wf(nodes),
        0 <= i <= j < nodes.len(),
        is_desc(nodes, j, i),
    ensures
        preorder_node(nodes, i).contains(j as usize),
    decreases j - i,
{
    if j == i {
        assert(preorder_node(nodes, i)[0] == j as usize);
    } else {
        let c = lemma_child_toward(nodes, j, i);
        lemma_preorder_complete(nodes, c, j);
        let kids = nodes[i].children@;
        assert(nodes[c].parent matches Some(p) && p < c && nodes[p as int].children@.contains(c as usize));
        let k = choose|k: int| 0 <= k < kids.len() && kids[k] == c as usize;
        lemma_preorder_list_covers(nodes, kids, i, k, j as usize);
        let rest = preorder_list(nodes, kids, i);
        let q = choose|q: int| 0 <= q < rest.len() && rest[q] == j as usize;
        assert(preorder_node(nodes, i)[q + 1] == j as usize);
    }
}

/// Walking a well-formed tree from its root meets each of its nodes exactly
/// once, and nothing else.
pub proof fn lemma_preorder_visits_each_node_once(t: SceneTree)
    requires
        t.wf(),
    ensures
        preorder_node(t@, 0).no_duplicates(),
        forall|j: usize| j < t@.len() ==> #[trigger] preorder_node(t@, 0).contains(j),
        forall|q: int| 0 <= q < preorder_node(t@, 0).len() ==> (#[trigger] preorder_node(t@, 0)[q] as int) < t@.len(),
{
    let nodes = t@;
    lemma_preorder_node_unique(nodes, 0);
    assert forall|j: usize| j < nodes.len() implies #[trigger] preorder_node(nodes, 0).contains(j) by {
        lemma_desc_of_root(nodes, j as int);
        lemma_preorder_complete(nodes, 0, j as int);
    }
    assert forall|q: int| 0 <= q < preorder_node(nodes, 0).len() implies (#[trigger] preorder_node(nodes, 0)[q] as int) < nodes.len() by {
        lemma_preorder_node_desc(nodes, 0, preorder_node(nodes, 0)[q]);
    }
}

/// `b` is `a` with one node added as the last child of `p`.
pub open spec fn grown_by_one(a: Seq<CapsuleObjectBase>, b: Seq<CapsuleObjectBase>, p: int) -> bool {
    &&& tree_wf(a)
    &&& tree_wf(b)
    &&& b.len() == a.len() + 1
    &&& 0 <= p < a.len()
    &&& forall|i: int| 0 <= i < a.len() && i != p ==> #[trigger] b[i].children@ == a[i].children@
    &&& b[p].children@ == a[p].children@.push(a.len() as usize)
    &&& b[a.len() as int].children@ == Seq::<usize>::empty()
}

pub open spec fn below(n: int) -> spec_fn(usize) -> bool {
    |x: usize| (x as int) < n
}

proof fn lemma_grown_node(a: Seq<CapsuleObjectBase>, b: Seq<CapsuleObjectBase>, p: int, i: int)
    requires
        grown_by_one(a, b, p),
        0 <= i < a.len(),
    ensures
        preorder_node(b, i).filter(below(a.len() as int)) == preorder_node(a, i),
    decreases a.len() - i + 1, 0int,
{
    let f = below(a.len() as int);
    reveal_with_fuel(Seq::<usize>::filter, 2);
    let ka = a[i].children@;
    assert forall|k: int| 0 <= k < ka.len() implies (#[trigger] ka[k] as int) < a.len() by {}
    Seq::filter_distributes_over_add(seq![i as usize], preorder_list(b, b[i].children@, i), f);
    assert(seq![i as usize].filter(f) == seq![i as usize]) by {
        assert(seq![i as usize].drop_last() == Seq::<usize>::empty());
    }
    if i != p {
        lemma_grown_list(a, b, p, ka, i);
    } else {
        let c = a.len() as usize;
        let kb = b[i].children@;
        assert(kb.drop_last() == ka);
        assert(kb.last() == c);
        lemma_grown_list(a, b, p, ka, i);
        let tail = preorder_node(b, c as int);
        assert(preorder_list(b, Seq::<usize>::empty(), c as int) == Seq::<usize>::empty());
        assert(tail == seq![c]);
        assert(tail.filter(f) == Seq::<usize>::empty()) by {
            assert(tail.drop_last() == Seq::<usize>::empty());
        }
        Seq::filter_distributes_over_add(preorder_list(b, ka, i), tail, f);
    }
}

proof fn lemma_grown_list(
    a: Seq<CapsuleObjectBase>,
    b: Seq<CapsuleObjectBase>,
    p: int,
    list: Seq<usize>,
    above: int,
)
    requires
        grown_by_one(a, b, p),
        0 <= above < a.len(),
        forall|k: int| 0 <= k < list.len() ==> (#[trigger] list[k] as int) < a.len(),
    ensures
        preorder_list(b, list, above).filter(below(a.len() as int)) == preorder_list(a, list, above),
    decreases a.len() - above, list.len(),
{
    let f = below(a.len() as int);
    if list.len() == 0 {
        reveal_with_fuel(Seq::<usize>::filter, 1);
    } else {
        let dl = list.drop_last();
        let last = list.last();
        assert(list[list.len() - 1] == last);
        assert forall|k: int| 0 <= k < dl.len() implies (#[trigger] dl[k] as int) < a.len() by {
            assert(dl[k] == list[k]);
        }
        lemma_grown_list(a, b, p, dl, above);
        if above < last {
            lemma_grown_node(a, b, p, last as int);
            Seq::filter_distributes_over_add(preorder_list(b, dl, above), preorder_node(b, last as int), f);
        }
    }
}

/// Adding a node keeps the walk of the nodes that were there: the walk of the
/// grown tree, with the new node left out, is the walk of the tree before.
pub proof fn lemma_append_keeps_walk(before: SceneTree, after: SceneTree, parent: usize)
    requires
        before.wf(),
        after.wf(),
        after@.len() == before@.len() + 1,
        parent < before@.len(),
        forall|i: int|
            0 <= i < before@.len() && i != parent ==> #[trigger] after@[i].children@ == before@[i].children@,
        after@[parent as int].children@ == before@[parent as int].children@.push(before@.len() as usize),
        after@[before@.len() as int].children@ == Seq::<usize>::empty(),
    ensures
        preorder_node(after@, 0).filter(below(before@.len() as int)) == preorder_node(before@, 0),
{
    lemma_grown_node(before@, after@, parent as int, 0);
}

/// A node with its dirty flag cleared.
pub open spec fn node_cleaned(n: CapsuleObjectBase) -> CapsuleObjectBase {
    CapsuleObjectBase { style: Styling { dirty: false, ..n.style }, ..n }
}

/// The nodes whose dirty flag is set.
pub open spec fn dirty_set(nodes: Seq<CapsuleObjectBase>) -> Set<int> {
    Set::new(|j: int| 0 <= j < nodes.len() && nodes[j].style.dirty)
}

/// A change to node `i` that marks it dirty adds `i`, and only `i`, to the
/// dirty nodes; so from a clean tree, any run of such changes leaves exactly
/// the changed nodes dirty.
pub proof fn lemma_mark_adds_node(
    before: Seq<CapsuleObjectBase>,
    after: Seq<CapsuleObjectBase>,
    i: int,
    node: CapsuleObjectBase,
)
    requires
        0 <= i < before.len(),
        replaced_at(before, after, i, node),
        node.style.dirty,
    ensures
        dirty_set(after) == dirty_set(before).insert(i),
{
    assert(dirty_set(after) =~= dirty_set(before).insert(i));
}

/// A scan reports a change exactly when some node is dirty, and leaves no
/// node dirty; so a second scan with no change in between reports nothing and
/// changes nothing.
pub proof fn lemma_dirty_round_trip(before: Seq<CapsuleObjectBase>, after: Seq<CapsuleObjectBase>)
    requires
        after.len() == before.len(),
        forall|i: int| 0 <= i < before.len() ==> #[trigger] after[i] == node_cleaned(before[i]),
    ensures
        (exists|i: int| 0 <= i < before.len() && (#[trigger] before[i]).style.dirty) <==> !dirty_set(
            before,
        ).is_empty(),
        dirty_set(after).is_empty(),
        !exists|i: int| 0 <= i < after.len() && (#[trigger] after[i]).style.dirty,
        forall|i: int| 0 <= i < after.len() ==> #[trigger] node_cleaned(after[i]) == after[i],
{
    assert(dirty_set(after) =~= Set::<int>::empty());
    if exists|i: int| 0 <= i < before.len() && (#[trigger] before[i]).style.dirty {
        let i = choose|i: int| 0 <= i < before.len() && (#[trigger] before[i]).style.dirty;
        assert(dirty_set(before).contains(i));
    }
    if !dirty_set(before).is_empty() {
        let i = dirty_set(before).choose();
        assert(dirty_set(before).contains(i));
        assert(before[i].style.dirty);
    }
}

/// Two arenas with the same kinds, parents and children are well formed
/// together.
proof fn lemma_same_shape_wf(a: Seq<CapsuleObjectBase>, b: Seq<CapsuleObjectBase>)
    requires
        tree_wf(a),
        a.len() == b.len(),
        forall|i: int| 0 <= i < a.len() ==> #[trigger] b[i].children@ == a[i].children@,
        forall|i: int| 0 <= i < a.len() ==> #[trigger] b[i].parent == a[i].parent,
        b[0].kind is View,
    ensures
        tree_wf(b),
{
    assert forall|i: int| 0 < i < b.len() implies (#[trigger] b[i].parent matches Some(p) && p < i
        && b[p as int].children@.contains(i as usize)) by {
        assert(a[i].parent matches Some(p) && p < i);
        let p = a[i].parent->Some_0;
        assert(b[p as int].children@ == a[p as int].children@);
    }
    assert forall|i: int| 0 <= i < b.len() implies (#[trigger] b[i].children@).no_duplicates() by {
        assert(b[i].children@ == a[i].children@);
    }
    assert forall|i: int, k: int| 0 <= i < b.len() && 0 <= k < b[i].children@.len() implies {
        let c = #[trigger] b[i].children@[k];
        &&& (c as int) < b.len()
        &&& b[c as int].parent == Some(i as usize)
    } by {
        assert(b[i].children@ == a[i].children@);
        let c = a[i].children@[k];
        assert(b[c as int].parent == a[c as int].parent);
    }
}

/// `b` is `a` but for node `i`, which is `node`.
pub open spec fn replaced_at(
    a: Seq<CapsuleObjectBase>,
    b: Seq<CapsuleObjectBase>,
    i: int,
    node: CapsuleObjectBase,
) -> bool {
    &&& b.len() == a.len()
    &&& b[i] == node
    &&& forall|j: int| 0 <= j < a.len() && j != i ==> #[trigger] b[j] == a[j]
}

/// A style field that scripts read and write as text.
#[derive(Clone, Copy, PartialEq, Eq, Debug, Structural)]
pub enum StyleField {
    Width,
    Height,
    Align,
    Justify,
    FlexDir,
    Color,
}

/// A script handed a style field a value that it does not name.
#[derive(Clone, Copy, PartialEq, Eq, Debug, Structural)]
pub enum StyleError {
    BadAlign,
    BadJustify,
    BadFlexDir,
}

/// The style after a script writes `value` into `field`: a size or colour
/// that cannot be read clears the field; an unknown name is refused.
pub open spec fn style_after_write(s: Styling, field: StyleField, value: Seq<char>) -> Result<
    Styling,
    StyleError,
> {
    match field {
        StyleField::Width => Ok(Styling { width: dimension_of(value), dirty: true, ..s }),
        StyleField::Height => Ok(Styling { height: dimension_of(value), dirty: true, ..s }),
        StyleField::Color => Ok(
            Styling { color: color_of(css_color_of(value), value), dirty: true, ..s },
        ),
        StyleField::Align => match COAlignItems::named(value) {
            Some(a) => Ok(Styling { align: a, dirty: true, ..s }),
            None => Err(StyleError::BadAlign),
        },
        StyleField::Justify => match COJustifyContent::named(value) {
            Some(a) => Ok(Styling { justify: a, dirty: true, ..s }),
            None => Err(StyleError::BadJustify),
        },
        StyleField::FlexDir => match COFlexDirection::named(value) {
            Some(a) => Ok(Styling { flexdir: a, dirty: true, ..s }),
            None => Err(StyleError::BadFlexDir),
        },
    }
}

pub open spec fn has_id(n: CapsuleObjectBase, id: Seq<char>) -> bool {
    n.id matches Some(s) && s@ == id
}

/// The scene tree.
pub struct SceneTree {
    nodes: Vec<CapsuleObjectBase>,
}

impl View for SceneTree {
    type V = Seq<CapsuleObjectBase>;

    closed spec fn view(&self) -> Seq<CapsuleObjectBase> {
        self.nodes@
    }
}

impl SceneTree {
    pub open spec fn wf(&self) -> bool {
        tree_wf(self@)
    }

    /// A tree that holds the root view alone, with a default style.
    pub fn new() -> (r: SceneTree)
        ensures
            r.wf(),
            r@.len() == 1,
            r@[0].children@ == Seq::<usize>::empty(),
            r@[0].style == Styling::spec_default(),
            r@[0].id is None,
            r@[0].events@ == Seq::<CapsuleObjectEvent>::empty(),
            r@[0].computed_style == (ComputedStyling { x: 0, y: 0, width: 0, height: 0 }),
    {
        let root = CapsuleObjectBase {
            kind: CapsuleObjectKind::View,
            id: None,
            parent: None,
            children: ChildList::new(),
            events: Vec::new(),
            style: Styling::default(),
            computed_style: ComputedStyling::zero(),
        };
        let mut nodes = Vec::new();
        nodes.push(root);
        SceneTree { nodes }
    }

    /// Appends the subtree at `i` to `out`, in pre-order.
    fn preorder_into(&self, i: usize, out: &mut Vec<usize>)
        requires
            self.wf(),
            i < self@.len(),
        ensures
            final(out)@ == old(out)@ + preorder_node(self@, i as int),
        decreases self@.len() - i,
    {
        out.push(i);
        let kids = self.nodes[i].children.to_vec();
        let mut k: usize = 0;
        while k < kids.len()
            invariant
                self.wf(),
                i < self@.len(),
                kids@ == self@[i as int].children@,
                k <= kids@.len(),
                out@ == old(out)@ + seq![i] + preorder_list(self@, kids@.take(k as int), i as int),
            decreases kids@.len() - k,
        {
            let c = kids[k];
            assert(self@[c as int].parent == Some(i));
            assert(kids@.take(k + 1).drop_last() == kids@.take(k as int));
            self.preorder_into(c, out);
            k = k + 1;
        }
        assert(kids@.take(k as int) == kids@);
    }

    /// Every node of the tree, in pre-order from the root. The tree is taken
    /// as it is when the call starts: it cannot change during the walk.
    pub fn preorder(&self) -> (r: Vec<usize>)
        requires
            self.wf(),
        ensures
            r@ == preorder_node(self@, 0),
    {
        let mut out = Vec::new();
        self.preorder_into(0, &mut out);
        assert(out@ == Seq::<usize>::empty() + preorder_node(self@, 0));
        out
    }

    /// A copy of the indices of node `i`'s children, in order.
    pub fn children_vec(&self, i: usize) -> (r: Vec<usize>)
        requires
            i < self@.len(),
        ensures
            r@ == self@[i as int].children@,
    {
        self.nodes[i].children.to_vec()
    }

    pub fn node(&self, i: usize) -> (r: &CapsuleObjectBase)
        requires
            i < self@.len(),
        ensures
            *r == self@[i as int],
    {
        &self.nodes[i]
    }

    /// Reads and clears every node's dirty flag; `true` where any was set.
    /// Nothing else changes.
    pub fn scan_and_clear_dirty(&mut self) -> (r: bool)
        requires
            old(self).wf(),
        ensures
            final(self).wf(),
            r == exists|i: int| 0 <= i < old(self)@.len() && (#[trigger] old(self)@[i]).style.dirty,
            final(self)@.len() == old(self)@.len(),
            forall|i: int|
                0 <= i < old(self)@.len() ==> #[trigger] final(self)@[i] == node_cleaned(old(self)@[i]),
    {
        let n = self.nodes.len();
        let mut any = false;
        let mut i: usize = 0;
        while i < n
            invariant
                n == old(self)@.len(),
                self@.len() == n,
                i <= n,
                any == exists|j: int| 0 <= j < i && (#[trigger] old(self)@[j]).style.dirty,
                forall|j: int| 0 <= j < i ==> #[trigger] self@[j] == node_cleaned(old(self)@[j]),
                forall|j: int| i <= j < n ==> #[trigger] self@[j] == old(self)@[j],
            decreases n - i,
        {
            if self.nodes[i].style.dirty {
                any = true;
                self.nodes[i].style.dirty = false;
            }
            assert(self@[i as int] == node_cleaned(old(self)@[i as int]));
            i = i + 1;
        }
        proof {
            assert forall|j: int| 0 <= j < n implies #[trigger] self@[j].children@ == old(self)@[j].children@ by {
                assert(self@[j] == node_cleaned(old(self)@[j]));
            }
            lemma_same_shape_wf(old(self)@, self@);
        }
        any
    }

    /// Puts `style` into node `i`; nothing else changes.
    fn put_style(&mut self, i: usize, style: Styling)
        requires
            old(self).wf(),
            i < old(self)@.len(),
        ensures
            final(self).wf(),
            replaced_at(
                old(self)@,
                final(self)@,
                i as int,
                CapsuleObjectBase { style, ..old(self)@[i as int] },
            ),
    {
        self.nodes[i].style = style;
        proof {
            assert forall|j: int| 0 <= j < self@.len() implies #[trigger] self@[j].children@
                == old(self)@[j].children@ by {
                if j == i {
                    assert(self@[j].children == old(self)@[j].children);
                }
            }
            lemma_same_shape_wf(old(self)@, self@);
        }
    }

    /// The style of node `i` after a script writes `value` into `field`, as
    /// `style_after_write` says; on an error the tree is unchanged.
    pub fn set_style_text(&mut self, i: usize, field: StyleField, value: &str) -> (r: Result<
        (),
        StyleError,
    >)
        requires
            old(self).wf(),
            i < old(self)@.len(),
        ensures
            final(self).wf(),
            match style_after_write(old(self)@[i as int].style, field, value@) {
                Ok(s) => r is Ok && replaced_at(
                    old(self)@,
                    final(self)@,
                    i as int,
                    CapsuleObjectBase { style: s, ..old(self)@[i as int] },
                ),
                Err(e) => r == Err::<(), StyleError>(e) && final(self)@ == old(self)@,
            },
    {
        let mut style = self.nodes[i].style;
        match field {
            StyleField::Width => style.set_width(try_parse_dimension(value)),
            StyleField::Height => style.set_height(try_parse_dimension(value)),
            StyleField::Color => style.set_color(try_parse_color(value)),
            StyleField::Align => match COAlignItems::from_name(value) {
                Some(a) => style.set_align(a),
                None => {
                    return Err(StyleError::BadAlign);
                },
            },
            StyleField::Justify => match COJustifyContent::from_name(value) {
                Some(a) => style.set_justify(a),
                None => {
                    return Err(StyleError::BadJustify);
                },
            },
            StyleField::FlexDir => match COFlexDirection::from_name(value) {
                Some(a) => style.set_flexdir(a),
                None => {
                    return Err(StyleError::BadFlexDir);
                },
            },
        }
        self.put_style(i, style);
        Ok(())
    }

    /// Sets node `i`'s font size and marks it dirty.
    pub fn set_font_size(&mut self, i: usize, size: u16)
        requires
            old(self).wf(),
            i < old(self)@.len(),
        ensures
            final(self).wf(),
            replaced_at(
                old(self)@,
                final(self)@,
                i as int,
                CapsuleObjectBase {
                    style: Styling { font_size: size, dirty: true, ..old(self)@[i as int].style },
                    ..old(self)@[i as int]
                },
            ),
    {
        let mut style = self.nodes[i].style;
        style.set_font_size(size);
        self.put_style(i, style);
    }

    /// Gives node `i` the size that its content measures where its style sets
    /// none, marking it dirty where it changes.
    pub fn set_default_size(&mut self, i: usize, width: i64, height: i64)
        requires
            old(self).wf(),
            i < old(self)@.len(),
        ensures
            final(self).wf(),
            ({
                let s = old(self)@[i as int].style;
                if s.width is None || s.height is None {
                    replaced_at(
                        old(self)@,
                        final(self)@,
                        i as int,
                        CapsuleObjectBase {
                            style: Styling {
                                width: if s.width is None { Some(CODimension::Points(width)) } else { s.width },
                                height: if s.height is None { Some(CODimension::Points(height)) } else { s.height },
                                dirty: true,
                                ..s
                            },
                            ..old(self)@[i as int]
                        },
                    )
                } else {
                    final(self)@ == old(self)@
                }
            }),
    {
        let mut style = self.nodes[i].style;
        if style.width.is_none() || style.height.is_none() {
            if style.width.is_none() {
                style.set_width(Some(CODimension::Points(width)));
            }
            if style.height.is_none() {
                style.set_height(Some(CODimension::Points(height)));
            }
            self.put_style(i, style);
        }
    }

    /// The text of node `i` where it is a text node.
    pub fn text(&self, i: usize) -> (r: Option<String>)
        requires
            i < self@.len(),
        ensures
            match self@[i as int].kind {
                CapsuleObjectKind::Text(t) => r matches Some(s) && s@ == t@,
                _ => r is None,
            },
    {
        match &self.nodes[i].kind {
            CapsuleObjectKind::Text(t) => Some(t.clone()),
            _ => None,
        }
    }

    /// Replaces the content of text node `i` and marks it dirty, so that the
    /// next scan lays the tree out again. `false`, with nothing changed, where
    /// node `i` is not a text node.
    pub fn set_text(&mut self, i: usize, text: String) -> (r: bool)
        requires
            old(self).wf(),
            i < old(self)@.len(),
        ensures
            final(self).wf(),
            r == (old(self)@[i as int].kind is Text),
            r ==> replaced_at(
                old(self)@,
                final(self)@,
                i as int,
                CapsuleObjectBase {
                    kind: CapsuleObjectKind::Text(text),
                    style: Styling { dirty: true, ..old(self)@[i as int].style },
                    ..old(self)@[i as int]
                },
            ),
            !r ==> final(self)@ == old(self)@,
    {
        if let CapsuleObjectKind::Text(_) = &self.nodes[i].kind {
            self.nodes[i].kind = CapsuleObjectKind::Text(text);
            self.nodes[i].style.dirty = true;
            proof {
                assert forall|j: int| 0 <= j < self@.len() implies #[trigger] self@[j].children@
                    == old(self)@[j].children@ by {
                    if j == i {
                        assert(self@[j].children == old(self)@[j].children);
                    }
                }
                lemma_same_shape_wf(old(self)@, self@);
            }
            true
        } else {
            false
        }
    }

    /// Gives node `i` the identifier `id`.
    pub fn set_id(&mut self, i: usize, id: Option<String>)
        requires
            old(self).wf(),
            i < old(self)@.len(),
        ensures
            final(self).wf(),
            replaced_at(old(self)@, final(self)@, i as int, CapsuleObjectBase { id, ..old(self)@[i as int] }),
    {
        self.nodes[i].id = id;
        proof {
            assert forall|j: int| 0 <= j < self@.len() implies #[trigger] self@[j].children@
                == old(self)@[j].children@ by {
                if j == i {
                    assert(self@[j].children == old(self)@[j].children);
                }
            }
            lemma_same_shape_wf(old(self)@, self@);
        }
    }

    /// The first node in pre-order whose identifier is `id`.
    pub fn find_element(&self, id: &str) -> (r: Option<usize>)
        requires
            self.wf(),
        ensures
            ({
                let order = preorder_node(self@, 0);
                &&& r is None ==> forall|p: int| 0 <= p < order.len() ==> !has_id(self@[order[p] as int], id@)
                &&& r matches Some(k) ==> exists|p: int| {
                    &&& 0 <= p < order.len()
                    &&& order[p] == k
                    &&& has_id(self@[k as int], id@)
                    &&& forall|q: int| 0 <= q < p ==> !has_id(self@[order[q] as int], id@)
                }
            }),
    {
        let order = self.preorder();
        proof {
            lemma_preorder_visits_each_node_once(*self);
        }
        let mut p: usize = 0;
        while p < order.len()
            invariant
                self.wf(),
                order@ == preorder_node(self@, 0),
                p <= order@.len(),
                forall|q: int| 0 <= q < p ==> !has_id(self@[order@[q] as int], id@),
                forall|q: int| 0 <= q < order@.len() ==> (order@[q] as int) < self@.len(),
            decreases order@.len() - p,
        {
            let k = order[p];
            let found = match &self.nodes[k].id {
                Some(s) => str_eq(s.as_str(), id),
                None => false,
            };
            if found {
                return Some(k);
            }
            p = p + 1;
        }
        None
    }

    /// Writes node `i`'s computed rectangle; nothing else changes.
    pub(crate) fn set_computed(&mut self, i: usize, g: ComputedStyling)
        requires
            old(self).wf(),
            i < old(self)@.len(),
        ensures
            final(self).wf(),
            replaced_at(
                old(self)@,
                final(self)@,
                i as int,
                CapsuleObjectBase { computed_style: g, ..old(self)@[i as int] },
            ),
    {
        self.nodes[i].computed_style = g;
        proof {
            assert forall|j: int| 0 <= j < self@.len() implies #[trigger] self@[j].children@
                == old(self)@[j].children@ by {
                if j == i {
                    assert(self@[j].children == old(self)@[j].children);
                }
            }
            lemma_same_shape_wf(old(self)@, self@);
        }
    }

    pub fn len(&self) -> (r: usize)
        ensures
            r == self@.len(),
    {
        self.nodes.len()
    }

    /// Adds a node built from `spec` as the last child of `parent`, and
    /// returns its index. Nothing else changes. `None`, with the tree
    /// unchanged, where `parent` is no node or the arena is full.
    pub fn append_child(&mut self, parent: usize, spec: CapsuleObjectCreationContext) -> (r: Option<usize>)
        requires
            old(self).wf(),
        ensures
            final(self).wf(),
            r is None <==> (parent >= old(self)@.len() || old(self)@.len() + 1 >= usize::MAX),
            r is None ==> final(self)@ == old(self)@,
            r matches Some(c) ==> {
                &&& c == old(self)@.len()
                &&& final(self)@.len() == old(self)@.len() + 1
                &&& forall|i: int|
                    0 <= i < old(self)@.len() && i != parent ==> #[trigger] final(self)@[i]
                        == old(self)@[i]
                &&& final(self)@[parent as int].children@ == old(self)@[parent as int].children@.push(c)
                &&& final(self)@[parent as int].kind == old(self)@[parent as int].kind
                &&& final(self)@[parent as int].id == old(self)@[parent as int].id
                &&& final(self)@[parent as int].parent == old(self)@[parent as int].parent
                &&& final(self)@[parent as int].events == old(self)@[parent as int].events
                &&& final(self)@[parent as int].style == old(self)@[parent as int].style
                &&& final(self)@[parent as int].computed_style == old(self)@[parent as int].computed_style
                &&& final(self)@[c as int].kind == spec.kind
                &&& final(self)@[c as int].id == spec.id
                &&& final(self)@[c as int].events == spec.events
                &&& final(self)@[c as int].style == spec.style
                &&& final(self)@[c as int].parent == Some(parent)
                &&& final(self)@[c as int].children@ == Seq::<usize>::empty()
                &&& final(self)@[c as int].computed_style == (ComputedStyling { x: 0, y: 0, width: 0, height: 0 })
            },
    {
        let n = self.nodes.len();
        if parent >= n || n + 1 >= usize::MAX {
            return None;
        }
        let node = CapsuleObjectBase {
            kind: spec.kind,
            id: spec.id,
            parent: Some(parent),
            children: ChildList::new(),
            events: spec.events,
            style: spec.style,
            computed_style: ComputedStyling::zero(),
        };
        let ghost old_nodes = self.nodes@;
        self.nodes.push(node);
        self.nodes[parent].children.push(n);
        proof {
            let nodes = self.nodes@;
            assert forall|i: int| 0 < i < nodes.len() implies (#[trigger] nodes[i].parent matches Some(
                p,
            ) && p < i && nodes[p as int].children@.contains(i as usize)) by {
                if i < n {
                    let p = old_nodes[i].parent->Some_0;
                    if p == parent {
                        let k = choose|k: int| 0 <= k < old_nodes[p as int].children@.len() && old_nodes[p as int].children@[k] == i as usize;
                        assert(nodes[p as int].children@[k] == i as usize);
                    }
                } else {
                    assert(nodes[parent as int].children@.last() == n);
                }
            }
            assert forall|i: int| 0 <= i < nodes.len() implies (#[trigger] nodes[i].children@).no_duplicates() by {
                if i == parent {
                    let old_c = old_nodes[i].children@;
                    assert forall|a: int, b: int| 0 <= a < b < old_c.len() + 1 implies nodes[i].children@[a] != nodes[i].children@[b] by {
                        if b == old_c.len() {
                            assert(nodes[old_c[a] as int].parent == Some(i as usize));
                        }
                    }
                }
            }
            assert forall|i: int, k: int| 0 <= i < nodes.len() && 0 <= k < nodes[i].children@.len() implies {
                let c = #[trigger] nodes[i].children@[k];
                &&& (c as int) < nodes.len()
                &&& nodes[c as int].parent == Some(i as usize)
            } by {
                if i < n && !(i == parent && k == old_nodes[i].children@.len()) {
                    assert(nodes[i].children@[k] == old_nodes[i].children@[k]);
                }
            }
        }
        Some(n)
    }
}

} // verus!
