//! Pointer hit-testing and the plan of script calls for one tick.
//!
//! Every visual node whose rectangle holds the pointer fires, ancestors and
//! descendants alike, in pre-order: no node hides another.
use vstd::prelude::*;
use crate::event::CapsuleObjectEvent;
use crate::scene::{CapsuleObjectBase, CapsuleObjectKind, ComputedStyling, SceneTree, preorder_node, lemma_preorder_visits_each_node_once};
use crate::text::{str_eq, texts_of};

verus! {

/// The rectangle holds the point, edges included.
pub open spec fn contains_point(g: ComputedStyling, px: int, py: int) -> bool {
    g.x <= px <= g.x + g.width && g.y <= py <= g.y + g.height
}

/// The callbacks of the events named `name`, in order.
pub open spec fn matching_callbacks(events: Seq<CapsuleObjectEvent>, name: Seq<char>) -> Seq<Seq<char>>
    decreases events.len(),
{
    if events.len() == 0 {
        Seq::empty()
    } else {
        matching_callbacks(events.drop_last(), name) + if events.last().name@ == name {
            seq![events.last().callback@]
        } else {
            Seq::empty()
        }
    }
}

/// The callbacks that node `n` contributes for a press at (`px`, `py`);
/// script nodes are not visual and take no part.
pub open spec fn node_callbacks(n: CapsuleObjectBase, px: int, py: int, name: Seq<char>) -> Seq<Seq<char>> {
    if contains_point(n.computed_style, px, py) && !(n.kind is Script) {
        matching_callbacks(n.events@, name)
    } else {
        Seq::empty()
    }
}

/// The callbacks of the nodes in `order`, one node after another.
pub open spec fn callbacks_in(
    nodes: Seq<CapsuleObjectBase>,
    order: Seq<usize>,
    px: int,
    py: int,
    name: Seq<char>,
) -> Seq<Seq<char>>
    decreases order.len(),
{
    if order.len() == 0 {
        Seq::empty()
    } else {
        callbacks_in(nodes, order.drop_last(), px, py, name) + node_callbacks(
            nodes[order.last() as int],
            px,
            py,
            name,
        )
    }
}

fn in_rect(g: &ComputedStyling, px: i64, py: i64) -> (r: bool)
    ensures
        r == contains_point(*g, px as int, py as int),
{
    g.x as i128 <= px as i128 && px as i128 <= g.x as i128 + g.width as i128 && g.y as i128
        <= py as i128 && py as i128 <= g.y as i128 + g.height as i128
}

/// Hit-tests a press at (`px`, `py`): the callbacks of the events named
/// `name` of every node whose rectangle holds the point, node by node in
/// pre-order, each node's events in the order they were registered.
pub fn hit_callbacks(tree: &SceneTree, px: i64, py: i64, name: &str) -> (r: Vec<String>)
    requires
        tree.wf(),
    ensures
        texts_of(r@) == callbacks_in(tree@, preorder_node(tree@, 0), px as int, py as int, name@),
{
    let order = tree.preorder();
    proof {
        lemma_preorder_visits_each_node_once(*tree);
    }
    let mut out: Vec<String> = Vec::new();
    let mut p: usize = 0;
    while p < order.len()
        invariant
            tree.wf(),
            order@ == preorder_node(tree@, 0),
            forall|q: int| 0 <= q < order@.len() ==> (#[trigger] order@[q] as int) < tree@.len(),
            p <= order@.len(),
            texts_of(out@) == callbacks_in(tree@, order@.take(p as int), px as int, py as int, name@),
        decreases order@.len() - p,
    {
        let k = order[p];
        let node = tree.node(k);
        let ghost before = out@;
        let visual = match &node.kind {
            CapsuleObjectKind::Script(_) => false,
            _ => true,
        };
        if visual && in_rect(&node.computed_style, px, py) {
            let mut e: usize = 0;
            while e < node.events.len()
                invariant
                    p < order@.len(),
                    *node == tree@[order@[p as int] as int],
                    e <= node.events@.len(),
                    contains_point(node.computed_style, px as int, py as int),
                    !(node.kind is Script),
                    texts_of(out@) == texts_of(before) + matching_callbacks(node.events@.take(e as int), name@),
                decreases node.events@.len() - e,
            {
                let ev = &node.events[e];
                assert(node.events@.take(e + 1).drop_last() == node.events@.take(e as int));
                if str_eq(ev.name.as_str(), name) {
                    out.push(ev.callback.clone());
                    assert(texts_of(out@) == texts_of(before) + matching_callbacks(node.events@.take(e as int), name@) + seq![ev.callback@]);
                } else {
                    assert(texts_of(out@) == texts_of(before) + matching_callbacks(node.events@.take(e as int), name@) + Seq::<Seq<char>>::empty());
                }
                e = e + 1;
            }
            assert(node.events@.take(e as int) == node.events@);
        }
        assert(order@.take(p + 1).drop_last() == order@.take(p as int));
        p = p + 1;
    }
    assert(order@.take(p as int) == order@);
    out
}

/// The nodes in `order` whose rectangle holds the point, in that order.
pub open spec fn nodes_at_in(nodes: Seq<CapsuleObjectBase>, order: Seq<usize>, px: int, py: int) -> Seq<usize>
    decreases order.len(),
{
    if order.len() == 0 {
        Seq::empty()
    } else {
        nodes_at_in(nodes, order.drop_last(), px, py) + if contains_point(
            nodes[order.last() as int].computed_style,
            px,
            py,
        ) {
            seq![order.last()]
        } else {
            Seq::empty()
        }
    }
}

/// Every node whose rectangle holds (`px`, `py`), in pre-order.
pub fn nodes_at(tree: &SceneTree, px: i64, py: i64) -> (r: Vec<usize>)
    requires
        tree.wf(),
    ensures
        r@ == nodes_at_in(tree@, preorder_node(tree@, 0), px as int, py as int),
{
    let order = tree.preorder();
    proof {
        lemma_preorder_visits_each_node_once(*tree);
    }
    let mut out: Vec<usize> = Vec::new();
    let mut p: usize = 0;
    while p < order.len()
        invariant
            tree.wf(),
            order@ == preorder_node(tree@, 0),
            forall|q: int| 0 <= q < order@.len() ==> (#[trigger] order@[q] as int) < tree@.len(),
            p <= order@.len(),
            out@ == nodes_at_in(tree@, order@.take(p as int), px as int, py as int),
        decreases order@.len() - p,
    {
        let k = order[p];
        assert(order@.take(p + 1).drop_last() == order@.take(p as int));
        if in_rect(&tree.node(k).computed_style, px, py) {
            out.push(k);
        }
        p = p + 1;
    }
    assert(order@.take(p as int) == order@);
    out
}

/// The pointer buttons pressed this tick, by number: primary 1, secondary 2,
/// middle 3.
pub fn pressed_buttons(primary: bool, secondary: bool, middle: bool) -> (r: Vec<u8>)
    ensures
        r@ == (if primary { seq![1u8] } else { Seq::empty() }) + (if secondary {
            seq![2u8]
        } else {
            Seq::empty()
        }) + (if middle { seq![3u8] } else { Seq::empty() }),
{
    let mut out: Vec<u8> = Vec::new();
    if primary {
        out.push(1);
    }
    if secondary {
        out.push(2);
    }
    if middle {
        out.push(3);
    }
    assert(out@ =~= (if primary { seq![1u8] } else { Seq::empty() }) + (if secondary {
        seq![2u8]
    } else {
        Seq::empty()
    }) + (if middle { seq![3u8] } else { Seq::empty() }));
    out
}

/// The script calls for callbacks and buttons: each callback in turn, with
/// each button in turn.
pub open spec fn planned_calls(callbacks: Seq<Seq<char>>, buttons: Seq<u8>) -> Seq<(Seq<char>, u8)>
    decreases callbacks.len(),
{
    if callbacks.len() == 0 {
        Seq::empty()
    } else {
        planned_calls(callbacks.drop_last(), buttons) + buttons.map_values(
            |b: u8| (callbacks.last(), b),
        )
    }
}

pub open spec fn calls_view(v: Seq<(String, u8)>) -> Seq<(Seq<char>, u8)> {
    v.map_values(|c: (String, u8)| (c.0@, c.1))
}

/// The event that a pointer press fires.
pub const CLICK_EVENT: &'static str = "onclick";

/// The decisions of one tick's pointer handling: where no button went down,
/// nothing runs; else each callback that the press at (`px`, `py`) hits runs
/// once for each pressed button. Running them, and catching their errors, is
/// the caller's part.
pub fn update_events(
    tree: &SceneTree,
    primary: bool,
    secondary: bool,
    middle: bool,
    px: i64,
    py: i64,
) -> (r: Vec<(String, u8)>)
    requires
        tree.wf(),
    ensures
        !(primary || secondary || middle) ==> r@.len() == 0,
        (primary || secondary || middle) ==> calls_view(r@) == planned_calls(
            callbacks_in(tree@, preorder_node(tree@, 0), px as int, py as int, CLICK_EVENT@),
            (if primary { seq![1u8] } else { Seq::empty() }) + (if secondary {
                seq![2u8]
            } else {
                Seq::empty()
            }) + (if middle { seq![3u8] } else { Seq::empty() }),
        ),
{
    if !(primary || secondary || middle) {
        return Vec::new();
    }
    let callbacks = hit_callbacks(tree, px, py, CLICK_EVENT);
    let buttons = pressed_buttons(primary, secondary, middle);
    let mut out: Vec<(String, u8)> = Vec::new();
    let mut c: usize = 0;
    while c < callbacks.len()
        invariant
            c <= callbacks@.len(),
            calls_view(out@) == planned_calls(texts_of(callbacks@).take(c as int), buttons@),
        decreases callbacks@.len() - c,
    {
        let ghost before = out@;
        let mut b: usize = 0;
        while b < buttons.len()
            invariant
                c < callbacks@.len(),
                b <= buttons@.len(),
                calls_view(out@) == calls_view(before) + buttons@.take(b as int).map_values(
                    |x: u8| (callbacks@[c as int]@, x),
                ),
            decreases buttons@.len() - b,
        {
            let ghost prev = out@;
            let name = callbacks[c].clone();
            out.push((name, buttons[b]));
            assert(calls_view(out@) =~= calls_view(prev).push((callbacks@[c as int]@, buttons@[b as int])));
            assert(buttons@.take(b + 1).map_values(|x: u8| (callbacks@[c as int]@, x)) =~= buttons@.take(
                b as int,
            ).map_values(|x: u8| (callbacks@[c as int]@, x)).push((callbacks@[c as int]@, buttons@[b as int])));
            assert(calls_view(out@) =~= calls_view(before) + buttons@.take(b + 1).map_values(
                |x: u8| (callbacks@[c as int]@, x),
            ));
            b = b + 1;
        }
        assert(buttons@.take(b as int) == buttons@);
        assert(texts_of(callbacks@).take(c + 1).drop_last() =~= texts_of(callbacks@).take(c as int));
        assert(texts_of(callbacks@).take(c + 1).last() == callbacks@[c as int]@);
        c = c + 1;
    }
    assert(texts_of(callbacks@).take(c as int) =~= texts_of(callbacks@));
    out
}

} // verus!
