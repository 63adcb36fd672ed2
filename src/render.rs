//! The draw calls for one frame, in pre-order: each node's background, then
//! what its kind draws.
use vstd::prelude::*;
use crate::color::COColor;
use crate::scene::{
    CapsuleObjectBase, CapsuleObjectKind, ComputedStyling, SceneTree, lemma_preorder_visits_each_node_once,
    preorder_node,
};

verus! {

/// One draw call, in thousandths of a pixel.
#[derive(Debug)]
pub enum DrawCommand {
    /// A filled rectangle.
    Rect { x: i64, y: i64, width: i64, height: i64, color: COColor },
    /// A run of text whose top left corner is at (`x`, `y`).
    Text { text: String, x: i64, y: i64, font_size: u16, color: COColor },
}

pub enum DrawView {
    Rect(ComputedStyling, COColor),
    Text(Seq<char>, i64, i64, u16, COColor),
}

impl View for DrawCommand {
    type V = DrawView;

    open spec fn view(&self) -> DrawView {
        match self {
            DrawCommand::Rect { x, y, width, height, color } => DrawView::Rect(
                ComputedStyling { x: *x, y: *y, width: *width, height: *height },
                *color,
            ),
            DrawCommand::Text { text, x, y, font_size, color } => DrawView::Text(
                text@,
                *x,
                *y,
                *font_size,
                *color,
            ),
        }
    }
}

/// The colour of text that sets none.
pub open spec fn spec_white() -> COColor {
    COColor { r: 255, g: 255, b: 255, a: 255 }
}

pub fn white() -> (r: COColor)
    ensures
        r == spec_white(),
{
    COColor { r: 255, g: 255, b: 255, a: 255 }
}

/// What node `n` draws: its background, if any; then a box its colour, or
/// its text.
pub open spec fn node_draws(n: CapsuleObjectBase) -> Seq<DrawView> {
    let g = n.computed_style;
    (match n.style.background_color {
        Some(c) => seq![DrawView::Rect(g, c)],
        None => Seq::empty(),
    }) + match n.kind {
        CapsuleObjectKind::Obj => match n.style.color {
            Some(c) => seq![DrawView::Rect(g, c)],
            None => Seq::empty(),
        },
        CapsuleObjectKind::Text(t) => seq![
            DrawView::Text(
                t@,
                g.x,
                g.y,
                n.style.font_size,
                match n.style.color {
                    Some(c) => c,
                    None => spec_white(),
                },
            ),
        ],
        _ => Seq::empty(),
    }
}

/// What the nodes in `order` draw, one node after another.
pub open spec fn draws_in(nodes: Seq<CapsuleObjectBase>, order: Seq<usize>) -> Seq<DrawView>
    decreases order.len(),
{
    if order.len() == 0 {
        Seq::empty()
    } else {
        draws_in(nodes, order.drop_last()) + node_draws(nodes[order.last() as int])
    }
}

pub open spec fn draws_view(v: Seq<DrawCommand>) -> Seq<DrawView> {
    v.map_values(|d: DrawCommand| d@)
}

fn push_draw(out: &mut Vec<DrawCommand>, d: DrawCommand)
    ensures
        draws_view(final(out)@) == draws_view(old(out)@).push(d@),
{
    let ghost before = out@;
    out.push(d);
    assert(draws_view(out@) =~= draws_view(before).push(d@));
}

/// The draw calls for the whole tree, node by node in pre-order. Drawing
/// only reads the tree.
pub fn render_capsule(tree: &SceneTree) -> (r: Vec<DrawCommand>)
    requires
        tree.wf(),
    ensures
        draws_view(r@) == draws_in(tree@, preorder_node(tree@, 0)),
{
    let order = tree.preorder();
    proof {
        lemma_preorder_visits_each_node_once(*tree);
    }
    let mut out: Vec<DrawCommand> = Vec::new();
    let mut p: usize = 0;
    while p < order.len()
        invariant
            tree.wf(),
            order@ == preorder_node(tree@, 0),
            forall|q: int| 0 <= q < order@.len() ==> (#[trigger] order@[q] as int) < tree@.len(),
            p <= order@.len(),
            draws_view(out@) == draws_in(tree@, order@.take(p as int)),
        decreases order@.len() - p,
    {
        let node = tree.node(order[p]);
        let g = node.computed_style;
        let ghost before = draws_view(out@);
        if let Some(c) = node.style.background_color {
            push_draw(&mut out, DrawCommand::Rect { x: g.x, y: g.y, width: g.width, height: g.height, color: c });
        }
        let ghost mid = draws_view(out@);
        match &node.kind {
            CapsuleObjectKind::Obj => {
                if let Some(c) = node.style.color {
                    push_draw(&mut out, DrawCommand::Rect { x: g.x, y: g.y, width: g.width, height: g.height, color: c });
                }
            },
            CapsuleObjectKind::Text(t) => {
                let color = match node.style.color {
                    Some(c) => c,
                    None => white(),
                };
                push_draw(&mut out, DrawCommand::Text { text: t.clone(), x: g.x, y: g.y, font_size: node.style.font_size, color });
            },
            _ => {},
        }
        proof {
            let n = *node;
            let bg = match n.style.background_color {
                Some(c) => seq![DrawView::Rect(g, c)],
                None => Seq::<DrawView>::empty(),
            };
            assert(mid =~= before + bg);
            assert(draws_view(out@) =~= before + node_draws(n));
            assert(order@.take(p + 1).drop_last() == order@.take(p as int));
        }
        p = p + 1;
    }
    assert(order@.take(p as int) == order@);
    out
}

} // verus!
