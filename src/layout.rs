//! The layout resolver's own phases. The build phase turns the scene tree into
//! a constraint tree for a flexbox solver, node for node; the apply phase takes
//! the solver's rectangles, which are relative to each node's parent, and
//! writes absolute rectangles into the scene tree.
//!
//! Layout is whole-tree: any dirty node makes the next pass lay out every node.
//! Constraint trees are built afresh on every pass and never kept.
use vstd::prelude::*;
use crate::scene::{CapsuleObjectBase, ComputedStyling, SceneTree};
use crate::style::{COAlignItems, CODimension, COFlexDirection, COJustifyContent, Styling};

verus! {

/// The constraints of one node, as the solver takes them.
#[derive(Clone, Copy, PartialEq, Eq, Debug, Structural)]
pub struct LayoutStyle {
    pub width: CODimension,
    pub height: CODimension,
    pub align: COAlignItems,
    pub justify: COJustifyContent,
    pub flexdir: COFlexDirection,
}

/// One node of the constraint tree: its constraints and the indices of its
/// children, which are the indices of the scene tree.
pub struct LayoutNode {
    pub style: LayoutStyle,
    pub children: Vec<usize>,
}

/// The constraints that a style record sets: a size it leaves open is `Auto`.
pub open spec fn layout_style_of(s: Styling) -> LayoutStyle {
    LayoutStyle {
        width: match s.width {
            Some(w) => w,
            None => CODimension::Auto,
        },
        height: match s.height {
            Some(h) => h,
            None => CODimension::Auto,
        },
        align: s.align,
        justify: s.justify,
        flexdir: s.flexdir,
    }
}

/// The root's constraints: the viewport's size, children in a column.
pub open spec fn root_layout_style(width: i64, height: i64) -> LayoutStyle {
    LayoutStyle {
        width: CODimension::Points(width),
        height: CODimension::Points(height),
        align: COAlignItems::Stretch,
        justify: COJustifyContent::FlexStart,
        flexdir: COFlexDirection::Column,
    }
}

/// The constraint node that stands for node `i` of the scene tree.
pub open spec fn constraint_of(nodes: Seq<CapsuleObjectBase>, i: int, width: i64, height: i64) -> (
    LayoutStyle,
    Seq<usize>,
) {
    (
        if i == 0 { root_layout_style(width, height) } else { layout_style_of(nodes[i].style) },
        nodes[i].children@,
    )
}

fn layout_style(s: &Styling) -> (r: LayoutStyle)
    ensures
        r == layout_style_of(*s),
{
    LayoutStyle {
        width: match s.width {
            Some(w) => w,
            None => CODimension::Auto,
        },
        height: match s.height {
            Some(h) => h,
            None => CODimension::Auto,
        },
        align: s.align,
        justify: s.justify,
        flexdir: s.flexdir,
    }
}

/// The build phase: one constraint node for each node of the tree, at the
/// same index, for a viewport of `width` by `height` thousandths of a pixel.
pub fn build_layout_tree(tree: &SceneTree, width: i64, height: i64) -> (r: Vec<LayoutNode>)
    requires
        tree.wf(),
    ensures
        r@.len() == tree@.len(),
        forall|i: int|
            0 <= i < r@.len() ==> ((#[trigger] r@[i]).style, r@[i].children@) == constraint_of(
                tree@,
                i,
                width,
                height,
            ),
{
    let n = tree.len();
    let mut out: Vec<LayoutNode> = Vec::new();
    let mut i: usize = 0;
    while i < n
        invariant
            n == tree@.len(),
            i <= n,
            out@.len() == i,
            forall|j: int|
                0 <= j < i ==> ((#[trigger] out@[j]).style, out@[j].children@) == constraint_of(
                    tree@,
                    j,
                    width,
                    height,
                ),
        decreases n - i,
    {
        let style = if i == 0 {
            LayoutStyle {
                width: CODimension::Points(width),
                height: CODimension::Points(height),
                align: COAlignItems::Stretch,
                justify: COJustifyContent::FlexStart,
                flexdir: COFlexDirection::Column,
            }
        } else {
            layout_style(&tree.node(i).style)
        };
        let children = tree.children_vec(i);
        out.push(LayoutNode { style, children });
        i = i + 1;
    }
    out
}

/// Node `i`'s absolute left edge: its offset from the solver plus its
/// parent's absolute left edge; the root's parent stands at 0.
pub open spec fn abs_x(nodes: Seq<CapsuleObjectBase>, solved: Seq<ComputedStyling>, i: int) -> int
    decreases i,
{
    if 0 <= i < nodes.len() {
        solved[i].x + match nodes[i].parent {
            Some(p) => if (p as int) < i {
                abs_x(nodes, solved, p as int)
            } else {
                0
            },
            None => 0,
        }
    } else {
        0
    }
}

/// Node `i`'s absolute top edge, as `abs_x` is its left edge.
pub open spec fn abs_y(nodes: Seq<CapsuleObjectBase>, solved: Seq<ComputedStyling>, i: int) -> int
    decreases i,
{
    if 0 <= i < nodes.len() {
        solved[i].y + match nodes[i].parent {
            Some(p) => if (p as int) < i {
                abs_y(nodes, solved, p as int)
            } else {
                0
            },
            None => 0,
        }
    } else {
        0
    }
}

pub open spec fn fits_i64(v: int) -> bool {
    i64::MIN <= v <= i64::MAX
}

/// Every absolute coordinate can be stored.
pub open spec fn layout_fits(nodes: Seq<CapsuleObjectBase>, solved: Seq<ComputedStyling>) -> bool {
    forall|i: int| 0 <= i < nodes.len() ==> #[trigger] corner_fits(nodes, solved, i)
}

pub open spec fn corner_fits(nodes: Seq<CapsuleObjectBase>, solved: Seq<ComputedStyling>, i: int) -> bool {
    fits_i64(abs_x(nodes, solved, i)) && fits_i64(abs_y(nodes, solved, i))
}

/// `after` is `before` with each node's rectangle set from the solver's
/// rectangles `solved`: absolute position, solved size.
pub open spec fn layout_applied(
    before: Seq<CapsuleObjectBase>,
    after: Seq<CapsuleObjectBase>,
    solved: Seq<ComputedStyling>,
) -> bool {
    &&& after.len() == before.len()
    &&& forall|i: int| 0 <= i < before.len() ==> #[trigger] after[i] == placed(before, solved, i)
}

/// Node `i` with its rectangle set: absolute position, solved size.
pub open spec fn placed(
    before: Seq<CapsuleObjectBase>,
    solved: Seq<ComputedStyling>,
    i: int,
) -> CapsuleObjectBase {
    CapsuleObjectBase {
        computed_style: ComputedStyling {
            x: abs_x(before, solved, i) as i64,
            y: abs_y(before, solved, i) as i64,
            width: solved[i].width,
            height: solved[i].height,
        },
        ..before[i]
    }
}

/// Why the solver's output could not be applied.
#[derive(Clone, Copy, PartialEq, Eq, Debug, Structural)]
pub enum LayoutError {
    /// The solver did not give one rectangle per node.
    SizeMismatch,
    /// An absolute coordinate does not fit in 64 bits.
    Overflow,
}

/// The apply phase: writes each node's absolute rectangle from the solver's
/// rectangles, which hold positions relative to the parent. On an error no
/// node changes.
pub fn apply_layout(tree: &mut SceneTree, solved: &Vec<ComputedStyling>) -> (r: Result<(), LayoutError>)
    requires
        old(tree).wf(),
    ensures
        final(tree).wf(),
        solved@.len() != old(tree)@.len() ==> r == Err::<(), LayoutError>(LayoutError::SizeMismatch),
        solved@.len() == old(tree)@.len() && !layout_fits(old(tree)@, solved@) ==> r == Err::<
            (),
            LayoutError,
        >(LayoutError::Overflow),
        r is Err ==> final(tree)@ == old(tree)@,
        r is Ok <==> (solved@.len() == old(tree)@.len() && layout_fits(old(tree)@, solved@)),
        r is Ok ==> layout_applied(old(tree)@, final(tree)@, solved@),
{
    let n = tree.len();
    if solved.len() != n {
        return Err(LayoutError::SizeMismatch);
    }
    let ghost nodes = tree@;
    let mut xs: Vec<i64> = Vec::new();
    let mut ys: Vec<i64> = Vec::new();
    let mut i: usize = 0;
    while i < n
        invariant
            tree.wf(),
            tree@ == nodes,
            nodes == old(tree)@,
            n == nodes.len(),
            solved@.len() == n,
            i <= n,
            xs@.len() == i,
            ys@.len() == i,
            forall|j: int| 0 <= j < i ==> #[trigger] xs@[j] == abs_x(nodes, solved@, j),
            forall|j: int| 0 <= j < i ==> #[trigger] ys@[j] == abs_y(nodes, solved@, j),
        decreases n - i,
    {
        let (base_x, base_y): (i128, i128) = match tree.node(i).parent {
            Some(p) => {
                assert(i > 0 ==> p < i);
                (xs[p] as i128, ys[p] as i128)
            },
            None => (0, 0),
        };
        let ax = solved[i].x as i128 + base_x;
        let ay = solved[i].y as i128 + base_y;
        if ax < i64::MIN as i128 || ax > i64::MAX as i128 || ay < i64::MIN as i128 || ay
            > i64::MAX as i128 {
            proof {
                assert(!(fits_i64(abs_x(nodes, solved@, i as int)) && fits_i64(abs_y(nodes, solved@, i as int))));
                assert(!corner_fits(nodes, solved@, i as int));
            }
            return Err(LayoutError::Overflow);
        }
        xs.push(ax as i64);
        ys.push(ay as i64);
        i = i + 1;
    }
    let mut k: usize = 0;
    while k < n
        invariant
            tree.wf(),
            n == nodes.len(),
            tree@.len() == n,
            nodes == old(tree)@,
            solved@.len() == n,
            k <= n,
            xs@.len() == n,
            ys@.len() == n,
            forall|j: int| 0 <= j < n ==> #[trigger] xs@[j] == abs_x(nodes, solved@, j),
            forall|j: int| 0 <= j < n ==> #[trigger] ys@[j] == abs_y(nodes, solved@, j),
            forall|j: int|
                0 <= j < k ==> #[trigger] tree@[j] == placed(nodes, solved@, j),
            forall|j: int| k <= j < n ==> #[trigger] tree@[j] == nodes[j],
        decreases n - k,
    {
        let g = ComputedStyling { x: xs[k], y: ys[k], width: solved[k].width, height: solved[k].height };
        tree.set_computed(k, g);
        k = k + 1;
    }
    proof {
        assert forall|j: int| 0 <= j < n implies #[trigger] corner_fits(nodes, solved@, j) by {
            assert(xs@[j] == abs_x(nodes, solved@, j));
            assert(ys@[j] == abs_y(nodes, solved@, j));
        }
    }
    Ok(())
}


/// After the apply phase, each node's absolute position is its parent's
/// absolute position plus the node's offset from the solver; the root's base
/// is (0, 0).
pub proof fn lemma_absolute_composition(
    before: SceneTree,
    after: Seq<CapsuleObjectBase>,
    solved: Seq<ComputedStyling>,
    i: int,
)
    requires
        before.wf(),
        layout_fits(before@, solved),
        layout_applied(before@, after, solved),
        0 <= i < before@.len(),
    ensures
        after[i].parent == before@[i].parent,
        after[i].parent is None ==> after[i].computed_style.x == solved[i].x
            && after[i].computed_style.y == solved[i].y,
        after[i].parent matches Some(p) ==> {
            &&& 0 <= p < i
            &&& after[i].computed_style.x == after[p as int].computed_style.x + solved[i].x
            &&& after[i].computed_style.y == after[p as int].computed_style.y + solved[i].y
        },
{
    let nodes = before@;
    assert(after[i] == placed(nodes, solved, i));
    assert(corner_fits(nodes, solved, i));
    if i > 0 {
        let p = nodes[i].parent->Some_0 as int;
        assert(after[p] == placed(nodes, solved, p));
        assert(corner_fits(nodes, solved, p));
    }
}

/// The resolver has no hidden state: trees with the same styles and children
/// give the same constraint trees for the same viewport, and trees with the
/// same parents, given the same solver output, receive the same rectangles.
pub proof fn lemma_layout_deterministic(
    before1: Seq<CapsuleObjectBase>,
    after1: Seq<CapsuleObjectBase>,
    before2: Seq<CapsuleObjectBase>,
    after2: Seq<CapsuleObjectBase>,
    solved: Seq<ComputedStyling>,
    width: i64,
    height: i64,
)
    requires
        before1.len() == before2.len(),
        forall|i: int| 0 <= i < before1.len() ==> #[trigger] before1[i].style == before2[i].style,
        forall|i: int| 0 <= i < before1.len() ==> #[trigger] before1[i].children@ == before2[i].children@,
        forall|i: int| 0 <= i < before1.len() ==> #[trigger] before1[i].parent == before2[i].parent,
        layout_applied(before1, after1, solved),
        layout_applied(before2, after2, solved),
    ensures
        forall|i: int|
            0 <= i < before1.len() ==> #[trigger] constraint_of(before1, i, width, height)
                == constraint_of(before2, i, width, height),
        forall|i: int|
            0 <= i < before1.len() ==> #[trigger] after1[i].computed_style == after2[i].computed_style,
{
    assert forall|i: int| 0 <= i < before1.len() implies #[trigger] after1[i].computed_style
        == after2[i].computed_style by {
        lemma_abs_same(before1, before2, solved, i);
        assert(after1[i] == placed(before1, solved, i));
        assert(after2[i] == placed(before2, solved, i));
    }
    assert forall|i: int| 0 <= i < before1.len() implies #[trigger] constraint_of(before1, i, width, height)
        == constraint_of(before2, i, width, height) by {
        assert(before1[i].style == before2[i].style);
        assert(before1[i].children@ == before2[i].children@);
    }
}

proof fn lemma_abs_same(
    a: Seq<CapsuleObjectBase>,
    b: Seq<CapsuleObjectBase>,
    solved: Seq<ComputedStyling>,
    i: int,
)
    requires
        a.len() == b.len(),
        forall|j: int| 0 <= j < a.len() ==> #[trigger] a[j].parent == b[j].parent,
    ensures
        abs_x(a, solved, i) == abs_x(b, solved, i),
        abs_y(a, solved, i) == abs_y(b, solved, i),
    decreases i,
{
    if 0 <= i < a.len() {
        assert(a[i].parent == b[i].parent);
        if let Some(p) = a[i].parent {
            if (p as int) < i {
                lemma_abs_same(a, b, solved, p as int);
            }
        }
    }
}

} // verus!
