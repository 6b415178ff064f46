//! The region solver: a pure function from (tree, container size,
//! spacing) to the rectangle of every pane and of every split.
//!
//! A branch divides its rectangle between its children along its axis:
//! the primary child takes `(extent - spacing) * ratio / RATIO_UNIT`, the
//! secondary child what is left after the primary and the spacing strip.
//! A branch's own region is the undivided rectangle, which is what the
//! resize hit-test measures against. When a rectangle is narrower than
//! the spacing the children's extents clamp to zero rather than going
//! negative.
//!
//! The laws at the end state the tiling property: within a container
//! that admits the spacing everywhere, the leaf regions lie inside the
//! container, are pairwise disjoint, and their areas plus the spacing
//! strips' areas add up exactly to the container's area.

use vstd::prelude::*;

use crate::geometry::lemma_contained_disjoint;
use crate::geometry::Rectangle;
use crate::geometry::Size;
use crate::geometry::RATIO_MAX;
use crate::geometry::RATIO_MIN;
use crate::geometry::RATIO_UNIT;
use crate::tree::lemma_wf_ratios_valid;
use crate::tree::Axis;
use crate::tree::Node;
use crate::tree::Pane;
use crate::tree::Split;
use crate::tree::Tree;
use vstd::arithmetic::div_mod::lemma_div_by_multiple;
use vstd::arithmetic::div_mod::lemma_div_is_ordered;
use vstd::arithmetic::mul::lemma_mul_inequality;

verus! {

/// The extent left for the two children once the spacing strip is
/// taken out; zero when the strip does not fit.
pub open spec fn spec_inner_extent(extent: u32, spacing: u32) -> u32 {
    if extent >= spacing {
        (extent - spacing) as u32
    } else {
        0u32
    }
}

/// The primary child's share of `extent`: the ratio's fraction of the
/// inner extent, rounded down.
pub open spec fn spec_primary_extent(extent: u32, spacing: u32, ratio: u32) -> u32 {
    (spec_inner_extent(extent, spacing) * ratio / (RATIO_UNIT as int)) as u32
}

/// The two rectangles a branch assigns to its children.
pub open spec fn spec_child_rects(rect: Rectangle, axis: Axis, ratio: u32, spacing: u32) -> (
    Rectangle,
    Rectangle,
) {
    match axis {
        Axis::Horizontal => {
            let w1 = spec_primary_extent(rect.width, spacing, ratio);
            let w2 = (spec_inner_extent(rect.width, spacing) - w1) as u32;
            let off = if w1 + spacing <= rect.width {
                (w1 + spacing) as u32
            } else {
                rect.width
            };
            (
                Rectangle { x: rect.x, y: rect.y, width: w1, height: rect.height },
                Rectangle {
                    x: (rect.x + off) as u32,
                    y: rect.y,
                    width: w2,
                    height: rect.height,
                },
            )
        },
        Axis::Vertical => {
            let h1 = spec_primary_extent(rect.height, spacing, ratio);
            let h2 = (spec_inner_extent(rect.height, spacing) - h1) as u32;
            let off = if h1 + spacing <= rect.height {
                (h1 + spacing) as u32
            } else {
                rect.height
            };
            (
                Rectangle { x: rect.x, y: rect.y, width: rect.width, height: h1 },
                Rectangle {
                    x: rect.x,
                    y: (rect.y + off) as u32,
                    width: rect.width,
                    height: h2,
                },
            )
        },
    }
}

/// The region of every pane, in pre-order, for `node` laid out in
/// `rect`.
pub open spec fn spec_pane_regions(node: Node, rect: Rectangle, spacing: u32) -> Seq<
    (Pane, Rectangle),
>
    decreases node,
{
    match node {
        Node::Pane(p) => seq![(p, rect)],
        Node::Split { axis, ratio, a, b, .. } => {
            let (ra, rb) = spec_child_rects(rect, axis, ratio, spacing);
            spec_pane_regions(*a, ra, spacing) + spec_pane_regions(*b, rb, spacing)
        },
    }
}

/// The region of every split, in pre-order (branch before children):
/// its axis, its undivided rectangle, and its ratio.
pub open spec fn spec_split_regions(node: Node, rect: Rectangle, spacing: u32) -> Seq<
    (Split, Axis, Rectangle, u32),
>
    decreases node,
{
    match node {
        Node::Pane(_) => seq![],
        Node::Split { id, axis, ratio, a, b } => {
            let (ra, rb) = spec_child_rects(rect, axis, ratio, spacing);
            seq![(id, axis, rect, ratio)] + spec_split_regions(*a, ra, spacing)
                + spec_split_regions(*b, rb, spacing)
        },
    }
}

/// The primary share never exceeds the inner extent.
pub proof fn lemma_primary_le_inner(extent: u32, spacing: u32, ratio: u32)
    requires
        ratio <= RATIO_UNIT,
    ensures
        spec_primary_extent(extent, spacing, ratio) <= spec_inner_extent(extent, spacing),
        spec_primary_extent(extent, spacing, ratio) == spec_inner_extent(extent, spacing) * ratio
            / (RATIO_UNIT as int),
{
    let inner = spec_inner_extent(extent, spacing) as int;
    lemma_mul_inequality(ratio as int, RATIO_UNIT as int, inner);
    lemma_div_is_ordered(inner * ratio, inner * RATIO_UNIT, RATIO_UNIT as int);
    lemma_div_by_multiple(inner, RATIO_UNIT as int);
    assert(inner * ratio == ratio * inner) by (nonlinear_arith);
    assert(inner * RATIO_UNIT == RATIO_UNIT * inner) by (nonlinear_arith);
    assert(inner * ratio / (RATIO_UNIT as int) <= inner);
}

/// Both child rectangles are well-formed and lie within the parent.
pub proof fn lemma_child_rects_within(rect: Rectangle, axis: Axis, ratio: u32, spacing: u32)
    requires
        rect.spec_wf(),
        ratio <= RATIO_UNIT,
    ensures
        spec_child_rects(rect, axis, ratio, spacing).0.spec_wf(),
        spec_child_rects(rect, axis, ratio, spacing).1.spec_wf(),
        rect.spec_contains_rect(spec_child_rects(rect, axis, ratio, spacing).0),
        rect.spec_contains_rect(spec_child_rects(rect, axis, ratio, spacing).1),
        spec_child_rects(rect, axis, ratio, spacing).0.spec_disjoint(
            spec_child_rects(rect, axis, ratio, spacing).1,
        ),
{
    match axis {
        Axis::Horizontal => {
            lemma_primary_le_inner(rect.width, spacing, ratio);
        },
        Axis::Vertical => {
            lemma_primary_le_inner(rect.height, spacing, ratio);
        },
    }
}

/// Computes the two child rectangles of a branch.
pub fn child_rects(rect: Rectangle, axis: Axis, ratio: u32, spacing: u32) -> (r: (
    Rectangle,
    Rectangle,
))
    requires
        rect.spec_wf(),
        ratio <= RATIO_UNIT,
    ensures
        r == spec_child_rects(rect, axis, ratio, spacing),
        r.0.spec_wf(),
        r.1.spec_wf(),
{
    proof {
        lemma_child_rects_within(rect, axis, ratio, spacing);
    }
    match axis {
        Axis::Horizontal => {
            let inner = if rect.width >= spacing {
                rect.width - spacing
            } else {
                0
            };
            proof {
                lemma_primary_le_inner(rect.width, spacing, ratio);
                assert((inner as int) * (ratio as int) <= (u32::MAX as int) * (
                RATIO_UNIT as int)) by (nonlinear_arith)
                    requires
                        inner as int <= u32::MAX as int,
                        0 <= ratio as int <= RATIO_UNIT as int,
                ;
            }
            let w1 = ((inner as u64) * (ratio as u64) / (RATIO_UNIT as u64)) as u32;
            let w2 = inner - w1;
            let off = if spacing <= rect.width - w1 {
                w1 + spacing
            } else {
                rect.width
            };
            (
                Rectangle { x: rect.x, y: rect.y, width: w1, height: rect.height },
                Rectangle { x: rect.x + off, y: rect.y, width: w2, height: rect.height },
            )
        },
        Axis::Vertical => {
            let inner = if rect.height >= spacing {
                rect.height - spacing
            } else {
                0
            };
            proof {
                lemma_primary_le_inner(rect.height, spacing, ratio);
                assert((inner as int) * (ratio as int) <= (u32::MAX as int) * (
                RATIO_UNIT as int)) by (nonlinear_arith)
                    requires
                        inner as int <= u32::MAX as int,
                        0 <= ratio as int <= RATIO_UNIT as int,
                ;
            }
            let h1 = ((inner as u64) * (ratio as u64) / (RATIO_UNIT as u64)) as u32;
            let h2 = inner - h1;
            let off = if spacing <= rect.height - h1 {
                h1 + spacing
            } else {
                rect.height
            };
            (
                Rectangle { x: rect.x, y: rect.y, width: rect.width, height: h1 },
                Rectangle { x: rect.x, y: rect.y + off, width: rect.width, height: h2 },
            )
        },
    }
}

/// Appends the pane regions of `node` laid out in `rect`, in pre-order,
/// to `out`.
pub fn collect_pane_regions(
    node: &Node,
    rect: Rectangle,
    spacing: u32,
    out: &mut Vec<(Pane, Rectangle)>,
)
    requires
        rect.spec_wf(),
        node.ratios_valid(),
    ensures
        final(out)@ == old(out)@ + spec_pane_regions(*node, rect, spacing),
    decreases *node,
{
    match node {
        Node::Pane(p) => {
            out.push((*p, rect));
            proof {
                assert(final(out)@ =~= old(out)@ + spec_pane_regions(*node, rect, spacing));
            }
        },
        Node::Split { axis, ratio, a, b, .. } => {
            let (ra, rb) = child_rects(rect, *axis, *ratio, spacing);
            collect_pane_regions(a, ra, spacing, out);
            collect_pane_regions(b, rb, spacing, out);
            proof {
                assert(final(out)@ =~= old(out)@ + spec_pane_regions(*node, rect, spacing));
            }
        },
    }
}

/// Appends the split regions of `node` laid out in `rect`, in
/// pre-order, to `out`.
pub fn collect_split_regions(
    node: &Node,
    rect: Rectangle,
    spacing: u32,
    out: &mut Vec<(Split, Axis, Rectangle, u32)>,
)
    requires
        rect.spec_wf(),
        node.ratios_valid(),
    ensures
        final(out)@ == old(out)@ + spec_split_regions(*node, rect, spacing),
    decreases *node,
{
    match node {
        Node::Pane(_) => {
            proof {
                assert(final(out)@ =~= old(out)@ + spec_split_regions(*node, rect, spacing));
            }
        },
        Node::Split { id, axis, ratio, a, b } => {
            out.push((*id, *axis, rect, *ratio));
            let (ra, rb) = child_rects(rect, *axis, *ratio, spacing);
            collect_split_regions(a, ra, spacing, out);
            collect_split_regions(b, rb, spacing, out);
            proof {
                assert(final(out)@ =~= old(out)@ + spec_split_regions(*node, rect, spacing));
            }
        },
    }
}

/// The rectangle a container size spans, anchored at the origin.
pub open spec fn spec_container_rect(size: Size) -> Rectangle {
    Rectangle { x: 0, y: 0, width: size.width, height: size.height }
}

impl Tree {
    /// The region of every pane of the tree, in pre-order, for the
    /// given spacing and container size.
    pub fn regions(&self, spacing: u32, size: Size) -> (r: Vec<(Pane, Rectangle)>)
        requires
            self.wf(),
        ensures
            r@ == spec_pane_regions(self.root, spec_container_rect(size), spacing),
    {
        proof {
            lemma_wf_ratios_valid(self.root);
        }
        let rect = Rectangle { x: 0, y: 0, width: size.width, height: size.height };
        let mut out: Vec<(Pane, Rectangle)> = Vec::new();
        collect_pane_regions(&self.root, rect, spacing, &mut out);
        out
    }

    /// The axis, undivided rectangle and ratio of every split of the
    /// tree, in pre-order, for the given spacing and container size.
    pub fn splits(&self, spacing: u32, size: Size) -> (r: Vec<(Split, Axis, Rectangle, u32)>)
        requires
            self.wf(),
        ensures
            r@ == spec_split_regions(self.root, spec_container_rect(size), spacing),
    {
        proof {
            lemma_wf_ratios_valid(self.root);
        }
        let rect = Rectangle { x: 0, y: 0, width: size.width, height: size.height };
        let mut out: Vec<(Split, Axis, Rectangle, u32)> = Vec::new();
        collect_split_regions(&self.root, rect, spacing, &mut out);
        out
    }
}


/// The sum of the areas of the listed regions.
pub open spec fn spec_regions_area(rs: Seq<(Pane, Rectangle)>) -> int
    decreases rs.len(),
{
    if rs.len() == 0 {
        0
    } else {
        rs[0].1.spec_area() + spec_regions_area(rs.drop_first())
    }
}

/// Region areas add over concatenation.
pub proof fn lemma_regions_area_concat(s1: Seq<(Pane, Rectangle)>, s2: Seq<(Pane, Rectangle)>)
    ensures
        spec_regions_area(s1 + s2) == spec_regions_area(s1) + spec_regions_area(s2),
    decreases s1.len(),
{
    if s1.len() == 0 {
        assert(s1 + s2 =~= s2);
    } else {
        assert((s1 + s2).drop_first() =~= s1.drop_first() + s2);
        lemma_regions_area_concat(s1.drop_first(), s2);
    }
}

/// Whether the rectangle admits the spacing strip at every branch
/// below `node`. Outside this condition a strip clamps and the exact
/// tiling accounting does not hold.
pub open spec fn spec_fits(node: Node, rect: Rectangle, spacing: u32) -> bool
    decreases node,
{
    match node {
        Node::Pane(_) => true,
        Node::Split { axis, ratio, a, b, .. } => {
            let (ra, rb) = spec_child_rects(rect, axis, ratio, spacing);
            (match axis {
                Axis::Horizontal => rect.width >= spacing,
                Axis::Vertical => rect.height >= spacing,
            }) && spec_fits(*a, ra, spacing) && spec_fits(*b, rb, spacing)
        },
    }
}

/// The total area of the spacing strips between siblings: one strip of
/// width `spacing` across the branch rectangle per branch.
pub open spec fn spec_gaps_area(node: Node, rect: Rectangle, spacing: u32) -> int
    decreases node,
{
    match node {
        Node::Pane(_) => 0,
        Node::Split { axis, ratio, a, b, .. } => {
            let (ra, rb) = spec_child_rects(rect, axis, ratio, spacing);
            let strip = match axis {
                Axis::Horizontal => spacing * rect.height,
                Axis::Vertical => spacing * rect.width,
            };
            strip + spec_gaps_area(*a, ra, spacing) + spec_gaps_area(*b, rb, spacing)
        },
    }
}

/// Coverage, by area accounting: when the container admits the spacing
/// everywhere, the leaf region areas plus the spacing strip areas add
/// up exactly to the container's area -- the tiling leaves no gap
/// beyond the declared spacing and wastes no space.
pub proof fn lemma_regions_cover(node: Node, rect: Rectangle, spacing: u32)
    requires
        node.ratios_valid(),
        rect.spec_wf(),
        spec_fits(node, rect, spacing),
    ensures
        spec_regions_area(spec_pane_regions(node, rect, spacing)) + spec_gaps_area(
            node,
            rect,
            spacing,
        ) == rect.spec_area(),
    decreases node,
{
    reveal_with_fuel(spec_regions_area, 3);
    match node {
        Node::Pane(_) => {},
        Node::Split { axis, ratio, a, b, .. } => {
            let (ra, rb) = spec_child_rects(rect, axis, ratio, spacing);
            lemma_child_rects_within(rect, axis, ratio, spacing);
            lemma_regions_cover(*a, ra, spacing);
            lemma_regions_cover(*b, rb, spacing);
            lemma_regions_area_concat(
                spec_pane_regions(*a, ra, spacing),
                spec_pane_regions(*b, rb, spacing),
            );
            match axis {
                Axis::Horizontal => {
                    lemma_primary_le_inner(rect.width, spacing, ratio);
                    assert(ra.width + rb.width + spacing == rect.width);
                    assert((ra.width + rb.width + spacing) * rect.height == ra.width * rect.height
                        + rb.width * rect.height + spacing * rect.height) by (nonlinear_arith);
                },
                Axis::Vertical => {
                    lemma_primary_le_inner(rect.height, spacing, ratio);
                    assert(ra.height + rb.height + spacing == rect.height);
                    assert((ra.height + rb.height + spacing) * rect.width == ra.height * rect.width
                        + rb.height * rect.width + spacing * rect.width) by (nonlinear_arith);
                    assert(rect.width * rect.height == rect.height * rect.width) by (
                    nonlinear_arith);
                    assert(ra.width * ra.height == ra.height * rect.width) by (nonlinear_arith)
                        requires ra.width == rect.width,
                    ;
                    assert(rb.width * rb.height == rb.height * rect.width) by (nonlinear_arith)
                        requires rb.width == rect.width,
                    ;
                },
            }
        },
    }
}

/// Containment: every listed region is a well-formed rectangle lying
/// within the container.
pub proof fn lemma_region_within(node: Node, rect: Rectangle, spacing: u32, i: int)
    requires
        node.ratios_valid(),
        rect.spec_wf(),
        0 <= i < spec_pane_regions(node, rect, spacing).len(),
    ensures
        rect.spec_contains_rect(spec_pane_regions(node, rect, spacing)[i].1),
        spec_pane_regions(node, rect, spacing)[i].1.spec_wf(),
    decreases node,
{
    match node {
        Node::Pane(_) => {},
        Node::Split { axis, ratio, a, b, .. } => {
            let (ra, rb) = spec_child_rects(rect, axis, ratio, spacing);
            lemma_child_rects_within(rect, axis, ratio, spacing);
            let la = spec_pane_regions(*a, ra, spacing).len() as int;
            if i < la {
                lemma_region_within(*a, ra, spacing, i);
            } else {
                lemma_region_within(*b, rb, spacing, i - la);
            }
        },
    }
}

/// Disjointness: two distinct listed regions share no point.
pub proof fn lemma_regions_disjoint(node: Node, rect: Rectangle, spacing: u32, i: int, j: int)
    requires
        node.ratios_valid(),
        rect.spec_wf(),
        0 <= i < j < spec_pane_regions(node, rect, spacing).len(),
    ensures
        spec_pane_regions(node, rect, spacing)[i].1.spec_disjoint(
            spec_pane_regions(node, rect, spacing)[j].1,
        ),
    decreases node,
{
    match node {
        Node::Pane(_) => {},
        Node::Split { axis, ratio, a, b, .. } => {
            let (ra, rb) = spec_child_rects(rect, axis, ratio, spacing);
            lemma_child_rects_within(rect, axis, ratio, spacing);
            let la = spec_pane_regions(*a, ra, spacing).len() as int;
            if j < la {
                lemma_regions_disjoint(*a, ra, spacing, i, j);
            } else if i >= la {
                lemma_regions_disjoint(*b, rb, spacing, i - la, j - la);
            } else {
                lemma_region_within(*a, ra, spacing, i);
                lemma_region_within(*b, rb, spacing, j - la);
                lemma_contained_disjoint(
                    ra,
                    rb,
                    spec_pane_regions(node, rect, spacing)[i].1,
                    spec_pane_regions(node, rect, spacing)[j].1,
                );
            }
        },
    }
}

/// The region list names exactly the tree's panes, in the same
/// pre-order.
pub proof fn lemma_regions_panes_len(node: Node, rect: Rectangle, spacing: u32)
    ensures
        spec_pane_regions(node, rect, spacing).len() == node.panes().len(),
    decreases node,
{
    match node {
        Node::Pane(_) => {},
        Node::Split { axis, ratio, a, b, .. } => {
            let (ra, rb) = spec_child_rects(rect, axis, ratio, spacing);
            lemma_regions_panes_len(*a, ra, spacing);
            lemma_regions_panes_len(*b, rb, spacing);
        },
    }
}

/// The `i`-th listed region belongs to the `i`-th pane of the tree.
pub proof fn lemma_regions_panes_at(node: Node, rect: Rectangle, spacing: u32, i: int)
    requires
        0 <= i < spec_pane_regions(node, rect, spacing).len(),
    ensures
        spec_pane_regions(node, rect, spacing)[i].0 == node.panes()[i],
    decreases node,
{
    match node {
        Node::Pane(_) => {},
        Node::Split { axis, ratio, a, b, .. } => {
            let (ra, rb) = spec_child_rects(rect, axis, ratio, spacing);
            lemma_regions_panes_len(*a, ra, spacing);
            lemma_regions_panes_len(*b, rb, spacing);
            let la = spec_pane_regions(*a, ra, spacing).len() as int;
            if i < la {
                lemma_regions_panes_at(*a, ra, spacing, i);
            } else {
                lemma_regions_panes_at(*b, rb, spacing, i - la);
            }
        },
    }
}


/// Every listed split region carries a well-formed rectangle and a
/// ratio within the scale.
pub proof fn lemma_split_region_entry(node: Node, rect: Rectangle, spacing: u32, i: int)
    requires
        node.ratios_valid(),
        rect.spec_wf(),
        0 <= i < spec_split_regions(node, rect, spacing).len(),
    ensures
        spec_split_regions(node, rect, spacing)[i].2.spec_wf(),
        spec_split_regions(node, rect, spacing)[i].3 <= RATIO_UNIT,
        RATIO_MIN <= spec_split_regions(node, rect, spacing)[i].3 <= RATIO_MAX,
    decreases node,
{
    match node {
        Node::Pane(_) => {},
        Node::Split { axis, ratio, a, b, .. } => {
            let (ra, rb) = spec_child_rects(rect, axis, ratio, spacing);
            lemma_child_rects_within(rect, axis, ratio, spacing);
            let la = spec_split_regions(*a, ra, spacing).len() as int;
            if i == 0 {
            } else if i - 1 < la {
                lemma_split_region_entry(*a, ra, spacing, i - 1);
            } else {
                lemma_split_region_entry(*b, rb, spacing, i - 1 - la);
            }
        },
    }
}

} // verus!


