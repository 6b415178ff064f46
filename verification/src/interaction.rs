//! Interaction state and split proximity: which pane has focus, which
//! pane is being dragged, which split is being resized, and which split
//! a resize grab selects.
//!
//! Picking a pane and picking a split are mutually exclusive
//! interaction modes; the state's invariant keeps at most one of them
//! set. Split selection is by geometric distance: every branch's
//! divider midpoint is measured against the pointer by Euclidean
//! distance rounded to the nearest integer, the branch with the
//! smallest rounded distance wins, and a tie goes to the first in
//! traversal order. The rounding is what makes near-ties stable.

use vstd::prelude::*;

use crate::geometry::Point;
use crate::geometry::Rectangle;
use crate::geometry::RATIO_UNIT;
use crate::tree::Axis;
use crate::tree::Pane;
use crate::tree::Split;

verus! {

/// Transient interaction-only state.
#[derive(Clone, Copy, Debug)]
pub struct Interaction {
    /// The pane that currently has focus, if any.
    pub focus: Option<Pane>,
    /// The pane being dragged, if any.
    pub picked_pane: Option<Pane>,
    /// The split being resized, with its axis, if any.
    pub picked_split: Option<(Split, Axis)>,
}

impl Interaction {
    /// At most one of the two picking modes is active.
    pub open spec fn wf(self) -> bool {
        !(self.picked_pane is Some && self.picked_split is Some)
    }

    /// The idle state: nothing focused, nothing picked.
    pub fn new() -> (r: Interaction)
        ensures
            r.wf(),
            r.focus is None,
            r.picked_pane is None,
            r.picked_split is None,
    {
        Interaction { focus: None, picked_pane: None, picked_split: None }
    }

    /// Gives `pane` the focus; nothing else changes.
    pub fn focus(&mut self, pane: Pane)
        ensures
            *final(self) == (Interaction { focus: Some(pane), ..*old(self) }),
    {
        self.focus = Some(pane);
    }

    /// Clears the focus; nothing else changes.
    pub fn unfocus(&mut self)
        ensures
            *final(self) == (Interaction { focus: None, ..*old(self) }),
    {
        self.focus = None;
    }

    /// Begins dragging `pane`; any split pick ends, as the two modes
    /// exclude each other.
    pub fn pick_pane(&mut self, pane: Pane)
        ensures
            final(self).wf(),
            *final(self) == (Interaction {
                picked_pane: Some(pane),
                picked_split: None,
                ..*old(self)
            }),
    {
        self.picked_pane = Some(pane);
        self.picked_split = None;
    }

    /// Ends a pane drag; nothing else changes.
    pub fn drop_pane(&mut self)
        ensures
            final(self).wf(),
            *final(self) == (Interaction { picked_pane: None, ..*old(self) }),
    {
        self.picked_pane = None;
    }

    /// Begins resizing `split` along `axis`; entered only while no pane
    /// is picked.
    pub fn pick_split(&mut self, split: Split, axis: Axis)
        requires
            old(self).picked_pane is None,
        ensures
            final(self).wf(),
            *final(self) == (Interaction {
                picked_split: Some((split, axis)),
                ..*old(self)
            }),
    {
        self.picked_split = Some((split, axis));
    }

    /// Ends a split resize; nothing else changes.
    pub fn drop_split(&mut self)
        ensures
            final(self).wf(),
            *final(self) == (Interaction { picked_split: None, ..*old(self) }),
    {
        self.picked_split = None;
    }

    /// The pane being dragged, if any.
    pub fn picked_pane(&self) -> (r: Option<Pane>)
        ensures
            r == self.picked_pane,
    {
        self.picked_pane
    }

    /// The split being resized, with its axis, if any.
    pub fn picked_split(&self) -> (r: Option<(Split, Axis)>)
        ensures
            r == self.picked_split,
    {
        self.picked_split
    }
}

/// The midpoint of a split's divider line within its undivided
/// rectangle: for a horizontal-axis split, halfway across the width at
/// the ratio's height; for a vertical-axis split, at the ratio's width
/// halfway down the height.
pub open spec fn spec_midpoint(axis: Axis, rect: Rectangle, ratio: u32) -> Point {
    match axis {
        Axis::Horizontal => Point {
            x: (rect.x + rect.width / 2) as u32,
            y: (rect.y + rect.height * ratio / (RATIO_UNIT as int)) as u32,
        },
        Axis::Vertical => Point {
            x: (rect.x + rect.width * ratio / (RATIO_UNIT as int)) as u32,
            y: (rect.y + rect.height / 2) as u32,
        },
    }
}

/// The squared Euclidean distance between two points, exact in
/// integers; the input to the rounding step.
pub open spec fn spec_dist2(a: Point, b: Point) -> int {
    (a.x - b.x) * (a.x - b.x) + (a.y - b.y) * (a.y - b.y)
}

/// Computes a split's divider midpoint.
pub fn midpoint(axis: Axis, rect: Rectangle, ratio: u32) -> (p: Point)
    requires
        rect.spec_wf(),
        ratio <= RATIO_UNIT,
    ensures
        p == spec_midpoint(axis, rect, ratio),
{
    proof {
        assert((rect.height as int) * (ratio as int) <= (u32::MAX as int) * (RATIO_UNIT as int))
            by (nonlinear_arith)
            requires
                rect.height as int <= u32::MAX as int,
                0 <= ratio as int <= RATIO_UNIT as int,
        ;
        assert((rect.width as int) * (ratio as int) <= (u32::MAX as int) * (RATIO_UNIT as int))
            by (nonlinear_arith)
            requires
                rect.width as int <= u32::MAX as int,
                0 <= ratio as int <= RATIO_UNIT as int,
        ;
        vstd::arithmetic::mul::lemma_mul_inequality(
            ratio as int,
            RATIO_UNIT as int,
            rect.height as int,
        );
        assert((rect.height as int) * (ratio as int) == (ratio as int) * (rect.height as int))
            by (nonlinear_arith);
        assert((rect.height as int) * (RATIO_UNIT as int) == (RATIO_UNIT as int) * (
        rect.height as int)) by (nonlinear_arith);
        vstd::arithmetic::div_mod::lemma_div_is_ordered(
            (rect.height as int) * (ratio as int),
            (rect.height as int) * (RATIO_UNIT as int),
            RATIO_UNIT as int,
        );
        vstd::arithmetic::div_mod::lemma_div_by_multiple(rect.height as int, RATIO_UNIT as int);
        vstd::arithmetic::mul::lemma_mul_inequality(
            ratio as int,
            RATIO_UNIT as int,
            rect.width as int,
        );
        assert((rect.width as int) * (ratio as int) == (ratio as int) * (rect.width as int))
            by (nonlinear_arith);
        assert((rect.width as int) * (RATIO_UNIT as int) == (RATIO_UNIT as int) * (
        rect.width as int)) by (nonlinear_arith);
        vstd::arithmetic::div_mod::lemma_div_is_ordered(
            (rect.width as int) * (ratio as int),
            (rect.width as int) * (RATIO_UNIT as int),
            RATIO_UNIT as int,
        );
        vstd::arithmetic::div_mod::lemma_div_by_multiple(rect.width as int, RATIO_UNIT as int);
    }
    match axis {
        Axis::Horizontal => Point {
            x: rect.x + rect.width / 2,
            y: rect.y + (((rect.height as u64) * (ratio as u64) / (RATIO_UNIT as u64)) as u32),
        },
        Axis::Vertical => Point {
            x: rect.x + (((rect.width as u64) * (ratio as u64) / (RATIO_UNIT as u64)) as u32),
            y: rect.y + rect.height / 2,
        },
    }
}

/// Computes the squared distance between two points.
pub fn dist2(a: Point, b: Point) -> (d: u128)
    ensures
        d == spec_dist2(a, b),
{
    let dx: u64 = if a.x >= b.x {
        (a.x - b.x) as u64
    } else {
        (b.x - a.x) as u64
    };
    let dy: u64 = if a.y >= b.y {
        (a.y - b.y) as u64
    } else {
        (b.y - a.y) as u64
    };
    proof {
        assert((dx as int) * (dx as int) == (a.x - b.x) * (a.x - b.x)) by (nonlinear_arith)
            requires
                dx as int == a.x - b.x || dx as int == b.x - a.x,
        ;
        assert((dy as int) * (dy as int) == (a.y - b.y) * (a.y - b.y)) by (nonlinear_arith)
            requires
                dy as int == a.y - b.y || dy as int == b.y - a.y,
        ;
        assert((dx as int) * (dx as int) <= (u32::MAX as int) * (u32::MAX as int))
            by (nonlinear_arith)
            requires
                0 <= dx as int <= u32::MAX as int,
        ;
        assert((dy as int) * (dy as int) <= (u32::MAX as int) * (u32::MAX as int))
            by (nonlinear_arith)
            requires
                0 <= dy as int <= u32::MAX as int,
        ;
    }
    (dx as u128) * (dx as u128) + (dy as u128) * (dy as u128)
}

/// Whether `r` is `sqrt(n)` rounded to the nearest integer: `sqrt(n)`
/// lies in `[r - 1/2, r + 1/2)`, stated over squares to stay in
/// integers.
pub open spec fn is_rounded_root(n: int, r: int) -> bool {
    0 <= r && (r == 0 || (2 * r - 1) * (2 * r - 1) <= 4 * n) && 4 * n < (2 * r + 1) * (2 * r + 1)
}

/// At most one integer is the rounded root of `n`.
pub proof fn lemma_rounded_root_unique(n: int, r1: int, r2: int)
    requires
        is_rounded_root(n, r1),
        is_rounded_root(n, r2),
    ensures
        r1 == r2,
{
    if r1 < r2 {
        assert((2 * r1 + 1) * (2 * r1 + 1) <= (2 * r2 - 1) * (2 * r2 - 1)) by (nonlinear_arith)
            requires
                0 <= r1,
                r1 + 1 <= r2,
        ;
    }
    if r2 < r1 {
        assert((2 * r2 + 1) * (2 * r2 + 1) <= (2 * r1 - 1) * (2 * r1 - 1)) by (nonlinear_arith)
            requires
                0 <= r2,
                r2 + 1 <= r1,
        ;
    }
}

/// The Euclidean distance between two points rounded to the nearest
/// integer: the measure split selection compares.
pub open spec fn spec_rounded_dist(a: Point, b: Point) -> int {
    choose|r: int| is_rounded_root(spec_dist2(a, b), r)
}

/// Computes the Euclidean distance between two points, rounded to the
/// nearest integer.
pub fn rounded_dist(a: Point, b: Point) -> (r: u64)
    ensures
        is_rounded_root(spec_dist2(a, b), r as int),
        r as int == spec_rounded_dist(a, b),
{
    let d2: u128 = dist2(a, b);
    proof {
        assert((a.x - b.x) * (a.x - b.x) <= (u32::MAX as int) * (u32::MAX as int))
            by (nonlinear_arith)
            requires
                0 <= a.x as int <= u32::MAX as int,
                0 <= b.x as int <= u32::MAX as int,
        ;
        assert((a.y - b.y) * (a.y - b.y) <= (u32::MAX as int) * (u32::MAX as int))
            by (nonlinear_arith)
            requires
                0 <= a.y as int <= u32::MAX as int,
                0 <= b.y as int <= u32::MAX as int,
        ;
        assert((d2 as int) < (0x200000000 as int) * (0x200000000 as int)) by (nonlinear_arith)
            requires
                d2 as int <= 2 * ((u32::MAX as int) * (u32::MAX as int)),
        ;
    }
    let mut lo: u128 = 0;
    let mut hi: u128 = 0x200000000;
    while lo + 1 < hi
        invariant
            lo < hi <= 0x200000000u128,
            (lo as int) * (lo as int) <= d2 as int,
            (d2 as int) < (hi as int) * (hi as int),
        decreases hi - lo,
    {
        let mid = lo + (hi - lo) / 2;
        proof {
            assert((mid as int) * (mid as int) <= (0x200000000 as int) * (0x200000000 as int))
                by (nonlinear_arith)
                requires
                    0 <= mid as int <= 0x200000000 as int,
            ;
        }
        if mid * mid <= d2 {
            lo = mid;
        } else {
            hi = mid;
        }
    }
    proof {
        assert((lo as int) * ((lo as int) + 1) <= (0x200000000 as int) * (0x200000000 as int))
            by (nonlinear_arith)
            requires
                0 <= lo as int,
                (lo as int) + 1 <= 0x200000000 as int,
        ;
    }
    let threshold = lo * (lo + 1);
    let r: u128 = if d2 > threshold {
        lo + 1
    } else {
        lo
    };
    proof {
        let n = d2 as int;
        let l = lo as int;
        assert(l * l <= n);
        assert(n < (l + 1) * (l + 1));
        if n > l * (l + 1) {
            assert((2 * (l + 1) - 1) * (2 * (l + 1) - 1) <= 4 * n) by (nonlinear_arith)
                requires
                    0 <= l,
                    n > l * (l + 1),
            ;
            assert(4 * n < (2 * (l + 1) + 1) * (2 * (l + 1) + 1)) by (nonlinear_arith)
                requires
                    0 <= l,
                    n < (l + 1) * (l + 1),
            ;
        } else {
            assert(4 * n < (2 * l + 1) * (2 * l + 1)) by (nonlinear_arith)
                requires
                    0 <= l,
                    n <= l * (l + 1),
            ;
            if l >= 1 {
                assert((2 * l - 1) * (2 * l - 1) <= 4 * n) by (nonlinear_arith)
                    requires
                        1 <= l,
                        l * l <= n,
                ;
            }
        }
        assert(is_rounded_root(spec_dist2(a, b), r as int));
        assert(exists|rr: int| is_rounded_root(spec_dist2(a, b), rr));
        let c = choose|rr: int| is_rounded_root(spec_dist2(a, b), rr);
        lemma_rounded_root_unique(spec_dist2(a, b), r as int, c);
    }
    r as u64
}

/// The midpoint of one entry of a split-region list.
pub open spec fn spec_entry_midpoint(e: (Split, Axis, Rectangle, u32)) -> Point {
    spec_midpoint(e.1, e.2, e.3)
}

/// Index `i` is the selected split for `cursor`: its midpoint is at
/// minimal rounded Euclidean distance, and every earlier entry is
/// strictly farther after rounding -- the first minimum in traversal
/// order.
pub open spec fn is_nearest_choice(
    splits: Seq<(Split, Axis, Rectangle, u32)>,
    cursor: Point,
    i: int,
) -> bool {
    0 <= i < splits.len() && (forall|j: int|
        0 <= j < splits.len() ==> spec_rounded_dist(spec_entry_midpoint(splits[i]), cursor)
            <= spec_rounded_dist(spec_entry_midpoint(#[trigger] splits[j]), cursor)) && (forall|
        j: int,
    |
        0 <= j < i ==> spec_rounded_dist(spec_entry_midpoint(#[trigger] splits[j]), cursor)
            > spec_rounded_dist(spec_entry_midpoint(splits[i]), cursor))
}

/// The selected split is unique: the tie-break on traversal order
/// leaves exactly one admissible index, so repeated selection with the
/// same inputs resolves to the same split.
pub proof fn lemma_nearest_choice_unique(
    splits: Seq<(Split, Axis, Rectangle, u32)>,
    cursor: Point,
    i: int,
    j: int,
)
    requires
        is_nearest_choice(splits, cursor, i),
        is_nearest_choice(splits, cursor, j),
    ensures
        i == j,
{
    if i < j {
        assert(spec_rounded_dist(spec_entry_midpoint(splits[i]), cursor) > spec_rounded_dist(
            spec_entry_midpoint(splits[j]),
            cursor,
        ));
        assert(spec_rounded_dist(spec_entry_midpoint(splits[i]), cursor) <= spec_rounded_dist(
            spec_entry_midpoint(splits[j]),
            cursor,
        ));
    } else if j < i {
        assert(spec_rounded_dist(spec_entry_midpoint(splits[j]), cursor) > spec_rounded_dist(
            spec_entry_midpoint(splits[i]),
            cursor,
        ));
        assert(spec_rounded_dist(spec_entry_midpoint(splits[j]), cursor) <= spec_rounded_dist(
            spec_entry_midpoint(splits[i]),
            cursor,
        ));
    }
}

/// The split a resize grab selects: the entry at the unique index that
/// [`is_nearest_choice`] admits; `None` only for an empty list.
pub open spec fn spec_nearest(splits: Seq<(Split, Axis, Rectangle, u32)>, cursor: Point) -> Option<
    (Split, Axis),
> {
    if splits.len() == 0 {
        None
    } else {
        let i = choose|i: int| is_nearest_choice(splits, cursor, i);
        Some((splits[i].0, splits[i].1))
    }
}

/// Selects the split to grab for a resize at `cursor`: the entry
/// whose divider midpoint is nearest by rounded Euclidean distance,
/// the first in traversal order on a tie; `None` only when the list
/// is empty.
pub fn find_nearest_split(splits: &Vec<(Split, Axis, Rectangle, u32)>, cursor: Point) -> (r:
    Option<(Split, Axis)>)
    requires
        forall|i: int|
            0 <= i < splits@.len() ==> (#[trigger] splits@[i]).2.spec_wf() && splits@[i].3
                <= RATIO_UNIT,
    ensures
        r == spec_nearest(splits@, cursor),
        match r {
            None => splits@.len() == 0,
            Some((s, ax)) => exists|i: int|
                #[trigger] is_nearest_choice(splits@, cursor, i) && splits@[i].0 == s
                    && splits@[i].1 == ax,
        },
{
    if splits.len() == 0 {
        return None;
    }
    let e0 = splits[0];
    let mut best_i: usize = 0;
    let mut best_d: u64 = rounded_dist(midpoint(e0.1, e0.2, e0.3), cursor);
    let mut k: usize = 1;
    while k < splits.len()
        invariant
            1 <= k <= splits@.len(),
            0 <= best_i < k,
            forall|i: int|
                0 <= i < splits@.len() ==> (#[trigger] splits@[i]).2.spec_wf() && splits@[i].3
                    <= RATIO_UNIT,
            best_d == spec_rounded_dist(spec_entry_midpoint(splits@[best_i as int]), cursor),
            forall|j: int|
                0 <= j < k ==> best_d <= spec_rounded_dist(
                    spec_entry_midpoint(#[trigger] splits@[j]),
                    cursor,
                ),
            forall|j: int|
                0 <= j < best_i ==> spec_rounded_dist(
                    spec_entry_midpoint(#[trigger] splits@[j]),
                    cursor,
                ) > best_d,
        decreases splits@.len() - k,
    {
        let e = splits[k];
        let d = rounded_dist(midpoint(e.1, e.2, e.3), cursor);
        if d < best_d {
            best_i = k;
            best_d = d;
        }
        k = k + 1;
    }
    proof {
        assert(is_nearest_choice(splits@, cursor, best_i as int));
        let i = choose|i: int| is_nearest_choice(splits@, cursor, i);
        lemma_nearest_choice_unique(splits@, cursor, best_i as int, i);
    }
    let chosen = splits[best_i];
    Some((chosen.0, chosen.1))
}

} // verus!
