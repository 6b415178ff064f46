//! The event translator: raw pointer and modifier input, plus the
//! current interaction state, become pick, drag, drop and resize
//! events and pane-focus changes.
//!
//! The grid is a state machine over the interaction state: idle,
//! dragging a pane, or resizing a split. Transitions are gated by a
//! live modifier flag and by whether a drag or resize handler is
//! registered; without the handler the feature is inert, while a
//! secondary release always ends any split pick, whatever the flags
//! say. A cancelled drag is a normal outcome, not a fault. While a
//! pane is picked the grid intercepts all input: no event is forwarded
//! to pane content.

use vstd::prelude::*;

use crate::geometry::clamp_ratio;
use crate::geometry::spec_clamp_ratio;
use crate::geometry::Point;
use crate::geometry::Rectangle;
use crate::geometry::Size;
use crate::geometry::RATIO_UNIT;
use crate::interaction::find_nearest_split;
use crate::interaction::spec_nearest;
use crate::interaction::Interaction;
use crate::regions::lemma_split_region_entry;
use crate::regions::spec_container_rect;
use crate::regions::spec_pane_regions;
use crate::regions::spec_split_regions;
use crate::tree::lemma_wf_ratios_valid;
use crate::tree::Axis;
use crate::tree::Node;
use crate::tree::Pane;
use crate::tree::Split;
use crate::tree::Tree;

verus! {

/// How the grid sizes itself in its host layout.
#[derive(Clone, Copy, PartialEq, Eq, Structural, Debug)]
pub enum Length {
    Fill,
    Shrink,
    Units(u16),
}

/// A pane-drag notification.
#[derive(Clone, Copy, PartialEq, Eq, Structural, Debug)]
pub enum DragEvent {
    /// A pane was picked up.
    Picked { pane: Pane },
    /// A picked pane was released over a distinct target pane.
    Dropped { pane: Pane, target: Pane },
    /// A picked pane was released with no distinct target under the
    /// pointer.
    Canceled { pane: Pane },
}

/// A resize notification: the candidate ratio for a split, already
/// clamped; the caller applies it through [`Tree::resize`].
#[derive(Clone, Copy, PartialEq, Eq, Structural, Debug)]
pub struct ResizeEvent {
    pub split: Split,
    pub ratio: u32,
}

/// A raw input event, as the host's event loop reports it.
#[derive(Clone, Copy, PartialEq, Eq, Structural, Debug)]
pub enum PointerEvent {
    PrimaryPressed,
    PrimaryReleased,
    SecondaryPressed,
    SecondaryReleased,
    CursorMoved,
    ModifiersChanged { alt: bool },
}

/// What the grid emits for one input event.
#[derive(Clone, Copy, PartialEq, Eq, Structural, Debug)]
pub enum GridEvent {
    /// A drag notification for the host.
    Drag(DragEvent),
    /// A resize notification for the host.
    Resize(ResizeEvent),
    /// The event is handed on to this pane's content.
    Forward { pane: Pane },
}

/// The pane grid's configuration: its size request, the spacing
/// between panes, and whether drag and resize handlers are registered.
#[derive(Clone, Copy, PartialEq, Eq, Structural, Debug)]
pub struct PaneGrid {
    pub width: Length,
    pub height: Length,
    pub spacing: u16,
    pub on_drag: bool,
    pub on_resize: bool,
}

impl PaneGrid {
    /// A grid that fills its host, with no spacing and no handlers.
    pub fn new() -> (r: PaneGrid)
        ensures
            r == (PaneGrid {
                width: Length::Fill,
                height: Length::Fill,
                spacing: 0u16,
                on_drag: false,
                on_resize: false,
            }),
    {
        PaneGrid {
            width: Length::Fill,
            height: Length::Fill,
            spacing: 0,
            on_drag: false,
            on_resize: false,
        }
    }

    /// Sets the width request of the grid.
    pub fn width(self, width: Length) -> (r: PaneGrid)
        ensures
            r == (PaneGrid { width, ..self }),
    {
        PaneGrid { width, ..self }
    }

    /// Sets the height request of the grid.
    pub fn height(self, height: Length) -> (r: PaneGrid)
        ensures
            r == (PaneGrid { height, ..self }),
    {
        PaneGrid { height, ..self }
    }

    /// Sets the spacing between the panes of the grid.
    pub fn spacing(self, units: u16) -> (r: PaneGrid)
        ensures
            r == (PaneGrid { spacing: units, ..self }),
    {
        PaneGrid { spacing: units, ..self }
    }

    /// Registers the drag handler, enabling pane picking.
    pub fn on_drag(self) -> (r: PaneGrid)
        ensures
            r == (PaneGrid { on_drag: true, ..self }),
    {
        PaneGrid { on_drag: true, ..self }
    }

    /// Registers the resize handler, enabling split resizing.
    pub fn on_resize(self) -> (r: PaneGrid)
        ensures
            r == (PaneGrid { on_resize: true, ..self }),
    {
        PaneGrid { on_resize: true, ..self }
    }
}

/// The first pane, in pre-order, whose region contains the point.
pub open spec fn spec_hit_pane(regions: Seq<(Pane, Rectangle)>, p: Point) -> Option<Pane>
    decreases regions.len(),
{
    if regions.len() == 0 {
        None
    } else if regions[0].1.spec_contains(p) {
        Some(regions[0].0)
    } else {
        spec_hit_pane(regions.drop_first(), p)
    }
}

/// Finds the first pane whose region contains the point.
pub fn hit_pane(regions: &Vec<(Pane, Rectangle)>, p: Point) -> (r: Option<Pane>)
    ensures
        r == spec_hit_pane(regions@, p),
{
    proof {
        assert(regions@.skip(0) =~= regions@);
    }
    let mut i: usize = 0;
    while i < regions.len()
        invariant
            0 <= i <= regions@.len(),
            spec_hit_pane(regions@, p) == spec_hit_pane(regions@.skip(i as int), p),
        decreases regions@.len() - i,
    {
        proof {
            assert(regions@.skip(i as int)[0] == regions@[i as int]);
            assert(regions@.skip(i as int).drop_first() =~= regions@.skip(i as int + 1));
        }
        if regions[i].1.contains(p) {
            return Some(regions[i].0);
        }
        i = i + 1;
    }
    proof {
        assert(regions@.skip(regions@.len() as int) =~= Seq::<(Pane, Rectangle)>::empty());
    }
    None
}

/// The first entry of a split-region list naming split `s`.
pub open spec fn spec_find_split(splits: Seq<(Split, Axis, Rectangle, u32)>, s: Split) -> Option<
    (Split, Axis, Rectangle, u32),
>
    decreases splits.len(),
{
    if splits.len() == 0 {
        None
    } else if splits[0].0 == s {
        Some(splits[0])
    } else {
        spec_find_split(splits.drop_first(), s)
    }
}

/// Finds the region entry of split `s`.
pub fn find_split(splits: &Vec<(Split, Axis, Rectangle, u32)>, s: Split) -> (r: Option<
    (Split, Axis, Rectangle, u32),
>)
    ensures
        r == spec_find_split(splits@, s),
{
    proof {
        assert(splits@.skip(0) =~= splits@);
    }
    let mut i: usize = 0;
    while i < splits.len()
        invariant
            0 <= i <= splits@.len(),
            spec_find_split(splits@, s) == spec_find_split(splits@.skip(i as int), s),
        decreases splits@.len() - i,
    {
        proof {
            assert(splits@.skip(i as int)[0] == splits@[i as int]);
            assert(splits@.skip(i as int).drop_first() =~= splits@.skip(i as int + 1));
        }
        if splits[i].0 == s {
            return Some(splits[i]);
        }
        i = i + 1;
    }
    proof {
        assert(splits@.skip(splits@.len() as int) =~= Seq::<(Split, Axis, Rectangle, u32)>::empty());
    }
    None
}

/// The candidate ratio a resize drag reports: the pointer position
/// projected onto the split's axis within the split's recorded
/// rectangle, normalized to the ratio scale and clamped into the
/// stored range. `None` when the rectangle has no extent along the
/// axis.
pub open spec fn spec_resize_ratio(axis: Axis, rect: Rectangle, cursor: Point) -> Option<u32> {
    let pos = match axis {
        Axis::Horizontal => cursor.x,
        Axis::Vertical => cursor.y,
    };
    let start = match axis {
        Axis::Horizontal => rect.x,
        Axis::Vertical => rect.y,
    };
    let extent = match axis {
        Axis::Horizontal => rect.width,
        Axis::Vertical => rect.height,
    };
    if extent == 0 {
        None
    } else {
        let offset = if pos < start {
            0
        } else if pos - start > extent {
            extent as int
        } else {
            pos - start
        };
        Some(spec_clamp_ratio((offset * RATIO_UNIT / (extent as int)) as u32))
    }
}

/// Computes the candidate resize ratio for a pointer position.
pub fn resize_ratio(axis: Axis, rect: Rectangle, cursor: Point) -> (r: Option<u32>)
    requires
        rect.spec_wf(),
    ensures
        r == spec_resize_ratio(axis, rect, cursor),
{
    let pos: u32 = match axis {
        Axis::Horizontal => cursor.x,
        Axis::Vertical => cursor.y,
    };
    let start: u32 = match axis {
        Axis::Horizontal => rect.x,
        Axis::Vertical => rect.y,
    };
    let extent: u32 = match axis {
        Axis::Horizontal => rect.width,
        Axis::Vertical => rect.height,
    };
    if extent == 0 {
        return None;
    }
    let offset: u32 = if pos < start {
        0
    } else if pos - start > extent {
        extent
    } else {
        pos - start
    };
    proof {
        assert((offset as int) * (RATIO_UNIT as int) <= (u32::MAX as int) * (RATIO_UNIT as int))
            by (nonlinear_arith)
            requires
                0 <= offset as int <= u32::MAX as int,
        ;
        vstd::arithmetic::mul::lemma_mul_inequality(
            offset as int,
            extent as int,
            RATIO_UNIT as int,
        );
        assert((offset as int) * (RATIO_UNIT as int) == (RATIO_UNIT as int) * (offset as int))
            by (nonlinear_arith);
        assert((extent as int) * (RATIO_UNIT as int) == (RATIO_UNIT as int) * (extent as int))
            by (nonlinear_arith);
        vstd::arithmetic::div_mod::lemma_div_is_ordered(
            (offset as int) * (RATIO_UNIT as int),
            (extent as int) * (RATIO_UNIT as int),
            extent as int,
        );
        vstd::arithmetic::div_mod::lemma_div_by_multiple(RATIO_UNIT as int, extent as int);
    }
    let raw = ((offset as u64) * (RATIO_UNIT as u64) / (extent as u64)) as u32;
    Some(clamp_ratio(raw))
}

/// Events are forwarded to pane content only while no pane is picked,
/// and go to the pane whose region contains the pointer.
pub open spec fn spec_forward(picked: Option<Pane>, hit: Option<Pane>) -> Seq<GridEvent> {
    match (picked, hit) {
        (None, Some(p)) => seq![GridEvent::Forward { pane: p }],
        _ => seq![],
    }
}

/// The resize notifications an event produces: one, for the picked
/// split's candidate ratio, when a resize handler is registered, a
/// split is picked, its region is known and the ratio is computable;
/// none otherwise.
pub open spec fn spec_resize_msgs(
    grid: PaneGrid,
    splits: Seq<(Split, Axis, Rectangle, u32)>,
    i: Interaction,
    cursor: Point,
) -> Seq<GridEvent> {
    if grid.on_resize && i.picked_split is Some {
        let (s, _ax) = i.picked_split->0;
        match spec_find_split(splits, s) {
            Some(e) => match spec_resize_ratio(e.1, e.2, cursor) {
                Some(ratio) => seq![GridEvent::Resize(ResizeEvent { split: s, ratio })],
                None => seq![],
            },
            None => seq![],
        }
    } else {
        seq![]
    }
}

/// The translator's transition function: for one raw event, the next
/// interaction state, the next modifier flag, and the emitted events,
/// in order.
pub open spec fn spec_on_event(
    grid: PaneGrid,
    root: Node,
    i0: Interaction,
    alt0: bool,
    event: PointerEvent,
    cursor: Point,
    size: Size,
) -> (Interaction, bool, Seq<GridEvent>) {
    let rp = spec_pane_regions(root, spec_container_rect(size), grid.spacing as u32);
    let rs = spec_split_regions(root, spec_container_rect(size), grid.spacing as u32);
    let hit = spec_hit_pane(rp, cursor);
    match event {
        PointerEvent::PrimaryPressed => {
            let (i2, ms) = match hit {
                Some(p) => if grid.on_drag && alt0 {
                    (
                        Interaction { picked_pane: Some(p), picked_split: None, ..i0 },
                        seq![GridEvent::Drag(DragEvent::Picked { pane: p })],
                    )
                } else {
                    (Interaction { focus: Some(p), ..i0 }, Seq::<GridEvent>::empty())
                },
                None => (Interaction { focus: None, ..i0 }, Seq::<GridEvent>::empty()),
            };
            (i2, alt0, ms + spec_forward(i2.picked_pane, hit))
        },
        PointerEvent::PrimaryReleased => {
            match i0.picked_pane {
                Some(pane) => {
                    let i2 = Interaction { focus: Some(pane), picked_pane: None, ..i0 };
                    let ms = if grid.on_drag {
                        match hit {
                            Some(target) => if target != pane {
                                seq![GridEvent::Drag(DragEvent::Dropped { pane, target })]
                            } else {
                                seq![GridEvent::Drag(DragEvent::Canceled { pane })]
                            },
                            None => seq![GridEvent::Drag(DragEvent::Canceled { pane })],
                        }
                    } else {
                        Seq::<GridEvent>::empty()
                    };
                    (i2, alt0, ms + spec_forward(i2.picked_pane, hit))
                },
                None => (i0, alt0, spec_forward(i0.picked_pane, hit)),
            }
        },
        PointerEvent::SecondaryPressed => {
            if grid.on_resize && i0.picked_pane is None && alt0 {
                match spec_nearest(rs, cursor) {
                    Some((s, ax)) => {
                        let i2 = Interaction { picked_split: Some((s, ax)), ..i0 };
                        let ms = spec_resize_msgs(grid, rs, i2, cursor);
                        (i2, alt0, ms + spec_forward(i2.picked_pane, hit))
                    },
                    None => (i0, alt0, spec_forward(i0.picked_pane, hit)),
                }
            } else {
                (i0, alt0, spec_forward(i0.picked_pane, hit))
            }
        },
        PointerEvent::SecondaryReleased => {
            let i2 = Interaction { picked_split: None, ..i0 };
            (i2, alt0, spec_forward(i2.picked_pane, hit))
        },
        PointerEvent::CursorMoved => {
            let ms = spec_resize_msgs(grid, rs, i0, cursor);
            (i0, alt0, ms + spec_forward(i0.picked_pane, hit))
        },
        PointerEvent::ModifiersChanged { alt } => (i0, alt, spec_forward(i0.picked_pane, hit)),
    }
}

/// Appends the resize notifications for the current pointer position.
fn push_resize(
    grid: &PaneGrid,
    splits: &Vec<(Split, Axis, Rectangle, u32)>,
    interaction: &Interaction,
    cursor: Point,
    msgs: &mut Vec<GridEvent>,
)
    requires
        forall|i: int| 0 <= i < splits@.len() ==> (#[trigger] splits@[i]).2.spec_wf(),
    ensures
        final(msgs)@ == old(msgs)@ + spec_resize_msgs(*grid, splits@, *interaction, cursor),
{
    let ghost expected = spec_resize_msgs(*grid, splits@, *interaction, cursor);
    if grid.on_resize {
        match interaction.picked_split() {
            Some((s, _ax)) => {
                match find_split(splits, s) {
                    Some(e) => {
                        proof {
                            lemma_find_split_entry_wf(splits@, s);
                        }
                        match resize_ratio(e.1, e.2, cursor) {
                            Some(ratio) => {
                                msgs.push(GridEvent::Resize(ResizeEvent { split: s, ratio }));
                                proof {
                                    assert(final(msgs)@ =~= old(msgs)@ + expected);
                                }
                            },
                            None => {
                                proof {
                                    assert(final(msgs)@ =~= old(msgs)@ + expected);
                                }
                            },
                        }
                    },
                    None => {
                        proof {
                            assert(final(msgs)@ =~= old(msgs)@ + expected);
                        }
                    },
                }
            },
            None => {
                proof {
                    assert(final(msgs)@ =~= old(msgs)@ + expected);
                }
            },
        }
    } else {
        proof {
            assert(final(msgs)@ =~= old(msgs)@ + expected);
        }
    }
}

/// A found split entry carries a rectangle from the list, so it
/// inherits the list's well-formedness.
proof fn lemma_find_split_entry_wf(splits: Seq<(Split, Axis, Rectangle, u32)>, s: Split)
    requires
        forall|i: int| 0 <= i < splits.len() ==> (#[trigger] splits[i]).2.spec_wf(),
        spec_find_split(splits, s) is Some,
    ensures
        spec_find_split(splits, s)->Some_0.2.spec_wf(),
    decreases splits.len(),
{
    if splits.len() > 0 && splits[0].0 != s {
        assert forall|i: int| 0 <= i < splits.drop_first().len() implies (#[trigger] splits.drop_first()[i]).2.spec_wf() by {
            assert(splits.drop_first()[i] == splits[i + 1]);
        }
        lemma_find_split_entry_wf(splits.drop_first(), s);
    }
}

/// The extent a length request resolves to within what the host
/// offers: a fill or shrink request takes the offered extent, a fixed
/// request takes its own size capped by the offer.
pub open spec fn spec_resolve_extent(len: Length, avail: u32) -> u32 {
    match len {
        Length::Fill => avail,
        Length::Shrink => avail,
        Length::Units(u) => if (u as u32) < avail {
            u as u32
        } else {
            avail
        },
    }
}

/// Resolves a length request against an offered extent.
pub fn resolve_extent(len: Length, avail: u32) -> (r: u32)
    ensures
        r == spec_resolve_extent(len, avail),
{
    match len {
        Length::Fill => avail,
        Length::Shrink => avail,
        Length::Units(u) => if (u as u32) < avail {
            u as u32
        } else {
            avail
        },
    }
}

impl PaneGrid {
    /// Resolves the grid's layout for one pass: the size the grid
    /// takes within what the host offers, and the ordered assignment
    /// of a rectangle to every pane for that size.
    pub fn layout(&self, tree: &Tree, available: Size) -> (r: (Size, Vec<(Pane, Rectangle)>))
        requires
            tree.wf(),
        ensures
            r.0.width == spec_resolve_extent(self.width, available.width),
            r.0.height == spec_resolve_extent(self.height, available.height),
            r.1@ == spec_pane_regions(tree.root, spec_container_rect(r.0), self.spacing as u32),
    {
        let size = Size {
            width: resolve_extent(self.width, available.width),
            height: resolve_extent(self.height, available.height),
        };
        let regions = tree.regions(self.spacing as u32, size);
        (size, regions)
    }

    /// Handles one raw input event against the current tree and
    /// interaction state, returning the emitted events in order.
    ///
    /// The transition is exactly [`spec_on_event`]. While a pane is
    /// picked the grid intercepts all input: whenever a pane is still
    /// picked after the event, nothing is forwarded to pane content.
    pub fn on_event(
        &self,
        tree: &Tree,
        interaction: &mut Interaction,
        alt: &mut bool,
        event: PointerEvent,
        cursor: Point,
        size: Size,
    ) -> (msgs: Vec<GridEvent>)
        requires
            tree.wf(),
            old(interaction).wf(),
        ensures
            final(interaction).wf(),
            ({
                let (i2, alt2, ms) = spec_on_event(
                    *self,
                    tree.root,
                    *old(interaction),
                    *old(alt),
                    event,
                    cursor,
                    size,
                );
                *final(interaction) == i2 && *final(alt) == alt2 && msgs@ == ms
            }),
            final(interaction).picked_pane is Some ==> forall|k: int|
                0 <= k < msgs@.len() ==> !((#[trigger] msgs@[k]) is Forward),
    {
        let spacing = self.spacing as u32;
        let regions = tree.regions(spacing, size);
        let splits = tree.splits(spacing, size);
        proof {
            lemma_wf_ratios_valid(tree.root);
            assert forall|i: int| 0 <= i < splits@.len() implies (#[trigger] splits@[i]).2.spec_wf() by {
                lemma_split_region_entry(
                    tree.root,
                    spec_container_rect(size),
                    spacing,
                    i,
                );
            }
            assert forall|i: int| 0 <= i < splits@.len() implies (#[trigger] splits@[i]).3 <= RATIO_UNIT by {
                lemma_split_region_entry(
                    tree.root,
                    spec_container_rect(size),
                    spacing,
                    i,
                );
            }
        }
        let hit = hit_pane(&regions, cursor);
        let mut msgs: Vec<GridEvent> = Vec::new();
        let ghost spec_result = spec_on_event(
            *self,
            tree.root,
            *old(interaction),
            *old(alt),
            event,
            cursor,
            size,
        );
        match event {
            PointerEvent::PrimaryPressed => {
                match hit {
                    Some(p) => {
                        if self.on_drag && *alt {
                            interaction.pick_pane(p);
                            msgs.push(GridEvent::Drag(DragEvent::Picked { pane: p }));
                        } else {
                            interaction.focus(p);
                        }
                    },
                    None => {
                        interaction.unfocus();
                    },
                }
            },
            PointerEvent::PrimaryReleased => {
                match interaction.picked_pane() {
                    Some(pane) => {
                        interaction.focus(pane);
                        interaction.drop_pane();
                        if self.on_drag {
                            let ev = match hit {
                                Some(target) => if target.0 != pane.0 {
                                    DragEvent::Dropped { pane, target }
                                } else {
                                    DragEvent::Canceled { pane }
                                },
                                None => DragEvent::Canceled { pane },
                            };
                            msgs.push(GridEvent::Drag(ev));
                        }
                    },
                    None => {},
                }
            },
            PointerEvent::SecondaryPressed => {
                if self.on_resize && interaction.picked_pane().is_none() && *alt {
                    match find_nearest_split(&splits, cursor) {
                        Some((s, ax)) => {
                            interaction.pick_split(s, ax);
                            push_resize(self, &splits, interaction, cursor, &mut msgs);
                        },
                        None => {},
                    }
                }
            },
            PointerEvent::SecondaryReleased => {
                interaction.drop_split();
            },
            PointerEvent::CursorMoved => {
                push_resize(self, &splits, interaction, cursor, &mut msgs);
            },
            PointerEvent::ModifiersChanged { alt: new_alt } => {
                *alt = new_alt;
            },
        }
        if interaction.picked_pane().is_none() {
            match hit {
                Some(p) => {
                    msgs.push(GridEvent::Forward { pane: p });
                },
                None => {},
            }
        }
        proof {
            assert(msgs@ =~= spec_result.2);
        }
        msgs
    }
}

} // verus!
