use pane_grid::events::DragEvent;
use pane_grid::events::GridEvent;
use pane_grid::events::PaneGrid;
use pane_grid::events::PointerEvent;
use pane_grid::events::ResizeEvent;
use pane_grid::events::hit_pane;
use pane_grid::events::resize_ratio;
use pane_grid::geometry::Point;
use pane_grid::geometry::Rectangle;
use pane_grid::geometry::Size;
use pane_grid::geometry::clamp_ratio;
use pane_grid::hashing::structural_hash;
use pane_grid::interaction::Interaction;
use pane_grid::interaction::find_nearest_split;
use pane_grid::tree::Axis;
use pane_grid::tree::PaneError;
use pane_grid::tree::RemoveOutcome;
use pane_grid::tree::Tree;

fn rect(x: u32, y: u32, width: u32, height: u32) -> Rectangle {
    Rectangle { x, y, width, height }
}

#[test]
fn single_pane_fills_container() {
    let (tree, p0) = Tree::new();
    let regions = tree.regions(0, Size::new(200, 100));
    assert_eq!(regions, vec![(p0, rect(0, 0, 200, 100))]);
}

#[test]
fn horizontal_split_with_spacing() {
    let (mut tree, p0) = Tree::new();
    let (p1, s0) = tree.split(p0, Axis::Horizontal).unwrap();
    let regions = tree.regions(10, Size::new(200, 100));
    assert_eq!(
        regions,
        vec![(p0, rect(0, 0, 95, 100)), (p1, rect(105, 0, 95, 100))]
    );
    let splits = tree.splits(10, Size::new(200, 100));
    assert_eq!(splits, vec![(s0, Axis::Horizontal, rect(0, 0, 200, 100), 500)]);
}

#[test]
fn vertical_split_divides_height() {
    let (mut tree, p0) = Tree::new();
    let (p1, _s0) = tree.split(p0, Axis::Vertical).unwrap();
    let regions = tree.regions(0, Size::new(200, 100));
    assert_eq!(
        regions,
        vec![(p0, rect(0, 0, 200, 50)), (p1, rect(0, 50, 200, 50))]
    );
}

#[test]
fn resize_clamps_to_bounds() {
    let (mut tree, p0) = Tree::new();
    let (_p1, s0) = tree.split(p0, Axis::Horizontal).unwrap();
    assert!(tree.resize(s0, 950));
    let splits = tree.splits(0, Size::new(200, 100));
    assert_eq!(splits[0].3, 900);
    assert!(tree.resize(s0, 50));
    let splits = tree.splits(0, Size::new(200, 100));
    assert_eq!(splits[0].3, 100);
    assert!(tree.resize(s0, 640));
    let splits = tree.splits(0, Size::new(200, 100));
    assert_eq!(splits[0].3, 640);
}

#[test]
fn clamp_ratio_bounds() {
    assert_eq!(clamp_ratio(0), 100);
    assert_eq!(clamp_ratio(99), 100);
    assert_eq!(clamp_ratio(100), 100);
    assert_eq!(clamp_ratio(500), 500);
    assert_eq!(clamp_ratio(900), 900);
    assert_eq!(clamp_ratio(901), 900);
    assert_eq!(clamp_ratio(u32::MAX), 900);
}

#[test]
fn split_then_remove_restores_tree() {
    let (mut tree, p0) = Tree::new();
    let (p1, _) = tree.split(p0, Axis::Horizontal).unwrap();
    let panes_before = tree.panes();
    let regions_before = tree.regions(7, Size::new(300, 200));
    let (q, _) = tree.split(p0, Axis::Vertical).unwrap();
    let outcome = tree.remove(q);
    assert_eq!(outcome, RemoveOutcome::Removed { sibling: Some(p0) });
    assert_eq!(tree.panes(), panes_before);
    assert_eq!(tree.regions(7, Size::new(300, 200)), regions_before);
    assert_eq!(panes_before, vec![p0, p1]);
}

#[test]
fn remove_collapses_to_sibling() {
    let (mut tree, p0) = Tree::new();
    let (p1, _) = tree.split(p0, Axis::Horizontal).unwrap();
    let outcome = tree.remove(p0);
    assert_eq!(outcome, RemoveOutcome::Removed { sibling: Some(p1) });
    let regions = tree.regions(0, Size::new(200, 100));
    assert_eq!(regions, vec![(p1, rect(0, 0, 200, 100))]);
}

#[test]
fn last_pane_cannot_be_removed() {
    let (mut tree, p0) = Tree::new();
    let outcome = tree.remove(p0);
    assert_eq!(outcome, RemoveOutcome::LastPane);
    assert_eq!(tree.panes(), vec![p0]);
}

#[test]
fn absent_pane_operations_fail_cleanly() {
    let (mut tree, p0) = Tree::new();
    let (p1, s0) = tree.split(p0, Axis::Horizontal).unwrap();
    let ghost_pane = pane_grid::tree::Pane(77);
    let ghost_split = pane_grid::tree::Split(77);
    assert_eq!(tree.split(ghost_pane, Axis::Vertical), Err(PaneError::PaneNotFound));
    assert_eq!(tree.remove(ghost_pane), RemoveOutcome::PaneNotFound);
    assert_eq!(tree.swap(p0, ghost_pane), Err(PaneError::PaneNotFound));
    assert!(!tree.resize(ghost_split, 500));
    // nothing changed
    assert_eq!(tree.panes(), vec![p0, p1]);
    let splits = tree.splits(0, Size::new(200, 100));
    assert_eq!(splits, vec![(s0, Axis::Horizontal, rect(0, 0, 200, 100), 500)]);
}

#[test]
fn swap_exchanges_regions() {
    let (mut tree, p0) = Tree::new();
    let (p1, _) = tree.split(p0, Axis::Horizontal).unwrap();
    tree.swap(p0, p1).unwrap();
    let regions = tree.regions(0, Size::new(200, 100));
    assert_eq!(
        regions,
        vec![(p1, rect(0, 0, 100, 100)), (p0, rect(100, 0, 100, 100))]
    );
}

#[test]
fn coverage_accounting_two_levels() {
    let (mut tree, p0) = Tree::new();
    let (p1, _) = tree.split(p0, Axis::Horizontal).unwrap();
    let (p2, _) = tree.split(p1, Axis::Vertical).unwrap();
    let container = Size::new(200, 100);
    let regions = tree.regions(10, container);
    assert_eq!(regions.len(), 3);
    // every region within the container
    for (_, r) in &regions {
        assert!(r.x + r.width <= 200 && r.y + r.height <= 100);
    }
    // pairwise disjoint
    for i in 0..regions.len() {
        for j in (i + 1)..regions.len() {
            let a = regions[i].1;
            let b = regions[j].1;
            let apart = a.x + a.width <= b.x
                || b.x + b.width <= a.x
                || a.y + a.height <= b.y
                || b.y + b.height <= a.y;
            assert!(apart, "regions {i} and {j} overlap");
        }
    }
    // leaf areas plus spacing strips equal the container area:
    // one vertical strip 10 wide across 100 high, one horizontal strip
    // 10 high across the right half 95 wide
    let area: u64 = regions
        .iter()
        .map(|(_, r)| (r.width as u64) * (r.height as u64))
        .sum();
    let strips: u64 = 10 * 100 + 10 * 95;
    assert_eq!(area + strips, 200 * 100);
    assert_eq!(
        regions,
        vec![
            (p0, rect(0, 0, 95, 100)),
            (p1, rect(105, 0, 95, 45)),
            (p2, rect(105, 55, 95, 45)),
        ]
    );
}

#[test]
fn degenerate_container_clamps_to_zero() {
    let (mut tree, p0) = Tree::new();
    let (p1, _) = tree.split(p0, Axis::Horizontal).unwrap();
    // container narrower than the spacing: both children clamp to zero
    let regions = tree.regions(10, Size::new(4, 50));
    assert_eq!(regions[0], (p0, rect(0, 0, 0, 50)));
    assert_eq!(regions[1], (p1, rect(4, 0, 0, 50)));
}

#[test]
fn nearest_split_tie_breaks_on_traversal_order() {
    let (mut tree, p0) = Tree::new();
    let (_p1, s0) = tree.split(p0, Axis::Horizontal).unwrap();
    let (_p2, s1) = tree.split(p0, Axis::Horizontal).unwrap();
    let splits = tree.splits(0, Size::new(200, 100));
    // root split midpoint: (100, 50); inner split midpoint: (50, 50)
    assert_eq!(splits[0].0, s0);
    assert_eq!(splits[1].0, s1);
    // equidistant cursor: 25 from each midpoint
    let cursor = Point::new(75, 50);
    let first = find_nearest_split(&splits, cursor);
    assert_eq!(first, Some((s0, Axis::Horizontal)));
    // stable across repeated calls
    for _ in 0..3 {
        assert_eq!(find_nearest_split(&splits, cursor), first);
    }
    // off the tie point the nearer split wins
    assert_eq!(
        find_nearest_split(&splits, Point::new(60, 50)),
        Some((s1, Axis::Horizontal))
    );
}

#[test]
fn nearest_split_empty_list() {
    assert_eq!(find_nearest_split(&Vec::new(), Point::new(10, 10)), None);
}

#[test]
fn resize_ratio_projects_and_clamps() {
    let r = rect(0, 0, 200, 100);
    assert_eq!(resize_ratio(Axis::Horizontal, r, Point::new(150, 50)), Some(750));
    assert_eq!(resize_ratio(Axis::Horizontal, r, Point::new(0, 50)), Some(100));
    assert_eq!(resize_ratio(Axis::Horizontal, r, Point::new(199, 50)), Some(900));
    assert_eq!(resize_ratio(Axis::Vertical, r, Point::new(40, 25)), Some(250));
    // zero extent yields nothing
    assert_eq!(resize_ratio(Axis::Horizontal, rect(0, 0, 0, 100), Point::new(5, 5)), None);
}

#[test]
fn hit_pane_edges_are_exclusive() {
    let (mut tree, p0) = Tree::new();
    let (p1, _) = tree.split(p0, Axis::Horizontal).unwrap();
    let regions = tree.regions(10, Size::new(200, 100));
    assert_eq!(hit_pane(&regions, Point::new(0, 0)), Some(p0));
    assert_eq!(hit_pane(&regions, Point::new(94, 99)), Some(p0));
    // inside the spacing strip: no pane
    assert_eq!(hit_pane(&regions, Point::new(95, 50)), None);
    assert_eq!(hit_pane(&regions, Point::new(104, 50)), None);
    assert_eq!(hit_pane(&regions, Point::new(105, 50)), Some(p1));
    // outside the container
    assert_eq!(hit_pane(&regions, Point::new(200, 50)), None);
    assert_eq!(hit_pane(&regions, Point::new(50, 100)), None);
}

#[test]
fn drag_and_drop_onto_target() {
    let (mut tree, p0) = Tree::new();
    let (p1, _) = tree.split(p0, Axis::Horizontal).unwrap();
    let grid = PaneGrid::new().on_drag();
    let mut interaction = Interaction::new();
    let mut alt = true;
    let size = Size::new(200, 100);
    let msgs = grid.on_event(
        &tree,
        &mut interaction,
        &mut alt,
        PointerEvent::PrimaryPressed,
        Point::new(10, 10),
        size,
    );
    assert_eq!(msgs, vec![GridEvent::Drag(DragEvent::Picked { pane: p0 })]);
    assert_eq!(interaction.picked_pane(), Some(p0));
    // release over the other pane: a drop
    let msgs = grid.on_event(
        &tree,
        &mut interaction,
        &mut alt,
        PointerEvent::PrimaryReleased,
        Point::new(150, 10),
        size,
    );
    assert_eq!(
        msgs,
        vec![
            GridEvent::Drag(DragEvent::Dropped { pane: p0, target: p1 }),
            GridEvent::Forward { pane: p1 },
        ]
    );
    assert_eq!(interaction.picked_pane(), None);
}

#[test]
fn drop_outside_all_regions_cancels() {
    let (mut tree, p0) = Tree::new();
    let (_p1, _) = tree.split(p0, Axis::Horizontal).unwrap();
    let grid = PaneGrid::new().on_drag();
    let mut interaction = Interaction::new();
    let mut alt = true;
    let size = Size::new(200, 100);
    grid.on_event(
        &tree,
        &mut interaction,
        &mut alt,
        PointerEvent::PrimaryPressed,
        Point::new(10, 10),
        size,
    );
    // release far outside the container: a cancel, not a drop
    let msgs = grid.on_event(
        &tree,
        &mut interaction,
        &mut alt,
        PointerEvent::PrimaryReleased,
        Point::new(1000, 1000),
        size,
    );
    assert_eq!(msgs, vec![GridEvent::Drag(DragEvent::Canceled { pane: p0 })]);
    assert_eq!(interaction.picked_pane(), None);
}

#[test]
fn drop_onto_source_pane_cancels() {
    let (mut tree, p0) = Tree::new();
    let (_p1, _) = tree.split(p0, Axis::Horizontal).unwrap();
    let grid = PaneGrid::new().on_drag();
    let mut interaction = Interaction::new();
    let mut alt = true;
    let size = Size::new(200, 100);
    grid.on_event(
        &tree,
        &mut interaction,
        &mut alt,
        PointerEvent::PrimaryPressed,
        Point::new(10, 10),
        size,
    );
    let msgs = grid.on_event(
        &tree,
        &mut interaction,
        &mut alt,
        PointerEvent::PrimaryReleased,
        Point::new(20, 20),
        size,
    );
    assert_eq!(
        msgs,
        vec![
            GridEvent::Drag(DragEvent::Canceled { pane: p0 }),
            GridEvent::Forward { pane: p0 },
        ]
    );
}

#[test]
fn no_forwarding_while_pane_is_picked() {
    let (mut tree, p0) = Tree::new();
    let (_p1, _) = tree.split(p0, Axis::Horizontal).unwrap();
    let grid = PaneGrid::new().on_drag().on_resize();
    let mut interaction = Interaction::new();
    let mut alt = true;
    let size = Size::new(200, 100);
    grid.on_event(
        &tree,
        &mut interaction,
        &mut alt,
        PointerEvent::PrimaryPressed,
        Point::new(10, 10),
        size,
    );
    assert_eq!(interaction.picked_pane(), Some(p0));
    // pointer moves over panes during the drag: nothing is forwarded
    for x in [20, 110, 190] {
        let msgs = grid.on_event(
            &tree,
            &mut interaction,
            &mut alt,
            PointerEvent::CursorMoved,
            Point::new(x, 50),
            size,
        );
        assert_eq!(msgs, vec![]);
    }
}

#[test]
fn forwarding_reaches_hovered_pane_when_idle() {
    let (mut tree, p0) = Tree::new();
    let (p1, _) = tree.split(p0, Axis::Horizontal).unwrap();
    let grid = PaneGrid::new();
    let mut interaction = Interaction::new();
    let mut alt = false;
    let size = Size::new(200, 100);
    let msgs = grid.on_event(
        &tree,
        &mut interaction,
        &mut alt,
        PointerEvent::CursorMoved,
        Point::new(150, 50),
        size,
    );
    assert_eq!(msgs, vec![GridEvent::Forward { pane: p1 }]);
}

#[test]
fn press_without_modifier_focuses() {
    let (mut tree, p0) = Tree::new();
    let (p1, _) = tree.split(p0, Axis::Horizontal).unwrap();
    let grid = PaneGrid::new().on_drag();
    let mut interaction = Interaction::new();
    let mut alt = false;
    let size = Size::new(200, 100);
    let msgs = grid.on_event(
        &tree,
        &mut interaction,
        &mut alt,
        PointerEvent::PrimaryPressed,
        Point::new(150, 50),
        size,
    );
    assert_eq!(interaction.focus, Some(p1));
    assert_eq!(interaction.picked_pane(), None);
    assert_eq!(msgs, vec![GridEvent::Forward { pane: p1 }]);
    // press outside all regions clears the focus
    grid.on_event(
        &tree,
        &mut interaction,
        &mut alt,
        PointerEvent::PrimaryPressed,
        Point::new(1000, 50),
        size,
    );
    assert_eq!(interaction.focus, None);
}

#[test]
fn secondary_press_picks_nearest_split_and_reports_ratio() {
    let (mut tree, p0) = Tree::new();
    let (_p1, s0) = tree.split(p0, Axis::Horizontal).unwrap();
    let grid = PaneGrid::new().on_resize();
    let mut interaction = Interaction::new();
    let mut alt = true;
    let size = Size::new(200, 100);
    let msgs = grid.on_event(
        &tree,
        &mut interaction,
        &mut alt,
        PointerEvent::SecondaryPressed,
        Point::new(120, 50),
        size,
    );
    assert_eq!(interaction.picked_split(), Some((s0, Axis::Horizontal)));
    assert_eq!(msgs[0], GridEvent::Resize(ResizeEvent { split: s0, ratio: 600 }));
    // dragging to x = 150 in the 200-wide container reports 3/4
    let msgs = grid.on_event(
        &tree,
        &mut interaction,
        &mut alt,
        PointerEvent::CursorMoved,
        Point::new(150, 50),
        size,
    );
    assert_eq!(msgs[0], GridEvent::Resize(ResizeEvent { split: s0, ratio: 750 }));
    // release ends the resize
    grid.on_event(
        &tree,
        &mut interaction,
        &mut alt,
        PointerEvent::SecondaryReleased,
        Point::new(150, 50),
        size,
    );
    assert_eq!(interaction.picked_split(), None);
}

#[test]
fn secondary_press_without_modifier_is_inert() {
    let (mut tree, p0) = Tree::new();
    let (_p1, _s0) = tree.split(p0, Axis::Horizontal).unwrap();
    let grid = PaneGrid::new().on_resize();
    let mut interaction = Interaction::new();
    let mut alt = false;
    let msgs = grid.on_event(
        &tree,
        &mut interaction,
        &mut alt,
        PointerEvent::SecondaryPressed,
        Point::new(120, 50),
        Size::new(200, 100),
    );
    assert_eq!(interaction.picked_split(), None);
    assert_eq!(msgs, vec![GridEvent::Forward { pane: pane_grid::tree::Pane(1) }]);
}

#[test]
fn modifiers_event_updates_flag() {
    let (tree, p0) = Tree::new();
    let grid = PaneGrid::new();
    let mut interaction = Interaction::new();
    let mut alt = false;
    let msgs = grid.on_event(
        &tree,
        &mut interaction,
        &mut alt,
        PointerEvent::ModifiersChanged { alt: true },
        Point::new(10, 10),
        Size::new(200, 100),
    );
    assert!(alt);
    assert_eq!(msgs, vec![GridEvent::Forward { pane: p0 }]);
}

#[test]
fn structural_hash_tracks_structure_and_size() {
    let (mut tree_a, p0) = Tree::new();
    let (mut tree_b, _) = Tree::new();
    let size = Size::new(200, 100);
    assert_eq!(structural_hash(&tree_a, size), structural_hash(&tree_b, size));
    // same mutation sequence, same hash
    let (qa, sa) = tree_a.split(p0, Axis::Horizontal).unwrap();
    let (qb, sb) = tree_b.split(p0, Axis::Horizontal).unwrap();
    assert_eq!(qa, qb);
    assert_eq!(sa, sb);
    assert_eq!(structural_hash(&tree_a, size), structural_hash(&tree_b, size));
    // a ratio change changes the hash
    tree_b.resize(sb, 700);
    assert_ne!(structural_hash(&tree_a, size), structural_hash(&tree_b, size));
    // a container change changes the hash
    assert_ne!(
        structural_hash(&tree_a, size),
        structural_hash(&tree_a, Size::new(201, 100))
    );
}

#[test]
fn builders_set_configuration() {
    let grid = PaneGrid::new()
        .width(pane_grid::events::Length::Units(320))
        .height(pane_grid::events::Length::Shrink)
        .spacing(8)
        .on_drag()
        .on_resize();
    assert_eq!(grid.width, pane_grid::events::Length::Units(320));
    assert_eq!(grid.height, pane_grid::events::Length::Shrink);
    assert_eq!(grid.spacing, 8);
    assert!(grid.on_drag);
    assert!(grid.on_resize);
    let plain = PaneGrid::new();
    assert_eq!(plain.width, pane_grid::events::Length::Fill);
    assert_eq!(plain.spacing, 0);
    assert!(!plain.on_drag);
    assert!(!plain.on_resize);
}

#[test]
fn layout_resolves_size_and_regions() {
    let (mut tree, p0) = Tree::new();
    let (p1, _) = tree.split(p0, Axis::Horizontal).unwrap();
    let grid = PaneGrid::new()
        .width(pane_grid::events::Length::Units(200))
        .spacing(10);
    let (size, regions) = grid.layout(&tree, Size::new(500, 100));
    assert_eq!(size, Size::new(200, 100));
    assert_eq!(
        regions,
        vec![(p0, rect(0, 0, 95, 100)), (p1, rect(105, 0, 95, 100))]
    );
}

#[test]
fn secondary_release_always_clears_split_pick() {
    let (mut tree, p0) = Tree::new();
    let (_p1, s0) = tree.split(p0, Axis::Horizontal).unwrap();
    let grid = PaneGrid::new().on_resize();
    let mut interaction = Interaction::new();
    let mut alt = true;
    let size = Size::new(200, 100);
    grid.on_event(
        &tree,
        &mut interaction,
        &mut alt,
        PointerEvent::SecondaryPressed,
        Point::new(120, 50),
        size,
    );
    assert_eq!(interaction.picked_split(), Some((s0, Axis::Horizontal)));
    // the modifier goes up before the button does
    grid.on_event(
        &tree,
        &mut interaction,
        &mut alt,
        PointerEvent::ModifiersChanged { alt: false },
        Point::new(120, 50),
        size,
    );
    // the release still ends the resize, whatever the flags say
    grid.on_event(
        &tree,
        &mut interaction,
        &mut alt,
        PointerEvent::SecondaryReleased,
        Point::new(120, 50),
        size,
    );
    assert_eq!(interaction.picked_split(), None);
    // and later pointer moves emit no resize notifications
    let msgs = grid.on_event(
        &tree,
        &mut interaction,
        &mut alt,
        PointerEvent::CursorMoved,
        Point::new(1000, 1000),
        size,
    );
    assert!(msgs.iter().all(|m| !matches!(m, GridEvent::Resize(_))));
}

#[test]
fn rounding_tie_prefers_traversal_order() {
    // midpoints (100, 50) and (110, 61); cursor (110, 51) is at
    // squared distances 101 and 100: exactly nearer to the second,
    // but both round to distance 10, so the first in order wins
    let s0 = pane_grid::tree::Split(0);
    let s1 = pane_grid::tree::Split(1);
    let e0 = (s0, Axis::Horizontal, rect(0, 0, 200, 100), 500);
    let e1 = (s1, Axis::Horizontal, rect(60, 11, 100, 100), 500);
    let cursor = Point::new(110, 51);
    assert_eq!(
        find_nearest_split(&vec![e0, e1], cursor),
        Some((s0, Axis::Horizontal))
    );
    // in the other order the tie goes the other way
    assert_eq!(
        find_nearest_split(&vec![e1, e0], cursor),
        Some((s1, Axis::Horizontal))
    );
}
