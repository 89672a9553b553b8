use monitui::geom::Direction;
use monitui::geom::LayoutMonitor;
use monitui::geom::shared_edge;
use monitui::moves::move_monitor;
use monitui::moves::slide_monitor;
use monitui::moves::swap_monitors;
use monitui::snap::snap_to_far_side;
use monitui::snap::snap_to_side;
use monitui::repair::auto_snap_all;
use monitui::arrange::normalize;

fn mon(id: &str, x: i32, y: i32, w: i32, h: i32) -> LayoutMonitor {
    LayoutMonitor { id: id.into(), x, y, w, h }
}

fn three_side_by_side() -> Vec<LayoutMonitor> {
    vec![
        mon("A", 0, 0, 1920, 1080),
        mon("B", 1920, 0, 1920, 1080),
        mon("C", 3840, 0, 1920, 1080),
    ]
}

fn two_stacked() -> Vec<LayoutMonitor> {
    vec![mon("A", 0, 0, 1920, 1080), mon("B", 0, 1080, 1920, 1080)]
}

fn two_side_by_side_different_heights() -> Vec<LayoutMonitor> {
    vec![mon("A", 0, 0, 1920, 1080), mon("B", 1920, 0, 2560, 1440)]
}

// --- swap tests ---

#[test]
fn test_swap_side_by_side() {
    let mut m = three_side_by_side();
    swap_monitors(&mut m, 0, 1);
    // A and B should swap. B is now left, A is now right
    assert_eq!(m[1].x, 0); // B moved to 0
    assert_eq!(m[0].x, 1920); // A moved to 1920
    assert_eq!(m[0].id, "A");
    assert_eq!(m[1].id, "B");
}

#[test]
fn test_swap_stacked() {
    let mut m = two_stacked();
    swap_monitors(&mut m, 0, 1);
    assert_eq!(m[1].y, 0); // B is now on top
    assert_eq!(m[0].y, 1080); // A is below
}

#[test]
fn swap_without_shared_edge_changes_nothing() {
    let mut m = vec![mon("A", 0, 0, 1920, 1080), mon("B", 5000, 5000, 1920, 1080)];
    let before = m.clone();
    swap_monitors(&mut m, 0, 1);
    assert_eq!(m, before);
}

#[test]
fn swap_unequal_widths_shifts_the_row() {
    let mut m = vec![
        mon("A", 0, 0, 1920, 1080),
        mon("B", 1920, 0, 2560, 1440),
        mon("C", 4480, 0, 1920, 1080),
    ];
    swap_monitors(&mut m, 0, 1);
    // B takes the left slot, A sits flush to its right, and C moves back by
    // the width difference so the row stays packed.
    assert_eq!(m[1].x, 0);
    assert_eq!(m[0].x, 2560);
    assert_eq!(m[2].x, 4480 - (2560 - 1920));
}

// --- slide tests ---

#[test]
fn test_slide_vertical_along_shared_vertical_edge() {
    let mut m = two_side_by_side_different_heights();
    // A and B share a vertical edge. Sliding A down (parallel to edge).
    slide_monitor(&mut m, 0, 1, Direction::Down, 100);
    assert_eq!(m[0].y, 100);
    assert_eq!(m[0].x, 0); // x unchanged
    // Still sharing edge
    assert!(shared_edge(&m[0], &m[1]).is_some());
}

#[test]
fn test_slide_past_edge_snaps() {
    let mut m = vec![mon("A", 0, 0, 1920, 1080), mon("B", 1920, 0, 1920, 1080)];
    // Slide A down by more than B's height — should snap below B
    slide_monitor(&mut m, 0, 1, Direction::Down, 1200);
    // A should now be below B with left edges aligned
    assert_eq!(m[0].y, 1080);
    assert_eq!(m[0].x, m[1].x);
}

#[test]
fn slide_past_taller_neighbor_snaps_below_it() {
    let mut m = two_side_by_side_different_heights();
    // Sliding the shorter monitor down far enough to clear the taller one
    // loses contact, so it re-snaps directly below, left edges aligned.
    slide_monitor(&mut m, 0, 1, Direction::Down, 1500);
    assert_eq!(m[0].y, 1440);
    assert_eq!(m[0].x, 1920);
    assert!(shared_edge(&m[0], &m[1]).is_some());
}

#[test]
fn slide_never_leaves_the_neighbor_floating() {
    for step in [1, 100, 1080, 1200, 2000, 5000] {
        let mut m = two_side_by_side_different_heights();
        slide_monitor(&mut m, 0, 1, Direction::Down, step);
        assert!(
            shared_edge(&m[0], &m[1]).is_some(),
            "contact lost at step {}: {:?}",
            step,
            m
        );
    }
}

// --- move_monitor tests ---

#[test]
fn test_move_perpendicular_swaps() {
    let mut m = three_side_by_side();
    // Move B (index 1) left — perpendicular to the vertical edge it shares with A
    move_monitor(&mut m, 1, Direction::Left, 10);
    // B and A should swap
    assert_eq!(m[1].x, 0); // B
    assert_eq!(m[0].x, 1920); // A
}

#[test]
fn test_move_parallel_slides() {
    let mut m = three_side_by_side();
    // Move B (index 1) down — parallel to the vertical edges it shares
    move_monitor(&mut m, 1, Direction::Down, 50);
    assert_eq!(m[1].y, 50);
    // B still shares edge with A and C
    assert!(shared_edge(&m[0], &m[1]).is_some());
    assert!(shared_edge(&m[1], &m[2]).is_some());
}

#[test]
fn test_move_leftmost_left_is_noop() {
    let mut m = three_side_by_side();
    let before = m.clone();
    // A is already the leftmost — pressing left should do nothing
    move_monitor(&mut m, 0, Direction::Left, 10);
    assert_eq!(m, before, "Leftmost monitor should not move when pressing left");
}

#[test]
fn test_move_rightmost_right_is_noop() {
    let mut m = three_side_by_side();
    let before = m.clone();
    move_monitor(&mut m, 2, Direction::Right, 10);
    assert_eq!(m, before, "Rightmost monitor should not move when pressing right");
}

#[test]
fn test_move_stacked_topmost_up_is_noop() {
    // Two stacked — pressing up on the top one should do nothing
    let mut m = two_stacked();
    let before = m.clone();
    move_monitor(&mut m, 0, Direction::Up, 10);
    assert_eq!(m, before, "Topmost stacked monitor should not move when pressing up");
}

#[test]
fn test_move_single_monitor_noop() {
    let mut m = vec![mon("A", 0, 0, 1920, 1080)];
    move_monitor(&mut m, 0, Direction::Left, 10);
    assert_eq!(m[0].x, 0);
    assert_eq!(m[0].y, 0);
}

#[test]
fn move_middle_left_end_to_end() {
    // Three monitors side by side; moving the middle one left swaps it with
    // the first, and the third stays adjacent to whichever monitor now
    // occupies x = 1920.
    let mut m = three_side_by_side();
    move_monitor(&mut m, 1, Direction::Left, 100);
    assert_eq!(m[1].x, 0);
    assert_eq!(m[0].x, 1920);
    assert_eq!(m[2].x, 3840);
    assert!(shared_edge(&m[0], &m[2]).is_some());
}

// --- snap_to_side tests ---

#[test]
fn test_snap_to_right() {
    let mut m = vec![mon("A", 0, 0, 1920, 1080), mon("B", 5000, 5000, 2560, 1440)];
    snap_to_side(&mut m, 1, 0, Direction::Right);
    assert_eq!(m[1].x, 1920);
    assert_eq!(m[1].y, 0);
}

#[test]
fn test_snap_above() {
    let mut m = vec![mon("A", 0, 1080, 1920, 1080), mon("B", 5000, 5000, 2560, 1440)];
    snap_to_side(&mut m, 1, 0, Direction::Up);
    assert_eq!(m[1].x, 0);
    assert_eq!(m[1].y, 1080 - 1440);
}

// --- snap_to_far_side tests ---

#[test]
fn test_snap_to_far_right() {
    let mut m = three_side_by_side();
    // Snap A (index 0, leftmost) to far right
    snap_to_far_side(&mut m, 0, Direction::Right);
    auto_snap_all(&mut m);
    // A should now be at the rightmost position
    let max_right = m.iter().map(|m| m.right()).max().unwrap();
    assert_eq!(m[0].right(), max_right, "A should be at far right: {:?}", m);
}

#[test]
fn test_snap_to_far_left() {
    let mut m = three_side_by_side();
    // Snap C (index 2, rightmost) to far left
    snap_to_far_side(&mut m, 2, Direction::Left);
    auto_snap_all(&mut m);
    normalize(&mut m);
    assert_eq!(m[2].x, 0, "C should be at far left: {:?}", m);
}

#[test]
fn test_snap_to_far_down() {
    let mut m = three_side_by_side();
    snap_to_far_side(&mut m, 1, Direction::Down);
    auto_snap_all(&mut m);
    // B should be below some other monitor
    assert!(m[1].y > 0, "B should be below: {:?}", m);
}

#[test]
fn snap_to_far_side_aligns_with_the_extreme_monitor() {
    let mut m = vec![
        mon("A", 0, 0, 1920, 1080),
        mon("B", 1920, 300, 1920, 1080),
        mon("C", 3840, 0, 1920, 1080),
    ];
    snap_to_far_side(&mut m, 0, Direction::Right);
    // C defines the far right edge; A lands flush against it, aligned to
    // C's y.
    assert_eq!(m[0].x, 5760);
    assert_eq!(m[0].y, 0);
}
