use monitui::arrange::normalize;
use monitui::arrange::recalculate_horizontal;
use monitui::connect::is_layout_connected;
use monitui::geom::LayoutMonitor;
use monitui::geom::shared_edge;
use monitui::moves::swap_monitors;
use monitui::overlap::resolve_overlaps;
use monitui::repair::auto_snap_all;

fn mon(id: &str, x: i32, y: i32, w: i32, h: i32) -> LayoutMonitor {
    LayoutMonitor { id: id.into(), x, y, w, h }
}

fn three_side_by_side() -> Vec<LayoutMonitor> {
    vec![
        mon("A", 0, 0, 1920, 1080),
        mon("B", 1920, 0, 1920, 1080),
        mon("C", 3840, 0, 1920, 1080),
    ]
}

// --- connected layout tests ---

#[test]
fn test_connected_side_by_side() {
    let m = three_side_by_side();
    assert!(is_layout_connected(&m));
}

#[test]
fn test_connected_single() {
    let m = vec![mon("A", 0, 0, 1920, 1080)];
    assert!(is_layout_connected(&m));
}

#[test]
fn test_disconnected() {
    let m = vec![mon("A", 0, 0, 1920, 1080), mon("B", 5000, 5000, 1920, 1080)];
    assert!(!is_layout_connected(&m));
}

#[test]
fn test_connected_l_shape() {
    let m = vec![
        mon("A", 0, 0, 1920, 1080),
        mon("B", 1920, 0, 1920, 1080),
        mon("C", 1920, 1080, 1920, 1080),
    ];
    assert!(is_layout_connected(&m));
}

#[test]
fn disconnected_by_wide_gap() {
    // Edge-aligned but 3000 units apart: not connected.
    let m = vec![mon("A", 0, 0, 1920, 1080), mon("B", 1920 + 3000, 0, 1920, 1080)];
    assert!(!is_layout_connected(&m));
}

#[test]
fn connected_empty_collection() {
    let m: Vec<LayoutMonitor> = Vec::new();
    assert!(is_layout_connected(&m));
}

// --- normalize tests ---

#[test]
fn test_normalize() {
    let mut m = vec![mon("A", 100, 50, 1920, 1080), mon("B", 2020, 50, 1920, 1080)];
    normalize(&mut m);
    assert_eq!(m[0].x, 0);
    assert_eq!(m[0].y, 0);
    assert_eq!(m[1].x, 1920);
    assert_eq!(m[1].y, 0);
}

#[test]
fn normalize_is_idempotent() {
    let mut m = vec![mon("A", -300, 250, 800, 600), mon("B", 500, -70, 640, 480)];
    normalize(&mut m);
    let once = m.clone();
    assert_eq!(m.iter().map(|r| r.x).min(), Some(0));
    assert_eq!(m.iter().map(|r| r.y).min(), Some(0));
    normalize(&mut m);
    assert_eq!(m, once);
}

#[test]
fn normalize_empty_collection() {
    let mut m: Vec<LayoutMonitor> = Vec::new();
    normalize(&mut m);
    assert!(m.is_empty());
}

// --- auto_snap_all tests ---

#[test]
fn test_auto_snap_fixes_floating_monitor() {
    let mut m = vec![
        mon("A", 0, 0, 1920, 1080),
        mon("B", 1920, 0, 1920, 1080),
        mon("C", 5000, 5000, 1920, 1080),
    ];
    auto_snap_all(&mut m);
    // C should now be touching something
    let c_touches = (0..m.len()).any(|j| j != 2 && shared_edge(&m[2], &m[j]).is_some());
    assert!(c_touches, "C should be snapped to touch another monitor: {:?}", m);
}

#[test]
fn test_auto_snap_already_connected() {
    let mut m = three_side_by_side();
    let before = m.clone();
    auto_snap_all(&mut m);
    // Should not change anything
    assert_eq!(m, before);
}

#[test]
fn test_auto_snap_after_swap_with_third() {
    // Simulate: 3 monitors, swap 0 and 1, check that 2 stays connected
    let mut m = vec![
        mon("A", 0, 0, 1920, 1080),
        mon("B", 1920, 0, 2560, 1440),
        mon("C", 4480, 0, 1920, 1080),
    ];
    swap_monitors(&mut m, 0, 1);
    auto_snap_all(&mut m);
    assert!(is_layout_connected(&m), "Layout should be connected after swap+snap: {:?}", m);
}

#[test]
fn auto_snap_snaps_to_the_nearest_side() {
    let mut m = vec![
        mon("A", 0, 0, 1920, 1080),
        mon("B", 1920, 0, 1920, 1080),
        mon("C", 5000, 5000, 1920, 1080),
    ];
    auto_snap_all(&mut m);
    // B is C's nearest monitor by center distance, and the centers are
    // separated more vertically than horizontally, so C lands flush below B
    // with x copied from B.
    assert_eq!(m[2].x, 1920);
    assert_eq!(m[2].y, 1080);
    assert_eq!(m[0], mon("A", 0, 0, 1920, 1080));
    assert_eq!(m[1], mon("B", 1920, 0, 1920, 1080));
}

#[test]
fn auto_snap_l_shape_is_noop() {
    let mut m = vec![
        mon("A", 0, 0, 1920, 1080),
        mon("B", 1920, 0, 1920, 1080),
        mon("C", 1920, 1080, 1920, 1080),
    ];
    let before = m.clone();
    auto_snap_all(&mut m);
    assert_eq!(m, before);
}

// --- resolve_overlaps tests ---

#[test]
fn resolve_overlaps_pushes_toward_reference_point() {
    // B sits exactly on top of A; with the reference point at (1920, 0) the
    // cheapest push moves B flush to A's right.
    let mut m = vec![mon("A", 0, 0, 1920, 1080), mon("B", 0, 0, 1920, 1080)];
    resolve_overlaps(&mut m, 1, 1920, 0);
    assert_eq!(m[1].x, 1920);
    assert_eq!(m[1].y, 0);
    assert_eq!(m[0].x, 0);
    assert_eq!(m[0].y, 0);
}

#[test]
fn resolve_overlaps_no_overlap_is_noop() {
    let mut m = three_side_by_side();
    let before = m.clone();
    resolve_overlaps(&mut m, 1, 1920, 0);
    assert_eq!(m, before);
}

#[test]
fn resolve_overlaps_prefers_the_smaller_push() {
    // B overlaps A only by a sliver on the left; pushing it back out to the
    // left lands nearest its original position.
    let mut m = vec![mon("A", 0, 0, 1920, 1080), mon("B", -1900, 0, 1920, 1080)];
    resolve_overlaps(&mut m, 1, -1920, 0);
    assert_eq!(m[1].x, -1920);
    assert_eq!(m[1].y, 0);
}

// --- recalculate_horizontal tests ---

#[test]
fn recalculate_horizontal_packs_left_to_right() {
    let mut m = vec![
        mon("C", 100, 10, 50, 50),
        mon("A", 0, 20, 30, 30),
        mon("B", 100, 30, 20, 20),
    ];
    recalculate_horizontal(&mut m);
    // Sorted stably by x: A first, then C and B (equal x keeps their order),
    // packed from zero with no gaps; y offsets preserved.
    assert_eq!(m[0].id, "A");
    assert_eq!(m[1].id, "C");
    assert_eq!(m[2].id, "B");
    assert_eq!(m[0].x, 0);
    assert_eq!(m[1].x, 30);
    assert_eq!(m[2].x, 80);
    assert_eq!(m[0].y, 20);
    assert_eq!(m[1].y, 10);
    assert_eq!(m[2].y, 30);
}
