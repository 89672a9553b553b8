use monitui::geom::Direction;
use monitui::geom::LayoutMonitor;
use monitui::geom::SharedEdge;
use monitui::geom::shared_edge;
use monitui::search::find_nearest;
use monitui::search::find_neighbor;

fn mon(id: &str, x: i32, y: i32, w: i32, h: i32) -> LayoutMonitor {
    LayoutMonitor { id: id.into(), x, y, w, h }
}

fn three_side_by_side() -> Vec<LayoutMonitor> {
    vec![
        mon("A", 0, 0, 1920, 1080),
        mon("B", 1920, 0, 1920, 1080),
        mon("C", 3840, 0, 1920, 1080),
    ]
}

// --- shared_edge tests ---

#[test]
fn test_shared_edge_side_by_side() {
    let a = mon("A", 0, 0, 1920, 1080);
    let b = mon("B", 1920, 0, 1920, 1080);
    assert_eq!(shared_edge(&a, &b), Some(SharedEdge::Vertical(1920)));
    assert_eq!(shared_edge(&b, &a), Some(SharedEdge::Vertical(1920)));
}

#[test]
fn test_shared_edge_stacked() {
    let a = mon("A", 0, 0, 1920, 1080);
    let b = mon("B", 0, 1080, 1920, 1080);
    assert_eq!(shared_edge(&a, &b), Some(SharedEdge::Horizontal(1080)));
}

#[test]
fn test_shared_edge_offset_but_overlapping() {
    let a = mon("A", 0, 0, 1920, 1080);
    let b = mon("B", 1920, 500, 1920, 1080);
    // They share a vertical edge at x=1920, and have vertical overlap (500..1080)
    assert_eq!(shared_edge(&a, &b), Some(SharedEdge::Vertical(1920)));
}

#[test]
fn test_shared_edge_no_overlap() {
    let a = mon("A", 0, 0, 1920, 1080);
    let b = mon("B", 1920, 1080, 1920, 1080);
    // They touch at a single corner point (1920, 1080) — no edge overlap
    assert_eq!(shared_edge(&a, &b), None);
}

#[test]
fn test_shared_edge_gap() {
    let a = mon("A", 0, 0, 1920, 1080);
    let b = mon("B", 1921, 0, 1920, 1080);
    assert_eq!(shared_edge(&a, &b), None);
}

#[test]
fn shared_edge_is_symmetric_on_offset_pairs() {
    // The same edge, with the same coordinate, whichever way round the
    // monitors are passed.
    let a = mon("A", -100, 40, 800, 600);
    let b = mon("B", 700, -200, 640, 480);
    assert_eq!(shared_edge(&a, &b), shared_edge(&b, &a));
    let c = mon("C", -100, 640, 800, 600);
    assert_eq!(shared_edge(&a, &c), shared_edge(&c, &a));
    assert_eq!(shared_edge(&a, &c), Some(SharedEdge::Horizontal(640)));
}

#[test]
fn shared_edge_one_pixel_gap_stacked() {
    let a = mon("A", 0, 0, 1920, 1080);
    let b = mon("B", 0, 1081, 1920, 1080);
    assert_eq!(shared_edge(&a, &b), None);
}

// --- find_neighbor tests ---

#[test]
fn test_find_neighbor_right() {
    let m = three_side_by_side();
    assert_eq!(find_neighbor(&m, 0, Direction::Right), Some(1));
    assert_eq!(find_neighbor(&m, 1, Direction::Right), Some(2));
    assert_eq!(find_neighbor(&m, 2, Direction::Right), None);
}

#[test]
fn test_find_neighbor_left() {
    let m = three_side_by_side();
    assert_eq!(find_neighbor(&m, 0, Direction::Left), None);
    assert_eq!(find_neighbor(&m, 1, Direction::Left), Some(0));
    assert_eq!(find_neighbor(&m, 2, Direction::Left), Some(1));
}

#[test]
fn find_neighbor_picks_smallest_gap() {
    let m = vec![
        mon("A", 0, 0, 1000, 1000),
        mon("B", 3000, 0, 1000, 1000),
        mon("C", 1500, 0, 1000, 1000),
    ];
    // Both B and C lie to the right of A with vertical overlap; C is nearer.
    assert_eq!(find_neighbor(&m, 0, Direction::Right), Some(2));
}

#[test]
fn find_nearest_uses_gap_when_available() {
    let m = vec![mon("A", 0, 0, 1920, 1080), mon("B", 3000, 2000, 1920, 1080)];
    // B lies strictly to the right of A (gap 1080), no overlap required.
    assert_eq!(find_nearest(&m, 0, Direction::Right), Some(1));
}

#[test]
fn find_nearest_falls_back_to_centers() {
    let m = vec![mon("A", 0, 0, 1920, 1080), mon("B", 0, 500, 1920, 1080)];
    // B overlaps A downward (negative gap), so the center comparison decides.
    assert_eq!(find_nearest(&m, 0, Direction::Down), Some(1));
    // Nothing at all lies above A.
    assert_eq!(find_nearest(&m, 0, Direction::Up), None);
}
