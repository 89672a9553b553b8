//! The move engine: swapping two edge-adjacent monitors, sliding a monitor
//! along a shared edge, and the directional move that chooses between them.

use vstd::prelude::*;

use crate::geom::Direction;
use crate::geom::LayoutMonitor;
use crate::geom::SharedEdge;
use crate::geom::MAX_COORD;
use crate::geom::lemma_touches_at_is_shared_edge;
use crate::geom::shared_edge;
use crate::geom::spec_shared_edge;
use crate::geom::touches_at;
use crate::geom::wf_all;

verus! {

/// Exact description of what `swap_monitors` does: on a vertical shared edge
/// the pair trades which one is on the left, anchored at the leftmost x, and
/// every other monitor beyond (or between) the pair is shifted by the width
/// difference so the row is not torn apart; on a horizontal shared edge the
/// same on the y axis, shifting only the monitors below; with no shared edge
/// nothing changes.
pub open spec fn swap_rel(s: Seq<LayoutMonitor>, t: Seq<LayoutMonitor>, a: int, b: int) -> bool {
    &&& t.len() == s.len()
    &&& (forall|i: int|
        0 <= i < s.len() ==> {
            &&& (#[trigger] t[i]).id == s[i].id
            &&& t[i].w == s[i].w
            &&& t[i].h == s[i].h
        })
    &&& match spec_shared_edge(s[a], s[b]) {
        None => t == s,
        Some(SharedEdge::Vertical(_)) => {
            let d = s[b].w - s[a].w;
            &&& (forall|i: int| 0 <= i < s.len() ==> (#[trigger] t[i]).y == s[i].y)
            &&& if s[a].x < s[b].x {
                &&& t[b].x == s[a].x
                &&& t[a].x == s[a].x + s[b].w
                &&& forall|i: int|
                    0 <= i < s.len() && i != a && i != b ==> (#[trigger] t[i]).x == (
                    if s[i].x >= s[b].spec_right() {
                        s[i].x - d
                    } else if s[i].x >= s[a].spec_right() && s[i].x < s[b].x {
                        s[i].x + d
                    } else {
                        s[i].x as int
                    })
            } else {
                &&& t[a].x == s[b].x
                &&& t[b].x == s[b].x + s[a].w
                &&& forall|i: int|
                    0 <= i < s.len() && i != a && i != b ==> (#[trigger] t[i]).x == (
                    if s[i].x >= s[a].spec_right() {
                        s[i].x + d
                    } else if s[i].x >= s[b].spec_right() && s[i].x < s[a].x {
                        s[i].x - d
                    } else {
                        s[i].x as int
                    })
            }
        },
        Some(SharedEdge::Horizontal(_)) => {
            let d = s[b].h - s[a].h;
            &&& (forall|i: int| 0 <= i < s.len() ==> (#[trigger] t[i]).x == s[i].x)
            &&& if s[a].y < s[b].y {
                &&& t[b].y == s[a].y
                &&& t[a].y == s[a].y + s[b].h
                &&& forall|i: int|
                    0 <= i < s.len() && i != a && i != b ==> (#[trigger] t[i]).y == (
                    if s[i].y >= s[b].spec_bottom() {
                        s[i].y - d
                    } else {
                        s[i].y as int
                    })
            } else {
                &&& t[a].y == s[b].y
                &&& t[b].y == s[b].y + s[a].h
                &&& forall|i: int|
                    0 <= i < s.len() && i != a && i != b ==> (#[trigger] t[i]).y == (
                    if s[i].y >= s[a].spec_bottom() {
                        s[i].y + d
                    } else {
                        s[i].y as int
                    })
            }
        },
    }
}

/// Swap two monitors' positions. Each takes the other's position,
/// adjusted so they remain touching. Also shifts other monitors
/// to fill gaps caused by different sizes.
pub fn swap_monitors(monitors: &mut Vec<LayoutMonitor>, a: usize, b: usize)
    requires
        wf_all(old(monitors)@),
        a < old(monitors)@.len(),
        b < old(monitors)@.len(),
    ensures
        swap_rel(old(monitors)@, final(monitors)@, a as int, b as int),
{
    let ghost s = monitors@;
    proof {
        assert(s[a as int].wf());
        assert(s[b as int].wf());
    }
    let a_x = monitors[a].x;
    let a_y = monitors[a].y;
    let b_x = monitors[b].x;
    let b_y = monitors[b].y;
    let a_w = monitors[a].w;
    let b_w = monitors[b].w;
    let a_h = monitors[a].h;
    let b_h = monitors[b].h;

    let edge = shared_edge(&monitors[a], &monitors[b]);
    match edge {
        None => {},
        Some(SharedEdge::Vertical(_)) => {
            let size_diff = b_w - a_w;
            if a_x < b_x {
                // a was left, b was right: trade slots, then shift all
                // monitors to the right of b's old right edge back by the
                // width difference, and those strictly between the pair
                // forward by it.
                monitors[b].x = a_x;
                monitors[a].x = a_x + b_w;
                let old_b_right = b_x + b_w;
                let a_right = a_x + a_w;
                let mut i: usize = 0;
                while i < monitors.len()
                    invariant
                        wf_all(s),
                        monitors@.len() == s.len(),
                        a < s.len(),
                        b < s.len(),
                        i <= s.len(),
                        a_x == s[a as int].x,
                        b_x == s[b as int].x,
                        a_w == s[a as int].w,
                        b_w == s[b as int].w,
                        size_diff == b_w - a_w,
                        old_b_right == s[b as int].spec_right(),
                        a_right == s[a as int].spec_right(),
                        forall|k: int|
                            0 <= k < s.len() ==> {
                                &&& (#[trigger] monitors@[k]).id == s[k].id
                                &&& monitors@[k].w == s[k].w
                                &&& monitors@[k].h == s[k].h
                                &&& monitors@[k].y == s[k].y
                            },
                        monitors@[b as int].x == a_x,
                        monitors@[a as int].x == a_x + b_w,
                        forall|k: int|
                            0 <= k < s.len() && k != a && k != b && k >= i
                                ==> (#[trigger] monitors@[k]).x == s[k].x,
                        forall|k: int|
                            0 <= k < s.len() && k != a && k != b && k < i
                                ==> (#[trigger] monitors@[k]).x == (
                            if s[k].x >= s[b as int].spec_right() {
                                s[k].x - (b_w - a_w)
                            } else if s[k].x >= s[a as int].spec_right() && s[k].x < s[b as int].x {
                                s[k].x + (b_w - a_w)
                            } else {
                                s[k].x as int
                            }),
                    decreases s.len() - i,
                {
                    if i != a && i != b {
                        proof {
                            assert(s[i as int].wf());
                            assert(s[a as int].wf());
                            assert(s[b as int].wf());
                            assert(monitors@[i as int] == s[i as int]);
                        }
                        if monitors[i].x >= old_b_right {
                            monitors[i].x = monitors[i].x - size_diff;
                        } else if monitors[i].x >= a_right && monitors[i].x < b_x {
                            monitors[i].x = monitors[i].x + size_diff;
                        }
                    }
                    i += 1;
                }
            } else {
                monitors[a].x = b_x;
                monitors[b].x = b_x + a_w;
                let old_a_right = a_x + a_w;
                let b_right = b_x + b_w;
                let mut i: usize = 0;
                while i < monitors.len()
                    invariant
                        wf_all(s),
                        monitors@.len() == s.len(),
                        a < s.len(),
                        b < s.len(),
                        i <= s.len(),
                        a_x == s[a as int].x,
                        b_x == s[b as int].x,
                        a_w == s[a as int].w,
                        b_w == s[b as int].w,
                        size_diff == b_w - a_w,
                        old_a_right == s[a as int].spec_right(),
                        b_right == s[b as int].spec_right(),
                        forall|k: int|
                            0 <= k < s.len() ==> {
                                &&& (#[trigger] monitors@[k]).id == s[k].id
                                &&& monitors@[k].w == s[k].w
                                &&& monitors@[k].h == s[k].h
                                &&& monitors@[k].y == s[k].y
                            },
                        monitors@[a as int].x == b_x,
                        monitors@[b as int].x == b_x + a_w,
                        forall|k: int|
                            0 <= k < s.len() && k != a && k != b && k >= i
                                ==> (#[trigger] monitors@[k]).x == s[k].x,
                        forall|k: int|
                            0 <= k < s.len() && k != a && k != b && k < i
                                ==> (#[trigger] monitors@[k]).x == (
                            if s[k].x >= s[a as int].spec_right() {
                                s[k].x + (b_w - a_w)
                            } else if s[k].x >= s[b as int].spec_right() && s[k].x < s[a as int].x {
                                s[k].x - (b_w - a_w)
                            } else {
                                s[k].x as int
                            }),
                    decreases s.len() - i,
                {
                    if i != a && i != b {
                        proof {
                            assert(s[i as int].wf());
                            assert(s[a as int].wf());
                            assert(s[b as int].wf());
                            assert(monitors@[i as int] == s[i as int]);
                        }
                        if monitors[i].x >= old_a_right {
                            monitors[i].x = monitors[i].x + size_diff;
                        } else if monitors[i].x >= b_right && monitors[i].x < a_x {
                            monitors[i].x = monitors[i].x - size_diff;
                        }
                    }
                    i += 1;
                }
            }
        },
        Some(SharedEdge::Horizontal(_)) => {
            let size_diff = b_h - a_h;
            if a_y < b_y {
                monitors[b].y = a_y;
                monitors[a].y = a_y + b_h;
                let old_b_bottom = b_y + b_h;
                let mut i: usize = 0;
                while i < monitors.len()
                    invariant
                        wf_all(s),
                        monitors@.len() == s.len(),
                        a < s.len(),
                        b < s.len(),
                        i <= s.len(),
                        a_y == s[a as int].y,
                        b_y == s[b as int].y,
                        a_h == s[a as int].h,
                        b_h == s[b as int].h,
                        size_diff == b_h - a_h,
                        old_b_bottom == s[b as int].spec_bottom(),
                        forall|k: int|
                            0 <= k < s.len() ==> {
                                &&& (#[trigger] monitors@[k]).id == s[k].id
                                &&& monitors@[k].w == s[k].w
                                &&& monitors@[k].h == s[k].h
                                &&& monitors@[k].x == s[k].x
                            },
                        monitors@[b as int].y == a_y,
                        monitors@[a as int].y == a_y + b_h,
                        forall|k: int|
                            0 <= k < s.len() && k != a && k != b && k >= i
                                ==> (#[trigger] monitors@[k]).y == s[k].y,
                        forall|k: int|
                            0 <= k < s.len() && k != a && k != b && k < i
                                ==> (#[trigger] monitors@[k]).y == (
                            if s[k].y >= s[b as int].spec_bottom() {
                                s[k].y - (b_h - a_h)
                            } else {
                                s[k].y as int
                            }),
                    decreases s.len() - i,
                {
                    if i != a && i != b {
                        proof {
                            assert(s[i as int].wf());
                            assert(s[a as int].wf());
                            assert(s[b as int].wf());
                            assert(monitors@[i as int] == s[i as int]);
                        }
                        if monitors[i].y >= old_b_bottom {
                            monitors[i].y = monitors[i].y - size_diff;
                        }
                    }
                    i += 1;
                }
            } else {
                monitors[a].y = b_y;
                monitors[b].y = b_y + a_h;
                let old_a_bottom = a_y + a_h;
                let mut i: usize = 0;
                while i < monitors.len()
                    invariant
                        wf_all(s),
                        monitors@.len() == s.len(),
                        a < s.len(),
                        b < s.len(),
                        i <= s.len(),
                        a_y == s[a as int].y,
                        b_y == s[b as int].y,
                        a_h == s[a as int].h,
                        b_h == s[b as int].h,
                        size_diff == b_h - a_h,
                        old_a_bottom == s[a as int].spec_bottom(),
                        forall|k: int|
                            0 <= k < s.len() ==> {
                                &&& (#[trigger] monitors@[k]).id == s[k].id
                                &&& monitors@[k].w == s[k].w
                                &&& monitors@[k].h == s[k].h
                                &&& monitors@[k].x == s[k].x
                            },
                        monitors@[a as int].y == b_y,
                        monitors@[b as int].y == b_y + a_h,
                        forall|k: int|
                            0 <= k < s.len() && k != a && k != b && k >= i
                                ==> (#[trigger] monitors@[k]).y == s[k].y,
                        forall|k: int|
                            0 <= k < s.len() && k != a && k != b && k < i
                                ==> (#[trigger] monitors@[k]).y == (
                            if s[k].y >= s[a as int].spec_bottom() {
                                s[k].y + (b_h - a_h)
                            } else {
                                s[k].y as int
                            }),
                    decreases s.len() - i,
                {
                    if i != a && i != b {
                        proof {
                            assert(s[i as int].wf());
                            assert(s[a as int].wf());
                            assert(s[b as int].wf());
                            assert(monitors@[i as int] == s[i as int]);
                        }
                        if monitors[i].y >= old_a_bottom {
                            monitors[i].y = monitors[i].y + size_diff;
                        }
                    }
                    i += 1;
                }
            }
        },
    }
}

/// Exact description of what `slide_monitor` does: the selected monitor moves
/// by `step` along the axis matching `dir`; if that loses contact with the
/// neighbor, it is snapped flush against whichever side of the neighbor its
/// center now falls nearer to, with the perpendicular coordinate copied from
/// the neighbor.
pub open spec fn slide_rel(
    s: Seq<LayoutMonitor>,
    t: Seq<LayoutMonitor>,
    sel: int,
    nb: int,
    dir: Direction,
    step: int,
) -> bool {
    let m = s[sel];
    let n = s[nb];
    let x1 = m.x + (if dir == Direction::Left {
        -step
    } else if dir == Direction::Right {
        step
    } else {
        0
    });
    let y1 = m.y + (if dir == Direction::Up {
        -step
    } else if dir == Direction::Down {
        step
    } else {
        0
    });
    &&& t.len() == s.len()
    &&& (forall|i: int| 0 <= i < s.len() && i != sel ==> #[trigger] t[i] == s[i])
    &&& t[sel].id == m.id
    &&& t[sel].w == m.w
    &&& t[sel].h == m.h
    &&& if touches_at(x1, y1, m, n) {
        t[sel].x == x1 && t[sel].y == y1
    } else {
        match dir {
            Direction::Up | Direction::Down => {
                if y1 + m.h / 2 < n.y + n.h / 2 {
                    t[sel].y == n.y - m.h && t[sel].x == n.x
                } else {
                    t[sel].y == n.spec_bottom() && t[sel].x == n.x
                }
            },
            Direction::Left | Direction::Right => {
                if x1 + m.w / 2 < n.x + n.w / 2 {
                    t[sel].x == n.x - m.w && t[sel].y == n.y
                } else {
                    t[sel].x == n.spec_right() && t[sel].y == n.y
                }
            },
        }
    }
}

/// Slide a monitor along a shared edge.
/// If the slide causes them to lose their shared edge, snap to stacked/side-by-side.
/// Either way the slid monitor ends up sharing an edge with the neighbor:
/// it is never left floating with a gap.
pub fn slide_monitor(
    monitors: &mut Vec<LayoutMonitor>,
    selected: usize,
    neighbor: usize,
    dir: Direction,
    step: i32,
)
    requires
        wf_all(old(monitors)@),
        selected < old(monitors)@.len(),
        neighbor < old(monitors)@.len(),
        neighbor != selected,
        0 <= step <= MAX_COORD,
    ensures
        slide_rel(
            old(monitors)@,
            final(monitors)@,
            selected as int,
            neighbor as int,
            dir,
            step as int,
        ),
        spec_shared_edge(
            final(monitors)@[selected as int],
            final(monitors)@[neighbor as int],
        ) is Some,
{
    let ghost s = monitors@;
    proof {
        assert(s[selected as int].wf());
        assert(s[neighbor as int].wf());
    }
    let delta = match dir {
        Direction::Up => -step,
        Direction::Down => step,
        Direction::Left => -step,
        Direction::Right => step,
    };

    // Apply the slide
    match dir {
        Direction::Up | Direction::Down => {
            monitors[selected].y = monitors[selected].y + delta;
        },
        Direction::Left | Direction::Right => {
            monitors[selected].x = monitors[selected].x + delta;
        },
    }

    let ghost x1 = monitors@[selected as int].x as int;
    let ghost y1 = monitors@[selected as int].y as int;

    // Check if they still share an edge
    let still_touching = shared_edge(&monitors[selected], &monitors[neighbor]).is_some();
    proof {
        assert(still_touching == touches_at(x1, y1, s[selected as int], s[neighbor as int]));
    }

    if !still_touching {
        // Snap flush against whichever side of the neighbor the center of the
        // slid monitor now falls nearer to.
        let nbr_x = monitors[neighbor].x;
        let nbr_y = monitors[neighbor].y;
        let nbr_w = monitors[neighbor].w;
        let nbr_h = monitors[neighbor].h;
        let nbr_right = nbr_x + nbr_w;
        let nbr_bottom = nbr_y + nbr_h;
        let nbr_cy = nbr_y + nbr_h / 2;
        let nbr_cx = nbr_x + nbr_w / 2;

        let sel_cy = monitors[selected].y + monitors[selected].h / 2;
        let sel_cx = monitors[selected].x + monitors[selected].w / 2;

        match dir {
            Direction::Up | Direction::Down => {
                if sel_cy < nbr_cy {
                    monitors[selected].y = nbr_y - monitors[selected].h;
                    monitors[selected].x = nbr_x;
                } else {
                    monitors[selected].y = nbr_bottom;
                    monitors[selected].x = nbr_x;
                }
            },
            Direction::Left | Direction::Right => {
                if sel_cx < nbr_cx {
                    monitors[selected].x = nbr_x - monitors[selected].w;
                    monitors[selected].y = nbr_y;
                } else {
                    monitors[selected].x = nbr_right;
                    monitors[selected].y = nbr_y;
                }
            },
        }
    }
    proof {
        lemma_touches_at_is_shared_edge(
            final(monitors)@[selected as int],
            final(monitors)@[neighbor as int],
        );
    }
}

/// Monitor `i` shares with `sel` an edge perpendicular to `dir` that lies
/// exactly on the `dir` side of `sel`: the neighbor `sel` would push into.
pub open spec fn is_perp_in_dir(s: Seq<LayoutMonitor>, sel: int, i: int, dir: Direction) -> bool {
    &&& 0 <= i < s.len()
    &&& i != sel
    &&& match spec_shared_edge(s[sel], s[i]) {
        Some(SharedEdge::Vertical(ex)) => (dir == Direction::Left && ex == s[sel].x) || (dir
            == Direction::Right && ex == s[sel].spec_right()),
        Some(SharedEdge::Horizontal(ey)) => (dir == Direction::Up && ey == s[sel].y) || (dir
            == Direction::Down && ey == s[sel].spec_bottom()),
        None => false,
    }
}

/// Monitor `i` shares with `sel` an edge parallel to `dir`: a neighbor `sel`
/// can slide along.
pub open spec fn is_parallel_nb(s: Seq<LayoutMonitor>, sel: int, i: int, dir: Direction) -> bool {
    &&& 0 <= i < s.len()
    &&& i != sel
    &&& match spec_shared_edge(s[sel], s[i]) {
        Some(SharedEdge::Vertical(_)) => dir == Direction::Up || dir == Direction::Down,
        Some(SharedEdge::Horizontal(_)) => dir == Direction::Left || dir == Direction::Right,
        None => false,
    }
}

/// The first index below `n` that is a perpendicular in-direction neighbor of
/// `sel`, if any.
pub open spec fn first_perp_upto(s: Seq<LayoutMonitor>, sel: int, dir: Direction, n: int) -> Option<
    int,
>
    decreases n,
{
    if n <= 0 {
        None
    } else if first_perp_upto(s, sel, dir, n - 1) is Some {
        first_perp_upto(s, sel, dir, n - 1)
    } else if is_perp_in_dir(s, sel, n - 1, dir) {
        Some(n - 1)
    } else {
        None
    }
}

/// The first index below `n` that is a parallel neighbor of `sel`, if any.
pub open spec fn first_parallel_upto(
    s: Seq<LayoutMonitor>,
    sel: int,
    dir: Direction,
    n: int,
) -> Option<int>
    decreases n,
{
    if n <= 0 {
        None
    } else if first_parallel_upto(s, sel, dir, n - 1) is Some {
        first_parallel_upto(s, sel, dir, n - 1)
    } else if is_parallel_nb(s, sel, n - 1, dir) {
        Some(n - 1)
    } else {
        None
    }
}

/// Exact description of what `move_monitor` does: with fewer than two
/// monitors nothing changes; with a perpendicular neighbor in the pressed
/// direction the pair is swapped; otherwise with a parallel neighbor the
/// selected monitor slides; otherwise (the selected monitor is at the
/// extremity of the layout in that direction) nothing changes.
pub open spec fn move_rel(
    s: Seq<LayoutMonitor>,
    t: Seq<LayoutMonitor>,
    sel: int,
    dir: Direction,
    step: int,
) -> bool {
    if s.len() <= 1 {
        t == s
    } else {
        match first_perp_upto(s, sel, dir, s.len() as int) {
            Some(ni) => swap_rel(s, t, sel, ni),
            None => match first_parallel_upto(s, sel, dir, s.len() as int) {
                Some(ni) => slide_rel(s, t, sel, ni, dir, step),
                None => t == s,
            },
        }
    }
}

/// Move the selected monitor in the given direction.
/// - Perpendicular to a shared edge in that direction: swap positions
/// - Parallel to a shared edge: slide along it
/// - No neighbor with a shared edge: do nothing
pub fn move_monitor(monitors: &mut Vec<LayoutMonitor>, selected: usize, dir: Direction, step: i32)
    requires
        wf_all(old(monitors)@),
        selected < old(monitors)@.len(),
        0 <= step <= MAX_COORD,
    ensures
        move_rel(old(monitors)@, final(monitors)@, selected as int, dir, step as int),
{
    if monitors.len() <= 1 {
        return ;
    }
    let ghost s = monitors@;
    let ghost sel = selected as int;

    // Find neighbors that share an edge with the selected monitor:
    // the perpendicular neighbor in the pressed direction, and the first
    // parallel neighbor.
    let mut perp_neighbor: Option<usize> = None;
    let mut parallel_neighbor: Option<usize> = None;
    let mut i: usize = 0;
    while i < monitors.len()
        invariant
            wf_all(s),
            s == monitors@,
            sel == selected as int,
            selected < s.len(),
            i <= s.len(),
            perp_neighbor is None <==> first_perp_upto(s, sel, dir, i as int) is None,
            perp_neighbor matches Some(p) ==> p < s.len() && first_perp_upto(s, sel, dir, i as int)
                == Some(p as int),
            parallel_neighbor is None <==> first_parallel_upto(s, sel, dir, i as int) is None,
            parallel_neighbor matches Some(p) ==> p < s.len() && p != selected
                && first_parallel_upto(s, sel, dir, i as int) == Some(p as int),
        decreases s.len() - i,
    {
        if i != selected {
            proof {
                assert(s[i as int].wf());
                assert(s[sel].wf());
            }
            let edge = shared_edge(&monitors[selected], &monitors[i]);
            if let Some(e) = edge {
                let is_perp = match (e, dir) {
                    (SharedEdge::Vertical(_), Direction::Left) => true,
                    (SharedEdge::Vertical(_), Direction::Right) => true,
                    (SharedEdge::Horizontal(_), Direction::Up) => true,
                    (SharedEdge::Horizontal(_), Direction::Down) => true,
                    _ => false,
                };
                if is_perp {
                    // Only accept the neighbor that actually lies in the
                    // direction being pressed.
                    let in_dir = match (e, dir) {
                        (SharedEdge::Vertical(ex), Direction::Left) => ex == monitors[selected].x,
                        (SharedEdge::Vertical(ex), Direction::Right) => ex
                            == monitors[selected].right(),
                        (SharedEdge::Horizontal(ey), Direction::Up) => ey == monitors[selected].y,
                        (SharedEdge::Horizontal(ey), Direction::Down) => ey
                            == monitors[selected].bottom(),
                        _ => false,
                    };
                    if in_dir && perp_neighbor.is_none() {
                        perp_neighbor = Some(i);
                    }
                } else if parallel_neighbor.is_none() {
                    parallel_neighbor = Some(i);
                }
            }
        }
        i += 1;
    }

    if let Some(ni) = perp_neighbor {
        // Perpendicular neighbor in the right direction: swap.
        swap_monitors(monitors, selected, ni);
    } else if let Some(ni) = parallel_neighbor {
        // No perpendicular neighbor in that direction: slide along the
        // parallel edge.
        slide_monitor(monitors, selected, ni, dir, step);
    }
    // If neither: the monitor is already at the edge in that direction.
}

/// Moving the lone monitor of a single-monitor collection never changes
/// anything.
pub proof fn lemma_move_single_noop(
    s: Seq<LayoutMonitor>,
    t: Seq<LayoutMonitor>,
    sel: int,
    dir: Direction,
    step: int,
)
    requires
        s.len() <= 1,
        move_rel(s, t, sel, dir, step),
    ensures
        t == s,
{
}

proof fn lemma_first_perp_none(s: Seq<LayoutMonitor>, sel: int, dir: Direction, n: int)
    requires
        forall|i: int| !is_perp_in_dir(s, sel, i, dir),
    ensures
        first_perp_upto(s, sel, dir, n) is None,
    decreases n,
{
    if n > 0 {
        lemma_first_perp_none(s, sel, dir, n - 1);
    }
}

proof fn lemma_first_parallel_none(s: Seq<LayoutMonitor>, sel: int, dir: Direction, n: int)
    requires
        forall|i: int| !is_parallel_nb(s, sel, i, dir),
    ensures
        first_parallel_upto(s, sel, dir, n) is None,
    decreases n,
{
    if n > 0 {
        lemma_first_parallel_none(s, sel, dir, n - 1);
    }
}

/// Moving a monitor that has no perpendicular neighbor in the pressed
/// direction and no parallel neighbor at all — the extremity monitor, pushed
/// away from the layout — changes nothing.
pub proof fn lemma_move_extremity_noop(
    s: Seq<LayoutMonitor>,
    t: Seq<LayoutMonitor>,
    sel: int,
    dir: Direction,
    step: int,
)
    requires
        move_rel(s, t, sel, dir, step),
        forall|i: int| !is_perp_in_dir(s, sel, i, dir),
        forall|i: int| !is_parallel_nb(s, sel, i, dir),
    ensures
        t == s,
{
    lemma_first_perp_none(s, sel, dir, s.len() as int);
    lemma_first_parallel_none(s, sel, dir, s.len() as int);
}

/// Swapping two side-by-side monitors of equal width exchanges their x
/// positions exactly and moves nothing else.
pub proof fn lemma_swap_equal_width_exchanges_x(
    s: Seq<LayoutMonitor>,
    t: Seq<LayoutMonitor>,
    a: int,
    b: int,
)
    requires
        0 <= a < s.len(),
        0 <= b < s.len(),
        s[a].wf(),
        s[b].wf(),
        spec_shared_edge(s[a], s[b]) matches Some(SharedEdge::Vertical(_)),
        s[a].w == s[b].w,
        swap_rel(s, t, a, b),
    ensures
        t[a].x == s[b].x,
        t[b].x == s[a].x,
        forall|i: int|
            0 <= i < s.len() && i != a && i != b ==> #[trigger] t[i] == s[i],
        forall|i: int|
            0 <= i < s.len() ==> {
                &&& (#[trigger] t[i]).id == s[i].id
                &&& t[i].y == s[i].y
                &&& t[i].w == s[i].w
                &&& t[i].h == s[i].h
            },
{
    assert forall|i: int| 0 <= i < s.len() && i != a && i != b implies #[trigger] t[i] == s[i] by {
        assert(t[i].x == s[i].x);
    }
}

/// Swapping two stacked monitors of equal height exchanges their y positions
/// exactly and moves nothing else.
pub proof fn lemma_swap_equal_height_exchanges_y(
    s: Seq<LayoutMonitor>,
    t: Seq<LayoutMonitor>,
    a: int,
    b: int,
)
    requires
        0 <= a < s.len(),
        0 <= b < s.len(),
        s[a].wf(),
        s[b].wf(),
        spec_shared_edge(s[a], s[b]) matches Some(SharedEdge::Horizontal(_)),
        s[a].h == s[b].h,
        swap_rel(s, t, a, b),
    ensures
        t[a].y == s[b].y,
        t[b].y == s[a].y,
        forall|i: int|
            0 <= i < s.len() && i != a && i != b ==> #[trigger] t[i] == s[i],
        forall|i: int|
            0 <= i < s.len() ==> {
                &&& (#[trigger] t[i]).id == s[i].id
                &&& t[i].x == s[i].x
                &&& t[i].w == s[i].w
                &&& t[i].h == s[i].h
            },
{
    assert forall|i: int| 0 <= i < s.len() && i != a && i != b implies #[trigger] t[i] == s[i] by {
        assert(t[i].y == s[i].y);
    }
}

} // verus!
