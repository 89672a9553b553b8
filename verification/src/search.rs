//! Neighbor search: which monitor lies next in a compass direction, either
//! strictly beside the selected one (for moves) or merely nearest (for snaps).

use vstd::prelude::*;

use crate::geom::Direction;
use crate::geom::LayoutMonitor;
use crate::geom::spec_horizontal_overlap;
use crate::geom::spec_vertical_overlap;
use crate::geom::wf_all;

verus! {

/// Monitor `i` lies on the `dir` side of `sel`'s matching edge and overlaps
/// `sel` on the perpendicular axis.
pub open spec fn nb_qualifies(s: Seq<LayoutMonitor>, sel: int, i: int, dir: Direction) -> bool {
    &&& 0 <= i < s.len()
    &&& i != sel
    &&& match dir {
        Direction::Left => s[i].spec_right() <= s[sel].x && spec_vertical_overlap(s[sel], s[i]),
        Direction::Right => s[i].x >= s[sel].spec_right() && spec_vertical_overlap(s[sel], s[i]),
        Direction::Up => s[i].spec_bottom() <= s[sel].y && spec_horizontal_overlap(s[sel], s[i]),
        Direction::Down => s[i].y >= s[sel].spec_bottom() && spec_horizontal_overlap(s[sel], s[i]),
    }
}

/// Gap between `sel`'s edge facing `dir` and `i`'s facing edge.
pub open spec fn nb_dist(s: Seq<LayoutMonitor>, sel: int, i: int, dir: Direction) -> int {
    match dir {
        Direction::Left => s[sel].x - s[i].spec_right(),
        Direction::Right => s[i].x - s[sel].spec_right(),
        Direction::Up => s[sel].y - s[i].spec_bottom(),
        Direction::Down => s[i].y - s[sel].spec_bottom(),
    }
}

/// Center coordinate of a monitor on the x axis.
pub open spec fn center_x(m: LayoutMonitor) -> int {
    m.x + m.w / 2
}

/// Center coordinate of a monitor on the y axis.
pub open spec fn center_y(m: LayoutMonitor) -> int {
    m.y + m.h / 2
}

pub open spec fn abs_val(v: int) -> int {
    if v >= 0 {
        v
    } else {
        -v
    }
}

/// Monitor `i` lies in half-plane gap distance `>= 0` from `sel` in `dir`.
pub open spec fn gap_qualifies(s: Seq<LayoutMonitor>, sel: int, i: int, dir: Direction) -> bool {
    &&& 0 <= i < s.len()
    &&& i != sel
    &&& nb_dist(s, sel, i, dir) >= 0
}

/// Monitor `i`'s center lies strictly on the `dir` side of `sel`'s center.
pub open spec fn center_side_qualifies(
    s: Seq<LayoutMonitor>,
    sel: int,
    i: int,
    dir: Direction,
) -> bool {
    &&& 0 <= i < s.len()
    &&& i != sel
    &&& match dir {
        Direction::Left => center_x(s[i]) < center_x(s[sel]),
        Direction::Right => center_x(s[i]) > center_x(s[sel]),
        Direction::Up => center_y(s[i]) < center_y(s[sel]),
        Direction::Down => center_y(s[i]) > center_y(s[sel]),
    }
}

/// Manhattan distance between the centers of monitors `sel` and `i`.
pub open spec fn center_dist(s: Seq<LayoutMonitor>, sel: int, i: int) -> int {
    abs_val(center_x(s[i]) - center_x(s[sel])) + abs_val(center_y(s[i]) - center_y(s[sel]))
}

/// Find the neighbor of `selected` in the given direction: among the monitors
/// on that side with perpendicular overlap, the one with the smallest gap,
/// ties broken by the smallest index.
/// Returns the index of the neighbor.
pub fn find_neighbor(monitors: &Vec<LayoutMonitor>, selected: usize, dir: Direction) -> (r: Option<
    usize,
>)
    requires
        wf_all(monitors@),
        selected < monitors@.len(),
    ensures
        match r {
            Some(i) => {
                &&& nb_qualifies(monitors@, selected as int, i as int, dir)
                &&& forall|j: int|
                    nb_qualifies(monitors@, selected as int, j, dir) ==> nb_dist(
                        monitors@,
                        selected as int,
                        i as int,
                        dir,
                    ) <= nb_dist(monitors@, selected as int, j, dir)
                &&& forall|j: int|
                    nb_qualifies(monitors@, selected as int, j, dir) && nb_dist(
                        monitors@,
                        selected as int,
                        j,
                        dir,
                    ) == nb_dist(monitors@, selected as int, i as int, dir) ==> i <= j
            },
            None => forall|j: int| !nb_qualifies(monitors@, selected as int, j, dir),
        },
{
    let ghost s = monitors@;
    let ghost sel = selected as int;
    let mut best: Option<(usize, i32)> = None;
    let mut i: usize = 0;
    while i < monitors.len()
        invariant
            wf_all(s),
            s == monitors@,
            sel == selected as int,
            selected < s.len(),
            i <= s.len(),
            best is None ==> forall|j: int| 0 <= j < i ==> !nb_qualifies(s, sel, j, dir),
            best matches Some(p) ==> {
                &&& p.0 < i
                &&& nb_qualifies(s, sel, p.0 as int, dir)
                &&& p.1 == nb_dist(s, sel, p.0 as int, dir)
                &&& forall|j: int|
                    0 <= j < i && nb_qualifies(s, sel, j, dir) ==> p.1 <= nb_dist(s, sel, j, dir)
                &&& forall|j: int|
                    0 <= j < i && nb_qualifies(s, sel, j, dir) && nb_dist(s, sel, j, dir) == p.1
                        ==> p.0 <= j
            },
        decreases s.len() - i,
    {
        if i != selected {
            proof {
                assert(s[i as int].wf());
                assert(s[sel].wf());
            }
            let sel_m = &monitors[selected];
            let m = &monitors[i];
            let qualifies = match dir {
                Direction::Left => m.right() <= sel_m.x && sel_m.vertical_overlap(m).is_some(),
                Direction::Right => m.x >= sel_m.right() && sel_m.vertical_overlap(m).is_some(),
                Direction::Up => m.bottom() <= sel_m.y && sel_m.horizontal_overlap(m).is_some(),
                Direction::Down => m.y >= sel_m.bottom() && sel_m.horizontal_overlap(m).is_some(),
            };
            if qualifies {
                let dist = match dir {
                    Direction::Left => sel_m.x - m.right(),
                    Direction::Right => m.x - sel_m.right(),
                    Direction::Up => sel_m.y - m.bottom(),
                    Direction::Down => m.y - sel_m.bottom(),
                };
                let better = match best {
                    None => true,
                    Some((_, bd)) => dist < bd,
                };
                if better {
                    best = Some((i, dist));
                }
            }
        }
        i += 1;
    }
    match best {
        Some((bi, _)) => Some(bi),
        None => None,
    }
}

/// Find the nearest monitor in a direction, ignoring edge sharing (for snap
/// operations): the monitor with the smallest nonnegative gap in `dir`, or,
/// if none lies in that half-plane, the monitor whose center is strictly on
/// the `dir` side with the smallest Manhattan center distance. Ties are
/// broken by the smallest index.
pub fn find_nearest(monitors: &Vec<LayoutMonitor>, selected: usize, dir: Direction) -> (r: Option<
    usize,
>)
    requires
        wf_all(monitors@),
        selected < monitors@.len(),
    ensures
        match r {
            Some(i) => {
                if exists|j: int| gap_qualifies(monitors@, selected as int, j, dir) {
                    &&& gap_qualifies(monitors@, selected as int, i as int, dir)
                    &&& forall|j: int|
                        gap_qualifies(monitors@, selected as int, j, dir) ==> nb_dist(
                            monitors@,
                            selected as int,
                            i as int,
                            dir,
                        ) <= nb_dist(monitors@, selected as int, j, dir)
                    &&& forall|j: int|
                        gap_qualifies(monitors@, selected as int, j, dir) && nb_dist(
                            monitors@,
                            selected as int,
                            j,
                            dir,
                        ) == nb_dist(monitors@, selected as int, i as int, dir) ==> i <= j
                } else {
                    &&& center_side_qualifies(monitors@, selected as int, i as int, dir)
                    &&& forall|j: int|
                        center_side_qualifies(monitors@, selected as int, j, dir) ==> center_dist(
                            monitors@,
                            selected as int,
                            i as int,
                        ) <= center_dist(monitors@, selected as int, j)
                    &&& forall|j: int|
                        center_side_qualifies(monitors@, selected as int, j, dir) && center_dist(
                            monitors@,
                            selected as int,
                            j,
                        ) == center_dist(monitors@, selected as int, i as int) ==> i <= j
                }
            },
            None => {
                &&& forall|j: int| !gap_qualifies(monitors@, selected as int, j, dir)
                &&& forall|j: int| !center_side_qualifies(monitors@, selected as int, j, dir)
            },
        },
{
    let ghost s = monitors@;
    let ghost sel = selected as int;
    let mut best: Option<(usize, i32)> = None;
    let mut i: usize = 0;
    while i < monitors.len()
        invariant
            wf_all(s),
            s == monitors@,
            sel == selected as int,
            selected < s.len(),
            i <= s.len(),
            best is None ==> forall|j: int| 0 <= j < i ==> !gap_qualifies(s, sel, j, dir),
            best matches Some(p) ==> {
                &&& p.0 < i
                &&& gap_qualifies(s, sel, p.0 as int, dir)
                &&& p.1 == nb_dist(s, sel, p.0 as int, dir)
                &&& forall|j: int|
                    0 <= j < i && gap_qualifies(s, sel, j, dir) ==> p.1 <= nb_dist(s, sel, j, dir)
                &&& forall|j: int|
                    0 <= j < i && gap_qualifies(s, sel, j, dir) && nb_dist(s, sel, j, dir) == p.1
                        ==> p.0 <= j
            },
        decreases s.len() - i,
    {
        if i != selected {
            proof {
                assert(s[i as int].wf());
                assert(s[sel].wf());
            }
            let sel_m = &monitors[selected];
            let m = &monitors[i];
            let dist = match dir {
                Direction::Left => sel_m.x - m.right(),
                Direction::Right => m.x - sel_m.right(),
                Direction::Up => sel_m.y - m.bottom(),
                Direction::Down => m.y - sel_m.bottom(),
            };
            if dist >= 0 {
                let better = match best {
                    None => true,
                    Some((_, bd)) => dist < bd,
                };
                if better {
                    best = Some((i, dist));
                }
            }
        }
        i += 1;
    }

    if best.is_none() {
        // No monitor lies strictly in that direction: fall back to the
        // nearest monitor by center whose center is on the correct side.
        proof {
            assert(s[sel].wf());
        }
        let sel_cx = monitors[selected].x + monitors[selected].w / 2;
        let sel_cy = monitors[selected].y + monitors[selected].h / 2;
        let mut closest: Option<(usize, i32)> = None;
        let mut i: usize = 0;
        while i < monitors.len()
            invariant
                wf_all(s),
                s == monitors@,
                sel == selected as int,
                selected < s.len(),
                i <= s.len(),
                sel_cx == center_x(s[sel]),
                sel_cy == center_y(s[sel]),
                closest is None ==> forall|j: int|
                    0 <= j < i ==> !center_side_qualifies(s, sel, j, dir),
                closest matches Some(p) ==> {
                    &&& p.0 < i
                    &&& center_side_qualifies(s, sel, p.0 as int, dir)
                    &&& p.1 == center_dist(s, sel, p.0 as int)
                    &&& forall|j: int|
                        0 <= j < i && center_side_qualifies(s, sel, j, dir) ==> p.1 <= center_dist(
                            s,
                            sel,
                            j,
                        )
                    &&& forall|j: int|
                        0 <= j < i && center_side_qualifies(s, sel, j, dir) && center_dist(
                            s,
                            sel,
                            j,
                        ) == p.1 ==> p.0 <= j
                },
            decreases s.len() - i,
        {
            if i != selected {
                proof {
                    assert(s[i as int].wf());
                    assert(s[sel].wf());
                }
                let m = &monitors[i];
                let cx = m.x + m.w / 2;
                let cy = m.y + m.h / 2;
                let is_correct_side = match dir {
                    Direction::Left => cx < sel_cx,
                    Direction::Right => cx > sel_cx,
                    Direction::Up => cy < sel_cy,
                    Direction::Down => cy > sel_cy,
                };
                if is_correct_side {
                    let dx = cx - sel_cx;
                    let dy = cy - sel_cy;
                    let d = (if dx >= 0 {
                        dx
                    } else {
                        -dx
                    }) + (if dy >= 0 {
                        dy
                    } else {
                        -dy
                    });
                    let better = match closest {
                        None => true,
                        Some((_, bd)) => d < bd,
                    };
                    if better {
                        closest = Some((i, d));
                    }
                }
            }
            i += 1;
        }
        return match closest {
            Some((ci, _)) => Some(ci),
            None => None,
        };
    }

    match best {
        Some((bi, _)) => Some(bi),
        None => None,
    }
}

} // verus!
