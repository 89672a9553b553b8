//! Snap operations: placing a monitor flush against a chosen side of another
//! monitor, or against the far extremity of the whole layout in a direction.

use vstd::prelude::*;

use crate::geom::Direction;
use crate::geom::LayoutMonitor;
use crate::geom::MAX_COORD;
use crate::geom::wf_all;

verus! {

/// Exact description of what `snap_to_side` does: the selected monitor is
/// placed flush against `target`'s `dir` side, aligned with `target` on the
/// perpendicular axis; nothing else moves.
pub open spec fn snap_side_rel(
    s: Seq<LayoutMonitor>,
    t: Seq<LayoutMonitor>,
    sel: int,
    target: int,
    dir: Direction,
) -> bool {
    let m = s[sel];
    let tg = s[target];
    &&& t.len() == s.len()
    &&& (forall|i: int| 0 <= i < s.len() && i != sel ==> #[trigger] t[i] == s[i])
    &&& t[sel].id == m.id
    &&& t[sel].w == m.w
    &&& t[sel].h == m.h
    &&& match dir {
        Direction::Left => t[sel].x == tg.x - m.w && t[sel].y == tg.y,
        Direction::Right => t[sel].x == tg.spec_right() && t[sel].y == tg.y,
        Direction::Up => t[sel].x == tg.x && t[sel].y == tg.y - m.h,
        Direction::Down => t[sel].x == tg.x && t[sel].y == tg.spec_bottom(),
    }
}

/// Snap `selected` flush against a specific side of `target`, overwriting
/// both coordinates. Collision cleanup is the caller's responsibility.
pub fn snap_to_side(monitors: &mut Vec<LayoutMonitor>, selected: usize, target: usize, dir: Direction)
    requires
        wf_all(old(monitors)@),
        selected < old(monitors)@.len(),
        target < old(monitors)@.len(),
    ensures
        snap_side_rel(old(monitors)@, final(monitors)@, selected as int, target as int, dir),
{
    let ghost s = monitors@;
    proof {
        assert(s[selected as int].wf());
        assert(s[target as int].wf());
    }
    let tw = monitors[target].w;
    let th = monitors[target].h;
    let tx = monitors[target].x;
    let ty = monitors[target].y;

    match dir {
        Direction::Left => {
            monitors[selected].x = tx - monitors[selected].w;
            monitors[selected].y = ty;
        },
        Direction::Right => {
            monitors[selected].x = tx + tw;
            monitors[selected].y = ty;
        },
        Direction::Up => {
            monitors[selected].x = tx;
            monitors[selected].y = ty - monitors[selected].h;
        },
        Direction::Down => {
            monitors[selected].x = tx;
            monitors[selected].y = ty + th;
        },
    }
}

/// Smallest x among the monitors below index `n` other than `sel`
/// (`i32::MAX` when there are none).
pub open spec fn min_x_other(s: Seq<LayoutMonitor>, sel: int, n: int) -> int
    decreases n,
{
    if n <= 0 {
        i32::MAX as int
    } else if n - 1 == sel {
        min_x_other(s, sel, n - 1)
    } else if s[n - 1].x < min_x_other(s, sel, n - 1) {
        s[n - 1].x as int
    } else {
        min_x_other(s, sel, n - 1)
    }
}

/// Largest right edge among the monitors below index `n` other than `sel`
/// (`i32::MIN` when there are none).
pub open spec fn max_right_other(s: Seq<LayoutMonitor>, sel: int, n: int) -> int
    decreases n,
{
    if n <= 0 {
        i32::MIN as int
    } else if n - 1 == sel {
        max_right_other(s, sel, n - 1)
    } else if s[n - 1].spec_right() > max_right_other(s, sel, n - 1) {
        s[n - 1].spec_right()
    } else {
        max_right_other(s, sel, n - 1)
    }
}

/// Smallest y among the monitors below index `n` other than `sel`
/// (`i32::MAX` when there are none).
pub open spec fn min_y_other(s: Seq<LayoutMonitor>, sel: int, n: int) -> int
    decreases n,
{
    if n <= 0 {
        i32::MAX as int
    } else if n - 1 == sel {
        min_y_other(s, sel, n - 1)
    } else if s[n - 1].y < min_y_other(s, sel, n - 1) {
        s[n - 1].y as int
    } else {
        min_y_other(s, sel, n - 1)
    }
}

/// Largest bottom edge among the monitors below index `n` other than `sel`
/// (`i32::MIN` when there are none).
pub open spec fn max_bottom_other(s: Seq<LayoutMonitor>, sel: int, n: int) -> int
    decreases n,
{
    if n <= 0 {
        i32::MIN as int
    } else if n - 1 == sel {
        max_bottom_other(s, sel, n - 1)
    } else if s[n - 1].spec_bottom() > max_bottom_other(s, sel, n - 1) {
        s[n - 1].spec_bottom()
    } else {
        max_bottom_other(s, sel, n - 1)
    }
}

/// Monitor `i` is the one whose edge defines the layout extremity in `dir`,
/// among the monitors other than `sel`.
pub open spec fn at_far_edge(s: Seq<LayoutMonitor>, sel: int, i: int, dir: Direction) -> bool {
    match dir {
        Direction::Left => s[i].x == min_x_other(s, sel, s.len() as int),
        Direction::Right => s[i].spec_right() == max_right_other(s, sel, s.len() as int),
        Direction::Up => s[i].y == min_y_other(s, sel, s.len() as int),
        Direction::Down => s[i].spec_bottom() == max_bottom_other(s, sel, s.len() as int),
    }
}

/// The first index below `n`, other than `sel`, whose edge achieves the
/// layout extremity in `dir`, if any.
pub open spec fn far_ref_upto(s: Seq<LayoutMonitor>, sel: int, dir: Direction, n: int) -> Option<
    int,
>
    decreases n,
{
    if n <= 0 {
        None
    } else if far_ref_upto(s, sel, dir, n - 1) is Some {
        far_ref_upto(s, sel, dir, n - 1)
    } else if n - 1 != sel && at_far_edge(s, sel, n - 1, dir) {
        Some(n - 1)
    } else {
        None
    }
}

/// Exact description of what `snap_to_far_side` does: with fewer than two
/// monitors nothing changes; otherwise the selected monitor is placed flush
/// against the extreme edge of all the other monitors in `dir`, aligned on
/// the perpendicular axis with the first monitor that defines that extremity.
pub open spec fn far_side_rel(
    s: Seq<LayoutMonitor>,
    t: Seq<LayoutMonitor>,
    sel: int,
    dir: Direction,
) -> bool {
    if s.len() <= 1 {
        t == s
    } else {
        let n = s.len() as int;
        let align = far_ref_upto(s, sel, dir, n);
        &&& t.len() == s.len()
        &&& (forall|i: int| 0 <= i < s.len() && i != sel ==> #[trigger] t[i] == s[i])
        &&& t[sel].id == s[sel].id
        &&& t[sel].w == s[sel].w
        &&& t[sel].h == s[sel].h
        &&& match dir {
            Direction::Left => t[sel].x == min_x_other(s, sel, n) - s[sel].w && t[sel].y == (
            match align {
                Some(r) => s[r].y as int,
                None => 0,
            }),
            Direction::Right => t[sel].x == max_right_other(s, sel, n) && t[sel].y == (
            match align {
                Some(r) => s[r].y as int,
                None => 0,
            }),
            Direction::Up => t[sel].y == min_y_other(s, sel, n) - s[sel].h && t[sel].x == (
            match align {
                Some(r) => s[r].x as int,
                None => 0,
            }),
            Direction::Down => t[sel].y == max_bottom_other(s, sel, n) && t[sel].x == (
            match align {
                Some(r) => s[r].x as int,
                None => 0,
            }),
        }
    }
}

/// Snap `selected` to the far side of the entire layout in the given
/// direction: flush against the extremity of all the other monitors, aligned
/// with the monitor that defines it.
pub fn snap_to_far_side(monitors: &mut Vec<LayoutMonitor>, selected: usize, dir: Direction)
    requires
        wf_all(old(monitors)@),
        selected < old(monitors)@.len(),
    ensures
        far_side_rel(old(monitors)@, final(monitors)@, selected as int, dir),
{
    if monitors.len() <= 1 {
        return ;
    }
    let ghost s = monitors@;
    let ghost n = s.len() as int;
    let ghost sel = selected as int;
    proof {
        assert(s[sel].wf());
    }

    let sel_w = monitors[selected].w;
    let sel_h = monitors[selected].h;

    // Find the extreme edges of all OTHER monitors.
    let mut min_x: i32 = i32::MAX;
    let mut max_x: i32 = i32::MIN;
    let mut min_y: i32 = i32::MAX;
    let mut max_y: i32 = i32::MIN;

    let mut i: usize = 0;
    while i < monitors.len()
        invariant
            wf_all(s),
            s == monitors@,
            sel == selected as int,
            selected < s.len(),
            i <= s.len(),
            min_x == min_x_other(s, sel, i as int),
            max_x == max_right_other(s, sel, i as int),
            min_y == min_y_other(s, sel, i as int),
            max_y == max_bottom_other(s, sel, i as int),
            min_x >= -MAX_COORD,
            min_y >= -MAX_COORD,
            forall|j: int| 0 <= j < i && j != sel ==> min_x <= #[trigger] s[j].x,
            forall|j: int| 0 <= j < i && j != sel ==> max_x >= (#[trigger] s[j]).spec_right(),
            forall|j: int| 0 <= j < i && j != sel ==> min_y <= #[trigger] s[j].y,
            forall|j: int| 0 <= j < i && j != sel ==> max_y >= (#[trigger] s[j]).spec_bottom(),
        decreases s.len() - i,
    {
        if i != selected {
            proof {
                assert(s[i as int].wf());
            }
            let m = &monitors[i];
            if m.x < min_x {
                min_x = m.x;
            }
            let m_right = m.right();
            if m_right > max_x {
                max_x = m_right;
            }
            if m.y < min_y {
                min_y = m.y;
            }
            let m_bottom = m.bottom();
            if m_bottom > max_y {
                max_y = m_bottom;
            }
        }
        i += 1;
    }

    proof {
        // At least one other monitor exists, so every extremity is a real
        // monitor edge, safely inside the i32 range.
        let w: int = if sel == 0 {
            1
        } else {
            0
        };
        assert(s[w].wf());
        assert(min_x <= s[w].x);
        assert(max_x >= s[w].spec_right());
        assert(min_y <= s[w].y);
        assert(max_y >= s[w].spec_bottom());
    }

    // Align with the first monitor at the far edge, then place flush.
    match dir {
        Direction::Left => {
            let new_x = min_x - sel_w;
            let mut ref_y: i32 = 0;
            let mut found = false;
            let mut i: usize = 0;
            while i < monitors.len()
                invariant
                    wf_all(s),
                    s == monitors@,
                    sel == selected as int,
                    selected < s.len(),
                    i <= s.len(),
                    n == s.len() as int,
                    min_x == min_x_other(s, sel, n),
                    !found ==> far_ref_upto(s, sel, dir, i as int) is None && ref_y == 0,
                    found ==> (far_ref_upto(s, sel, dir, i as int) matches Some(r) && ref_y
                        == s[r].y),
                    dir == Direction::Left,
                decreases s.len() - i,
            {
                if !found && i != selected && monitors[i].x == min_x {
                    ref_y = monitors[i].y;
                    found = true;
                }
                i += 1;
            }
            monitors[selected].x = new_x;
            monitors[selected].y = ref_y;
        },
        Direction::Right => {
            let mut ref_y: i32 = 0;
            let mut found = false;
            let mut i: usize = 0;
            while i < monitors.len()
                invariant
                    wf_all(s),
                    s == monitors@,
                    sel == selected as int,
                    selected < s.len(),
                    i <= s.len(),
                    n == s.len() as int,
                    max_x == max_right_other(s, sel, n),
                    !found ==> far_ref_upto(s, sel, dir, i as int) is None && ref_y == 0,
                    found ==> (far_ref_upto(s, sel, dir, i as int) matches Some(r) && ref_y
                        == s[r].y),
                    dir == Direction::Right,
                decreases s.len() - i,
            {
                if i != selected {
                    proof {
                        assert(s[i as int].wf());
                    }
                    if !found && monitors[i].right() == max_x {
                        ref_y = monitors[i].y;
                        found = true;
                    }
                }
                i += 1;
            }
            monitors[selected].x = max_x;
            monitors[selected].y = ref_y;
        },
        Direction::Up => {
            let new_y = min_y - sel_h;
            let mut ref_x: i32 = 0;
            let mut found = false;
            let mut i: usize = 0;
            while i < monitors.len()
                invariant
                    wf_all(s),
                    s == monitors@,
                    sel == selected as int,
                    selected < s.len(),
                    i <= s.len(),
                    n == s.len() as int,
                    min_y == min_y_other(s, sel, n),
                    !found ==> far_ref_upto(s, sel, dir, i as int) is None && ref_x == 0,
                    found ==> (far_ref_upto(s, sel, dir, i as int) matches Some(r) && ref_x
                        == s[r].x),
                    dir == Direction::Up,
                decreases s.len() - i,
            {
                if !found && i != selected && monitors[i].y == min_y {
                    ref_x = monitors[i].x;
                    found = true;
                }
                i += 1;
            }
            monitors[selected].y = new_y;
            monitors[selected].x = ref_x;
        },
        Direction::Down => {
            let mut ref_x: i32 = 0;
            let mut found = false;
            let mut i: usize = 0;
            while i < monitors.len()
                invariant
                    wf_all(s),
                    s == monitors@,
                    sel == selected as int,
                    selected < s.len(),
                    i <= s.len(),
                    n == s.len() as int,
                    max_y == max_bottom_other(s, sel, n),
                    !found ==> far_ref_upto(s, sel, dir, i as int) is None && ref_x == 0,
                    found ==> (far_ref_upto(s, sel, dir, i as int) matches Some(r) && ref_x
                        == s[r].x),
                    dir == Direction::Down,
                decreases s.len() - i,
            {
                if i != selected {
                    proof {
                        assert(s[i as int].wf());
                    }
                    if !found && monitors[i].bottom() == max_y {
                        ref_x = monitors[i].x;
                        found = true;
                    }
                }
                i += 1;
            }
            monitors[selected].y = max_y;
            monitors[selected].x = ref_x;
        },
    }
}

} // verus!
