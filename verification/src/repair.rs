//! Connectivity repair: any monitor that touches no other is snapped flush
//! against its nearest neighbor, pass after pass, until a full pass finds
//! nothing to fix or the pass budget runs out.

use vstd::prelude::*;

use crate::connect::spec_connected;
use crate::geom::LayoutMonitor;
use crate::geom::MAX_COORD;
use crate::geom::MAX_DIM;
use crate::geom::MAX_MONITORS;
use crate::geom::lemma_shared_edge_irreflexive;
use crate::geom::lemma_shared_edge_symmetric;
use crate::geom::shared_edge;
use crate::geom::spec_shared_edge;
use crate::geom::wf_all;
use crate::connect::edge_between;
use crate::connect::is_path;
use crate::connect::spec_reachable;
use crate::search::abs_val;
use crate::search::center_dist;
use crate::search::center_x;
use crate::search::center_y;

verus! {

/// Monitor `i` shares an edge with at least one other monitor.
pub open spec fn touches_some(s: Seq<LayoutMonitor>, i: int) -> bool {
    exists|j: int|
        0 <= j < s.len() && j != i && (#[trigger] spec_shared_edge(s[i], s[j])) is Some
}

/// The monitor nearest to `i` by Manhattan center distance among the
/// monitors below index `n` other than `i`; the first one on a tie.
pub open spec fn nearest_upto(s: Seq<LayoutMonitor>, i: int, n: int) -> Option<int>
    decreases n,
{
    if n <= 0 {
        None
    } else {
        let prev = nearest_upto(s, i, n - 1);
        if n - 1 == i {
            prev
        } else {
            match prev {
                None => Some(n - 1),
                Some(p) => if center_dist(s, i, n - 1) < center_dist(s, i, p) {
                    Some(n - 1)
                } else {
                    Some(p)
                },
            }
        }
    }
}

/// The position monitor `i` is snapped to: flush against the side of `ni`
/// along whichever axis separates their centers more, with the perpendicular
/// coordinate copied from `ni`.
pub open spec fn snap_step(s: Seq<LayoutMonitor>, i: int, ni: int) -> LayoutMonitor {
    let m = s[i];
    let t = s[ni];
    let dx = center_x(m) - center_x(t);
    let dy = center_y(m) - center_y(t);
    if abs_val(dx) > abs_val(dy) {
        LayoutMonitor {
            id: m.id,
            x: if dx > 0 {
                (t.x + t.w) as i32
            } else {
                (t.x - m.w) as i32
            },
            y: t.y,
            w: m.w,
            h: m.h,
        }
    } else {
        LayoutMonitor {
            id: m.id,
            x: t.x,
            y: if dy > 0 {
                (t.y + t.h) as i32
            } else {
                (t.y - m.h) as i32
            },
            w: m.w,
            h: m.h,
        }
    }
}

/// One repair pass over indices `i..len`: every monitor touching none other
/// is snapped to its nearest neighbor, in index order, each snap visible to
/// the checks that follow it. Returns the new collection and whether any
/// monitor was fixed.
pub open spec fn snap_pass(s: Seq<LayoutMonitor>, i: int) -> (Seq<LayoutMonitor>, bool)
    decreases s.len() - i,
{
    if i < 0 || i >= s.len() {
        (s, false)
    } else {
        let fix = !touches_some(s, i) && nearest_upto(s, i, s.len() as int) is Some;
        let s1 = if fix {
            s.update(i, snap_step(s, i, nearest_upto(s, i, s.len() as int)->Some_0))
        } else {
            s
        };
        let r = snap_pass(s1, i + 1);
        (r.0, fix || r.1)
    }
}

/// Up to `fuel` repair passes, stopping early when a pass fixes nothing.
pub open spec fn snap_iter(s: Seq<LayoutMonitor>, fuel: nat) -> Seq<LayoutMonitor>
    decreases fuel,
{
    if fuel == 0 {
        s
    } else {
        let r = snap_pass(s, 0);
        if !r.1 {
            s
        } else {
            snap_iter(r.0, (fuel - 1) as nat)
        }
    }
}

/// Exact description of what `auto_snap_all` does: with fewer than two
/// monitors nothing changes; otherwise up to `len` repair passes run, each
/// snapping every floating monitor to its nearest neighbor.
pub open spec fn auto_snap_rel(s: Seq<LayoutMonitor>, t: Seq<LayoutMonitor>) -> bool {
    if s.len() <= 1 {
        t == s
    } else {
        t == snap_iter(s, s.len())
    }
}

/// A pass that fixes nothing changes nothing.
proof fn lemma_snap_pass_no_fix(s: Seq<LayoutMonitor>, i: int)
    ensures
        !snap_pass(s, i).1 ==> snap_pass(s, i).0 == s,
    decreases s.len() - i,
{
    if 0 <= i < s.len() {
        lemma_snap_pass_no_fix(s, i + 1);
        if !touches_some(s, i) && nearest_upto(s, i, s.len() as int) is Some {
            lemma_snap_pass_no_fix(s.update(i, snap_step(s, i, nearest_upto(s, i, s.len() as int)->Some_0)), i + 1);
        }
    }
}

/// Once some monitor below `m` qualifies as nearest, one still does below any
/// larger bound.
proof fn lemma_nearest_some_mono(s: Seq<LayoutMonitor>, i: int, m: int, n: int)
    requires
        0 <= m <= n,
        nearest_upto(s, i, m) is Some,
    ensures
        nearest_upto(s, i, n) is Some,
    decreases n,
{
    if n > m {
        lemma_nearest_some_mono(s, i, m, n - 1);
    }
}

/// A pass over monitors that all touch another fixes nothing and changes
/// nothing.
proof fn lemma_snap_pass_all_touch(s: Seq<LayoutMonitor>, i: int)
    requires
        forall|k: int| 0 <= k < s.len() ==> touches_some(s, k),
    ensures
        snap_pass(s, i) == (s, false),
    decreases s.len() - i,
{
    if 0 <= i < s.len() {
        assert(touches_some(s, i));
        lemma_snap_pass_all_touch(s, i + 1);
    }
}

/// In a connected layout of at least two monitors, every monitor shares an
/// edge with another.
pub proof fn lemma_connected_all_touch(s: Seq<LayoutMonitor>)
    requires
        wf_all(s),
        s.len() >= 2,
        spec_connected(s),
    ensures
        forall|i: int| 0 <= i < s.len() ==> touches_some(s, i),
{
    assert forall|i: int| 0 <= i < s.len() implies touches_some(s, i) by {
        assert(s[i].wf());
        if i == 0 {
            // Monitor 0 reaches monitor 1 through some walk whose first step
            // leaves monitor 0 across a shared edge.
            assert(spec_reachable(s, 1));
            let p = choose|p: Seq<int>| is_path(s, p) && p.last() == 1;
            assert(p.last() == p[p.len() - 1]);
            assert(p.len() >= 2);
            assert(edge_between(s, p[0], p[1]));
            let j = p[1];
            assert(s[j].wf());
            if j == 0 {
                lemma_shared_edge_irreflexive(s[0], s[0]);
                assert(false);
            }
            assert(spec_shared_edge(s[i], s[j]) is Some);
        } else {
            // The walk that reaches monitor i ends with a shared edge into it.
            assert(spec_reachable(s, i));
            let p = choose|p: Seq<int>| is_path(s, p) && p.last() == i;
            assert(p.last() == p[p.len() - 1]);
            assert(p.len() >= 2);
            assert(edge_between(s, p[p.len() - 2], p[p.len() - 1]));
            let j = p[p.len() - 2];
            assert(s[j].wf());
            if j == i {
                lemma_shared_edge_irreflexive(s[i], s[i]);
                assert(false);
            }
            lemma_shared_edge_symmetric(s[j], s[i]);
            assert(spec_shared_edge(s[i], s[j]) is Some);
        }
    }
}

/// Repairing an already-connected layout is a no-op: the collection comes out
/// bitwise equal.
pub proof fn lemma_auto_snap_connected_noop(s: Seq<LayoutMonitor>, t: Seq<LayoutMonitor>)
    requires
        wf_all(s),
        spec_connected(s),
        auto_snap_rel(s, t),
    ensures
        t == s,
{
    if s.len() > 1 {
        lemma_connected_all_touch(s);
        lemma_snap_pass_all_touch(s, 0);
        assert(snap_iter(s, s.len()) == s);
    }
}

/// Every coordinate of the collection is within `b` of zero.
pub open spec fn within_bound(s: Seq<LayoutMonitor>, b: int) -> bool {
    forall|k: int|
        0 <= k < s.len() ==> -b <= (#[trigger] s[k]).x <= b && -b <= s[k].y <= b
}

/// The sizes and identities match the original collection.
pub open spec fn same_frames(s: Seq<LayoutMonitor>, s0: Seq<LayoutMonitor>) -> bool {
    &&& s.len() == s0.len()
    &&& forall|k: int|
        0 <= k < s.len() ==> {
            &&& (#[trigger] s[k]).id == s0[k].id
            &&& s[k].w == s0[k].w
            &&& s[k].h == s0[k].h
        }
}

/// Largest coordinate magnitude that can arise while the repair passes run:
/// each of the at most 64 * 64 snaps moves a monitor flush against another,
/// at most one monitor size further out.
pub const LOOSE_COORD: i32 = MAX_COORD + 268435456;

/// A collection in mid-repair: positive sizes, coordinates loosely bounded.
pub open spec fn loose_wf(s: Seq<LayoutMonitor>) -> bool {
    forall|k: int|
        0 <= k < s.len() ==> {
            &&& 0 < (#[trigger] s[k]).w <= MAX_DIM
            &&& 0 < s[k].h <= MAX_DIM
            &&& -LOOSE_COORD <= s[k].x <= LOOSE_COORD
            &&& -LOOSE_COORD <= s[k].y <= LOOSE_COORD
        }
}

/// Does monitor `i` share an edge with any other monitor?
fn touches_any(monitors: &Vec<LayoutMonitor>, i: usize) -> (r: bool)
    requires
        loose_wf(monitors@),
        i < monitors@.len(),
    ensures
        r == touches_some(monitors@, i as int),
{
    let ghost v = monitors@;
    let n = monitors.len();
    let mut touches = false;
    let mut j: usize = 0;
    while j < n
        invariant
            loose_wf(v),
            v == monitors@,
            i < n,
            n == v.len(),
            j <= n,
            touches == exists|jj: int|
                0 <= jj < j && jj != i && (#[trigger] spec_shared_edge(v[i as int], v[jj])) is Some,
        decreases n - j,
    {
        if j != i {
            proof {
                assert(v[i as int].w == monitors@[i as int].w);
                assert(v[j as int].w == monitors@[j as int].w);
            }
            if shared_edge(&monitors[i], &monitors[j]).is_some() {
                touches = true;
            }
        }
        j += 1;
    }
    touches
}

/// The index of the monitor nearest to `i` by Manhattan center distance.
fn nearest_index(monitors: &Vec<LayoutMonitor>, i: usize) -> (r: Option<usize>)
    requires
        loose_wf(monitors@),
        i < monitors@.len(),
    ensures
        r is None <==> nearest_upto(monitors@, i as int, monitors@.len() as int) is None,
        r matches Some(p) ==> p < monitors@.len() && p != i && nearest_upto(
            monitors@,
            i as int,
            monitors@.len() as int,
        ) == Some(p as int),
{
    let ghost v = monitors@;
    let ghost sel = i as int;
    let n = monitors.len();
    let mut best: Option<(usize, i32)> = None;
    let mut j: usize = 0;
    while j < n
        invariant
            loose_wf(v),
            v == monitors@,
            i < n,
            n == v.len(),
            j <= n,
            sel == i as int,
            best is None <==> nearest_upto(v, sel, j as int) is None,
            best matches Some(p) ==> p.0 < n && p.0 != i && nearest_upto(v, sel, j as int) == Some(
                p.0 as int,
            ) && p.1 == center_dist(v, sel, p.0 as int),
        decreases n - j,
    {
        if j != i {
            proof {
                assert(v[i as int].w == monitors@[i as int].w);
                assert(v[j as int].w == monitors@[j as int].w);
            }
            let cx = monitors[i].x + monitors[i].w / 2;
            let cy = monitors[i].y + monitors[i].h / 2;
            let ocx = monitors[j].x + monitors[j].w / 2;
            let ocy = monitors[j].y + monitors[j].h / 2;
            let ddx = cx - ocx;
            let ddy = cy - ocy;
            let d = (if ddx >= 0 {
                ddx
            } else {
                -ddx
            }) + (if ddy >= 0 {
                ddy
            } else {
                -ddy
            });
            let better = match best {
                None => true,
                Some((_, bd)) => d < bd,
            };
            if better {
                best = Some((j, d));
            }
        }
        j += 1;
    }
    match best {
        Some((bi, _)) => Some(bi),
        None => None,
    }
}

/// Ensure all monitors are connected to the layout by snapping any floating
/// ones to the nearest monitor. Call after every move operation.
pub fn auto_snap_all(monitors: &mut Vec<LayoutMonitor>)
    requires
        wf_all(old(monitors)@),
        old(monitors)@.len() <= MAX_MONITORS,
    ensures
        auto_snap_rel(old(monitors)@, final(monitors)@),
{
    let n = monitors.len();
    if n <= 1 {
        return ;
    }
    let ghost s0 = monitors@;
    proof {
        assert forall|k: int| 0 <= k < s0.len() implies -MAX_COORD <= (#[trigger] s0[k]).x
            <= MAX_COORD && -MAX_COORD <= s0[k].y <= MAX_COORD by {
            assert(s0[k].wf());
        }
        assert((0 * n) * MAX_DIM == 0) by (nonlinear_arith);
    }

    let mut pass: usize = 0;
    let mut done = false;
    while pass < n && !done
        invariant
            2 <= n <= MAX_MONITORS,
            s0.len() == n,
            wf_all(s0),
            pass <= n,
            monitors@.len() == n,
            same_frames(monitors@, s0),
            within_bound(monitors@, MAX_COORD + (pass * n) * MAX_DIM),
            snap_iter(s0, n as nat) == (if done {
                monitors@
            } else {
                snap_iter(monitors@, (n - pass) as nat)
            }),
        decreases n - pass,
    {
        let ghost cur = monitors@;
        let mut any_fixed = false;
        let mut i: usize = 0;
        while i < n
            invariant
                2 <= n <= MAX_MONITORS,
                s0.len() == n,
                wf_all(s0),
                pass < n,
                i <= n,
                monitors@.len() == n,
                same_frames(monitors@, s0),
                within_bound(monitors@, MAX_COORD + (pass * n + i) * MAX_DIM),
                snap_pass(cur, 0).0 == snap_pass(monitors@, i as int).0,
                snap_pass(cur, 0).1 == (any_fixed || snap_pass(monitors@, i as int).1),
            decreases n - i,
        {
            let ghost v = monitors@;
            let ghost bnd = MAX_COORD + (pass * n + i) * MAX_DIM;
            proof {
                assert((pass * n + i) <= MAX_MONITORS * MAX_MONITORS) by (nonlinear_arith)
                    requires
                        pass < n,
                        i <= n,
                        n <= MAX_MONITORS,
                ;
                assert(0 <= pass * n + i) by (nonlinear_arith)
                    requires
                        0 <= pass,
                        0 <= i,
                        0 <= n,
                ;
                assert forall|k: int| 0 <= k < v.len() implies {
                    &&& 0 < (#[trigger] v[k]).w <= MAX_DIM
                    &&& 0 < v[k].h <= MAX_DIM
                    &&& -LOOSE_COORD <= v[k].x <= LOOSE_COORD
                    &&& -LOOSE_COORD <= v[k].y <= LOOSE_COORD
                } by {
                    assert(s0[k].wf());
                    assert(v[k].w == s0[k].w && v[k].h == s0[k].h);
                    assert(-bnd <= v[k].x <= bnd && -bnd <= v[k].y <= bnd);
                }
                assert(loose_wf(v));
            }

            if !touches_any(monitors, i) {
                match nearest_index(monitors, i) {
                    Some(ni) => {
                        proof {
                            assert(v[ni as int].w == monitors@[ni as int].w);
                            assert(v[i as int].w == monitors@[i as int].w);
                        }
                        let tx = monitors[ni].x;
                        let ty = monitors[ni].y;
                        let tw = monitors[ni].w;
                        let th = monitors[ni].h;
                        let cx = monitors[i].x + monitors[i].w / 2;
                        let cy = monitors[i].y + monitors[i].h / 2;
                        let ncx = tx + tw / 2;
                        let ncy = ty + th / 2;
                        let dx = cx - ncx;
                        let dy = cy - ncy;
                        let adx = if dx >= 0 {
                            dx
                        } else {
                            -dx
                        };
                        let ady = if dy >= 0 {
                            dy
                        } else {
                            -dy
                        };
                        if adx > ady {
                            // Snap horizontally, aligning y with the target.
                            if dx > 0 {
                                monitors[i].x = tx + tw;
                            } else {
                                monitors[i].x = tx - monitors[i].w;
                            }
                            monitors[i].y = ty;
                        } else {
                            // Snap vertically, aligning x with the target.
                            if dy > 0 {
                                monitors[i].y = ty + th;
                            } else {
                                monitors[i].y = ty - monitors[i].h;
                            }
                            monitors[i].x = tx;
                        }
                        any_fixed = true;
                        proof {
                            assert(monitors@ =~= v.update(
                                i as int,
                                snap_step(v, i as int, ni as int),
                            ));
                        }
                    },
                    None => {
                        proof {
                            // With at least two monitors a nearest neighbor
                            // always exists.
                            let w: int = if i == 0 {
                                1
                            } else {
                                0
                            };
                            reveal_with_fuel(nearest_upto, 4);
                            assert(nearest_upto(v, i as int, w + 1) is Some);
                            lemma_nearest_some_mono(v, i as int, w + 1, n as int);
                            assert(false);
                        }
                    },
                }
            }
            i += 1;
        }
        proof {
            assert(snap_pass(monitors@, n as int) == (monitors@, false));
            assert((pass + 1) * n == pass * n + n) by (nonlinear_arith);
            if !any_fixed {
                lemma_snap_pass_no_fix(cur, 0);
                assert(monitors@ == cur);
                assert(snap_iter(cur, (n - pass) as nat) == cur);
            } else {
                assert(snap_iter(cur, (n - pass) as nat) == snap_iter(
                    monitors@,
                    (n - pass - 1) as nat,
                ));
            }
        }
        if !any_fixed {
            done = true;
        }
        pass += 1;
    }
}

} // verus!
