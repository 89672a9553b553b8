//! Overlap resolution: a monitor that overlaps others is pushed out along a
//! single axis, choosing at every step the push that lands it closest to a
//! caller-supplied reference point.

use vstd::prelude::*;

use crate::geom::LayoutMonitor;
use crate::geom::MAX_COORD;
use crate::geom::MAX_DIM;
use crate::geom::spec_horizontal_overlap;
use crate::geom::spec_vertical_overlap;
use crate::geom::wf_all;

verus! {

/// The two monitors intersect with positive area.
pub open spec fn overlaps_both(a: LayoutMonitor, b: LayoutMonitor) -> bool {
    spec_horizontal_overlap(a, b) && spec_vertical_overlap(a, b)
}

/// Squared distance from the reference point after pushing the moved monitor
/// by `(dx, dy)`.
pub open spec fn cand_score(
    s: Seq<LayoutMonitor>,
    moved: int,
    dx: int,
    dy: int,
    ox: int,
    oy: int,
) -> int {
    let rx = s[moved].x + dx - ox;
    let ry = s[moved].y + dy - oy;
    rx * rx + ry * ry
}

/// The better-scoring of two push candidates `(dx, dy, score)`; the first one
/// on a tie.
pub open spec fn min_cand(c1: (int, int, int), c2: (int, int, int)) -> (int, int, int) {
    if c2.2 < c1.2 {
        c2
    } else {
        c1
    }
}

/// The best of the four single-axis pushes that separate the moved monitor
/// from monitor `j`: left, right, up, down, in that order on ties.
pub open spec fn best_cand_for(
    s: Seq<LayoutMonitor>,
    moved: int,
    j: int,
    ox: int,
    oy: int,
) -> (int, int, int) {
    let m = s[moved];
    let o = s[j];
    let pl = o.x - m.spec_right();
    let pr = o.spec_right() - m.x;
    let pu = o.y - m.spec_bottom();
    let pd = o.spec_bottom() - m.y;
    let cl = (pl, 0int, cand_score(s, moved, pl, 0, ox, oy));
    let cr = (pr, 0int, cand_score(s, moved, pr, 0, ox, oy));
    let cu = (0int, pu, cand_score(s, moved, 0, pu, ox, oy));
    let cd = (0int, pd, cand_score(s, moved, 0, pd, ox, oy));
    min_cand(min_cand(min_cand(cl, cr), cu), cd)
}

/// The best push over all monitors below index `n` that overlap the moved
/// one; the first on a tie; `None` when nothing overlaps.
pub open spec fn best_push_upto(
    s: Seq<LayoutMonitor>,
    moved: int,
    ox: int,
    oy: int,
    n: int,
) -> Option<(int, int, int)>
    decreases n,
{
    if n <= 0 {
        None
    } else {
        let prev = best_push_upto(s, moved, ox, oy, n - 1);
        if n - 1 == moved || !overlaps_both(s[moved], s[n - 1]) {
            prev
        } else {
            let c = best_cand_for(s, moved, n - 1, ox, oy);
            match prev {
                None => Some(c),
                Some(p) => if c.2 < p.2 {
                    Some(c)
                } else {
                    Some(p)
                },
            }
        }
    }
}

/// Apply the best push to the moved monitor, if any monitor overlaps it.
pub open spec fn ro_step(s: Seq<LayoutMonitor>, moved: int, ox: int, oy: int) -> Seq<
    LayoutMonitor,
> {
    match best_push_upto(s, moved, ox, oy, s.len() as int) {
        None => s,
        Some(c) => s.update(
            moved,
            LayoutMonitor {
                id: s[moved].id,
                x: (s[moved].x + c.0) as i32,
                y: (s[moved].y + c.1) as i32,
                w: s[moved].w,
                h: s[moved].h,
            },
        ),
    }
}

/// Up to `fuel` pushes, stopping as soon as nothing overlaps the moved
/// monitor.
pub open spec fn ro_iter(s: Seq<LayoutMonitor>, moved: int, ox: int, oy: int, fuel: nat) -> Seq<
    LayoutMonitor,
>
    decreases fuel,
{
    if fuel == 0 {
        s
    } else if best_push_upto(s, moved, ox, oy, s.len() as int) is None {
        s
    } else {
        ro_iter(ro_step(s, moved, ox, oy), moved, ox, oy, (fuel - 1) as nat)
    }
}

/// Exact description of what `resolve_overlaps` does: for up to `len`
/// rounds, the single-axis push that lands the moved monitor nearest the
/// reference point is applied, until no monitor overlaps it.
pub open spec fn resolve_rel(
    s: Seq<LayoutMonitor>,
    t: Seq<LayoutMonitor>,
    moved: int,
    ox: int,
    oy: int,
) -> bool {
    t == ro_iter(s, moved, ox, oy, s.len())
}

proof fn lemma_square_bound(a: int, b: int)
    by (nonlinear_arith)
    requires
        -b <= a <= b,
        0 <= b <= 0x40000000,
    ensures
        0 <= a * a <= b * b,
{
}

/// Push the `moved` monitor out of any overlapping monitors.
/// Picks the push that places the monitor closest to `(orig_x, orig_y)` (its
/// position before the operation), so it doesn't overshoot to the wrong side.
pub fn resolve_overlaps(monitors: &mut Vec<LayoutMonitor>, moved: usize, orig_x: i32, orig_y: i32)
    requires
        wf_all(old(monitors)@),
        moved < old(monitors)@.len(),
        -MAX_COORD <= orig_x <= MAX_COORD,
        -MAX_COORD <= orig_y <= MAX_COORD,
    ensures
        resolve_rel(
            old(monitors)@,
            final(monitors)@,
            moved as int,
            orig_x as int,
            orig_y as int,
        ),
{
    let ghost s0 = monitors@;
    let ghost mv = moved as int;
    let ghost ox = orig_x as int;
    let ghost oy = orig_y as int;
    let n = monitors.len();
    proof {
        assert(s0[mv].wf());
    }

    let mut it: usize = 0;
    let mut done = false;
    while it < n && !done
        invariant
            wf_all(s0),
            s0.len() == n,
            moved < n,
            mv == moved as int,
            ox == orig_x as int,
            oy == orig_y as int,
            -MAX_COORD <= ox <= MAX_COORD,
            -MAX_COORD <= oy <= MAX_COORD,
            it <= n,
            monitors@.len() == n,
            forall|k: int| 0 <= k < n && k != mv ==> #[trigger] monitors@[k] == s0[k],
            monitors@[mv].id == s0[mv].id,
            monitors@[mv].w == s0[mv].w,
            monitors@[mv].h == s0[mv].h,
            -MAX_COORD - MAX_DIM <= monitors@[mv].x <= MAX_COORD + MAX_DIM,
            -MAX_COORD - MAX_DIM <= monitors@[mv].y <= MAX_COORD + MAX_DIM,
            ro_iter(s0, mv, ox, oy, n as nat) == (if done {
                monitors@
            } else {
                ro_iter(monitors@, mv, ox, oy, (n - it) as nat)
            }),
        decreases n - it,
    {
        let ghost v = monitors@;
        proof {
            assert(s0[mv].wf());
        }
        let mut best: Option<(i32, i32, i64)> = None;
        let mut j: usize = 0;
        while j < n
            invariant
                wf_all(s0),
                s0.len() == n,
                moved < n,
                j <= n,
                mv == moved as int,
                ox == orig_x as int,
                oy == orig_y as int,
                -MAX_COORD <= ox <= MAX_COORD,
                -MAX_COORD <= oy <= MAX_COORD,
                monitors@ == v,
                monitors@.len() == n,
                forall|k: int| 0 <= k < n && k != mv ==> #[trigger] v[k] == s0[k],
                v[mv].id == s0[mv].id,
                v[mv].w == s0[mv].w,
                v[mv].h == s0[mv].h,
                -MAX_COORD - MAX_DIM <= v[mv].x <= MAX_COORD + MAX_DIM,
                -MAX_COORD - MAX_DIM <= v[mv].y <= MAX_COORD + MAX_DIM,
                best is None <==> best_push_upto(v, mv, ox, oy, j as int) is None,
                best matches Some(b) ==> best_push_upto(v, mv, ox, oy, j as int) == Some(
                    (b.0 as int, b.1 as int, b.2 as int),
                ),
            decreases n - j,
        {
            if j != moved {
                proof {
                    assert(s0[j as int].wf());
                    assert(s0[mv].wf());
                }
                let h_overlap = monitors[moved].horizontal_overlap(&monitors[j]);
                let v_overlap = monitors[moved].vertical_overlap(&monitors[j]);

                if h_overlap.is_some() && v_overlap.is_some() {
                    let push_left = monitors[j].x - monitors[moved].right();
                    let push_right = monitors[j].right() - monitors[moved].x;
                    let push_up = monitors[j].y - monitors[moved].bottom();
                    let push_down = monitors[j].bottom() - monitors[moved].y;

                    // Score each candidate by how close the result would be
                    // to the original position; keep the first of the four
                    // (left, right, up, down) with the lowest score.
                    proof {
                        lemma_square_bound(v[mv].y - oy, 0x10020000);
                        lemma_square_bound(v[mv].x - ox, 0x10020000);
                        lemma_square_bound(s0[j as int].x - v[mv].w - ox, 0x10020000);
                        lemma_square_bound(s0[j as int].spec_right() - ox, 0x10020000);
                        lemma_square_bound(s0[j as int].y - v[mv].h - oy, 0x10020000);
                        lemma_square_bound(s0[j as int].spec_bottom() - oy, 0x10020000);
                    }
                    let ry0 = (monitors[moved].y - orig_y) as i64;
                    let rx0 = (monitors[moved].x - orig_x) as i64;
                    let rxl = (monitors[moved].x + push_left - orig_x) as i64;
                    let rxr = (monitors[moved].x + push_right - orig_x) as i64;
                    let ryu = (monitors[moved].y + push_up - orig_y) as i64;
                    let ryd = (monitors[moved].y + push_down - orig_y) as i64;
                    let score_l = rxl * rxl + ry0 * ry0;
                    let score_r = rxr * rxr + ry0 * ry0;
                    let score_u = rx0 * rx0 + ryu * ryu;
                    let score_d = rx0 * rx0 + ryd * ryd;

                    let mut bdx = push_left;
                    let mut bdy: i32 = 0;
                    let mut bsc = score_l;
                    if score_r < bsc {
                        bdx = push_right;
                        bdy = 0;
                        bsc = score_r;
                    }
                    if score_u < bsc {
                        bdx = 0;
                        bdy = push_up;
                        bsc = score_u;
                    }
                    if score_d < bsc {
                        bdx = 0;
                        bdy = push_down;
                        bsc = score_d;
                    }
                    proof {
                        assert((bdx as int, bdy as int, bsc as int) == best_cand_for(
                            v,
                            mv,
                            j as int,
                            ox,
                            oy,
                        ));
                    }

                    let better = match best {
                        None => true,
                        Some((_, _, bs)) => bsc < bs,
                    };
                    if better {
                        best = Some((bdx, bdy, bsc));
                    }
                }
            }
            j += 1;
        }

        match best {
            Some((dx, dy, _)) => {
                proof {
                    assert(s0[mv].wf());
                    lemma_best_push_is_flush(v, mv, ox, oy, n as int);
                }
                monitors[moved].x = monitors[moved].x + dx;
                monitors[moved].y = monitors[moved].y + dy;
                proof {
                    assert(monitors@ =~= ro_step(v, mv, ox, oy));
                }
            },
            None => {
                done = true;
            },
        }
        it += 1;
    }
}

/// The push that `best_push_upto` returns lands the moved monitor flush
/// against the edge of some other monitor, so the new position stays within
/// one monitor size of the ordinary coordinate bound.
proof fn lemma_best_push_is_flush(s: Seq<LayoutMonitor>, moved: int, ox: int, oy: int, n: int)
    requires
        0 <= moved < s.len(),
        n <= s.len(),
        forall|k: int| 0 <= k < s.len() && k != moved ==> (#[trigger] s[k]).wf(),
        0 < s[moved].w <= MAX_DIM,
        0 < s[moved].h <= MAX_DIM,
        -MAX_COORD - MAX_DIM <= s[moved].x <= MAX_COORD + MAX_DIM,
        -MAX_COORD - MAX_DIM <= s[moved].y <= MAX_COORD + MAX_DIM,
    ensures
        best_push_upto(s, moved, ox, oy, n) matches Some(c) ==> {
            &&& -MAX_COORD - MAX_DIM <= s[moved].x + c.0 <= MAX_COORD + MAX_DIM
            &&& -MAX_COORD - MAX_DIM <= s[moved].y + c.1 <= MAX_COORD + MAX_DIM
        },
    decreases n,
{
    if n > 0 {
        lemma_best_push_is_flush(s, moved, ox, oy, n - 1);
        if n - 1 != moved && overlaps_both(s[moved], s[n - 1]) {
            assert(s[n - 1].wf());
        }
    }
}

} // verus!
