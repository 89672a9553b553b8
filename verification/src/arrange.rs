//! Whole-layout rearrangement: translating the layout so its bounding box
//! starts at the origin, and repacking all monitors left to right.

use vstd::prelude::*;

use crate::geom::LayoutMonitor;
use crate::geom::MAX_COORD;
use crate::geom::MAX_DIM;
use crate::geom::MAX_MONITORS;
use crate::geom::wf_all;

verus! {

/// Smallest x among the monitors below index `n` (`i32::MAX` when `n == 0`).
pub open spec fn min_x_upto(s: Seq<LayoutMonitor>, n: int) -> int
    decreases n,
{
    if n <= 0 {
        i32::MAX as int
    } else if s[n - 1].x < min_x_upto(s, n - 1) {
        s[n - 1].x as int
    } else {
        min_x_upto(s, n - 1)
    }
}

/// Smallest y among the monitors below index `n` (`i32::MAX` when `n == 0`).
pub open spec fn min_y_upto(s: Seq<LayoutMonitor>, n: int) -> int
    decreases n,
{
    if n <= 0 {
        i32::MAX as int
    } else if s[n - 1].y < min_y_upto(s, n - 1) {
        s[n - 1].y as int
    } else {
        min_y_upto(s, n - 1)
    }
}

/// Exact description of what `normalize` does: every monitor is translated by
/// the same vector, so that the smallest x and the smallest y become zero.
pub open spec fn norm_rel(s: Seq<LayoutMonitor>, t: Seq<LayoutMonitor>) -> bool {
    &&& t.len() == s.len()
    &&& forall|i: int|
        0 <= i < s.len() ==> {
            &&& (#[trigger] t[i]).id == s[i].id
            &&& t[i].w == s[i].w
            &&& t[i].h == s[i].h
            &&& t[i].x == s[i].x - min_x_upto(s, s.len() as int)
            &&& t[i].y == s[i].y - min_y_upto(s, s.len() as int)
        }
}

/// Normalize the layout so the top-left corner of its bounding box is at
/// (0, 0). No-op on an empty collection.
pub fn normalize(monitors: &mut Vec<LayoutMonitor>)
    requires
        wf_all(old(monitors)@),
    ensures
        norm_rel(old(monitors)@, final(monitors)@),
{
    if monitors.len() == 0 {
        return ;
    }
    let ghost s = monitors@;
    let ghost n = s.len() as int;

    let mut min_x: i32 = i32::MAX;
    let mut min_y: i32 = i32::MAX;
    let mut i: usize = 0;
    while i < monitors.len()
        invariant
            wf_all(s),
            s == monitors@,
            i <= s.len(),
            min_x == min_x_upto(s, i as int),
            min_y == min_y_upto(s, i as int),
            min_x >= -MAX_COORD,
            min_y >= -MAX_COORD,
            forall|j: int| 0 <= j < i ==> min_x <= #[trigger] s[j].x,
            forall|j: int| 0 <= j < i ==> min_y <= #[trigger] s[j].y,
        decreases s.len() - i,
    {
        proof {
            assert(s[i as int].wf());
        }
        if monitors[i].x < min_x {
            min_x = monitors[i].x;
        }
        if monitors[i].y < min_y {
            min_y = monitors[i].y;
        }
        i += 1;
    }
    proof {
        assert(s[0].wf());
        assert(min_x <= s[0].x);
        assert(min_y <= s[0].y);
    }

    let mut i: usize = 0;
    while i < monitors.len()
        invariant
            wf_all(s),
            monitors@.len() == s.len(),
            i <= s.len(),
            min_x == min_x_upto(s, n),
            min_y == min_y_upto(s, n),
            n == s.len() as int,
            -MAX_COORD <= min_x <= MAX_COORD,
            -MAX_COORD <= min_y <= MAX_COORD,
            forall|k: int|
                0 <= k < s.len() ==> {
                    &&& (#[trigger] monitors@[k]).id == s[k].id
                    &&& monitors@[k].w == s[k].w
                    &&& monitors@[k].h == s[k].h
                },
            forall|k: int|
                i <= k < s.len() ==> (#[trigger] monitors@[k]).x == s[k].x && monitors@[k].y
                    == s[k].y,
            forall|k: int|
                0 <= k < i ==> (#[trigger] monitors@[k]).x == s[k].x - min_x && monitors@[k].y
                    == s[k].y - min_y,
        decreases s.len() - i,
    {
        proof {
            assert(s[i as int].wf());
            assert(monitors@[i as int].x == s[i as int].x);
        }
        monitors[i].x = monitors[i].x - min_x;
        monitors[i].y = monitors[i].y - min_y;
        i += 1;
    }
}

/// The smallest x and y over a nonempty well-formed collection stay within
/// the coordinate bound.
proof fn lemma_min_bounds(s: Seq<LayoutMonitor>, n: int)
    requires
        wf_all(s),
        0 < n <= s.len(),
    ensures
        -MAX_COORD <= min_x_upto(s, n) <= MAX_COORD,
        -MAX_COORD <= min_y_upto(s, n) <= MAX_COORD,
    decreases n,
{
    assert(s[n - 1].wf());
    if n == 1 {
        assert(min_x_upto(s, 0) == i32::MAX as int);
        assert(min_y_upto(s, 0) == i32::MAX as int);
    } else {
        lemma_min_bounds(s, n - 1);
    }
}

/// Translating every monitor by the same vector shifts the partial minima by
/// that vector.
proof fn lemma_min_shift(s: Seq<LayoutMonitor>, t: Seq<LayoutMonitor>, n: int)
    requires
        wf_all(s),
        norm_rel(s, t),
        0 < n <= s.len(),
    ensures
        min_x_upto(t, n) == min_x_upto(s, n) - min_x_upto(s, s.len() as int),
        min_y_upto(t, n) == min_y_upto(s, n) - min_y_upto(s, s.len() as int),
    decreases n,
{
    lemma_min_bounds(s, s.len() as int);
    assert(s[n - 1].wf());
    assert(t[n - 1].x == s[n - 1].x - min_x_upto(s, s.len() as int));
    assert(t[n - 1].y == s[n - 1].y - min_y_upto(s, s.len() as int));
    if n == 1 {
        lemma_min_bounds(s, 1);
        assert(min_x_upto(t, 0) == i32::MAX as int);
        assert(min_y_upto(t, 0) == i32::MAX as int);
        assert(min_x_upto(s, 0) == i32::MAX as int);
        assert(min_y_upto(s, 0) == i32::MAX as int);
    } else {
        lemma_min_shift(s, t, n - 1);
        lemma_min_bounds(s, n - 1);
    }
}

/// After `normalize` on a nonempty collection, the smallest x and the
/// smallest y over the whole collection are both zero.
pub proof fn lemma_normalize_origin(s: Seq<LayoutMonitor>, t: Seq<LayoutMonitor>)
    requires
        wf_all(s),
        s.len() > 0,
        norm_rel(s, t),
    ensures
        min_x_upto(t, t.len() as int) == 0,
        min_y_upto(t, t.len() as int) == 0,
{
    lemma_min_shift(s, t, s.len() as int);
}

/// `normalize` is idempotent: normalizing a collection twice gives exactly
/// the same result as normalizing it once.
pub proof fn lemma_normalize_idempotent(
    s: Seq<LayoutMonitor>,
    t: Seq<LayoutMonitor>,
    u: Seq<LayoutMonitor>,
)
    requires
        wf_all(s),
        norm_rel(s, t),
        norm_rel(t, u),
    ensures
        u == t,
{
    if s.len() == 0 {
        assert(u =~= t);
    } else {
        lemma_normalize_origin(s, t);
        assert forall|i: int| 0 <= i < t.len() implies #[trigger] u[i] == t[i] by {
            assert(u[i].x == t[i].x - min_x_upto(t, t.len() as int));
        }
        assert(u =~= t);
    }
}

/// Elements are ordered by x, smallest first.
pub open spec fn sorted_by_x(q: Seq<LayoutMonitor>) -> bool {
    forall|i: int, j: int| 0 <= i < j < q.len() ==> #[trigger] q[i].x <= #[trigger] q[j].x
}

/// Insert `m` into the sorted sequence `q`, after any elements with the same
/// x, keeping the order stable.
pub open spec fn insert_by_x(m: LayoutMonitor, q: Seq<LayoutMonitor>) -> Seq<LayoutMonitor>
    decreases q.len(),
{
    if q.len() == 0 {
        seq![m]
    } else if m.x < q[0].x {
        seq![m] + q
    } else {
        seq![q[0]] + insert_by_x(m, q.drop_first())
    }
}

/// Stable sort of the collection by x: monitors with equal x keep their
/// original relative order.
pub open spec fn sort_by_x(s: Seq<LayoutMonitor>) -> Seq<LayoutMonitor>
    decreases s.len(),
{
    if s.len() == 0 {
        s
    } else {
        insert_by_x(s.last(), sort_by_x(s.drop_last()))
    }
}

/// Total width of the first `n` monitors of `q`.
pub open spec fn width_sum_upto(q: Seq<LayoutMonitor>, n: int) -> int
    decreases n,
{
    if n <= 0 {
        0
    } else {
        width_sum_upto(q, n - 1) + q[n - 1].w
    }
}

/// Exact description of what `recalculate_horizontal` does: the monitors are
/// stably sorted by x and then packed left to right from zero with no gaps,
/// each one starting where the previous one ends; y offsets are preserved.
pub open spec fn repack_rel(s: Seq<LayoutMonitor>, t: Seq<LayoutMonitor>) -> bool {
    let sorted = sort_by_x(s);
    &&& t.len() == s.len()
    &&& forall|i: int|
        0 <= i < t.len() ==> {
            &&& (#[trigger] t[i]).id == sorted[i].id
            &&& t[i].w == sorted[i].w
            &&& t[i].h == sorted[i].h
            &&& t[i].y == sorted[i].y
            &&& t[i].x == width_sum_upto(sorted, i)
        }
}

proof fn lemma_insert_by_x_len(m: LayoutMonitor, q: Seq<LayoutMonitor>)
    ensures
        insert_by_x(m, q).len() == q.len() + 1,
    decreases q.len(),
{
    if q.len() > 0 && !(m.x < q[0].x) {
        lemma_insert_by_x_len(m, q.drop_first());
    }
}

proof fn lemma_sort_by_x_len(s: Seq<LayoutMonitor>)
    ensures
        sort_by_x(s).len() == s.len(),
    decreases s.len(),
{
    if s.len() > 0 {
        lemma_sort_by_x_len(s.drop_last());
        lemma_insert_by_x_len(s.last(), sort_by_x(s.drop_last()));
    }
}

/// The least x among what `insert_by_x(m, q)` holds.
pub open spec fn insert_low(m: LayoutMonitor, q: Seq<LayoutMonitor>) -> int {
    if q.len() > 0 && q[0].x < m.x {
        q[0].x as int
    } else {
        m.x as int
    }
}

proof fn lemma_insert_by_x_sorted(m: LayoutMonitor, q: Seq<LayoutMonitor>)
    requires
        sorted_by_x(q),
    ensures
        sorted_by_x(insert_by_x(m, q)),
        forall|k: int|
            0 <= k < insert_by_x(m, q).len() ==> (#[trigger] insert_by_x(m, q)[k]).x
                >= insert_low(m, q),
    decreases q.len(),
{
    if q.len() == 0 {
    } else if m.x < q[0].x {
        let r = seq![m] + q;
        assert forall|k: int| 0 <= k < r.len() implies (#[trigger] r[k]).x >= insert_low(m, q) by {
            if k > 0 {
                assert(r[k] == q[k - 1]);
                if k > 1 {
                    assert(q[0].x <= q[k - 1].x);
                }
            }
        }
        assert forall|i: int, j: int| 0 <= i < j < r.len() implies #[trigger] r[i].x
            <= #[trigger] r[j].x by {
            if i > 0 {
                assert(r[i] == q[i - 1]);
                assert(r[j] == q[j - 1]);
            } else {
                assert(r[j] == q[j - 1]);
                if j > 1 {
                    assert(q[0].x <= q[j - 1].x);
                }
            }
        }
    } else {
        let q1 = q.drop_first();
        assert(sorted_by_x(q1)) by {
            assert(forall|i: int, j: int|
                0 <= i < j < q1.len() ==> (#[trigger] q1[i]).x == q[i + 1].x && (#[trigger] q1[j]).x
                    == q[j + 1].x && q[i + 1].x <= q[j + 1].x);
        }
        lemma_insert_by_x_sorted(m, q1);
        lemma_insert_by_x_len(m, q1);
        let r = insert_by_x(m, q);
        let r1 = insert_by_x(m, q1);
        assert(r == seq![q[0]] + r1);
        assert forall|k: int| 1 <= k < r.len() implies (#[trigger] r[k]).x >= q[0].x by {
            assert(r[k] == r1[k - 1]);
            assert(r1[k - 1].x >= insert_low(m, q1));
            if q1.len() > 0 {
                assert(q1[0] == q[1]);
                assert(q[0].x <= q[1].x);
            }
        }
        assert forall|k: int| 0 <= k < r.len() implies (#[trigger] r[k]).x >= insert_low(m, q) by {
            assert(insert_low(m, q) == q[0].x);
        }
        assert forall|i: int, j: int| 0 <= i < j < r.len() implies #[trigger] r[i].x
            <= #[trigger] r[j].x by {
            if i == 0 {
                assert(r[j].x >= q[0].x);
            } else {
                assert(r[i] == r1[i - 1]);
                assert(r[j] == r1[j - 1]);
            }
        }
    }
}

/// Sorting keeps every monitor well formed.
proof fn lemma_sort_by_x_wf(s: Seq<LayoutMonitor>)
    requires
        wf_all(s),
    ensures
        wf_all(sort_by_x(s)),
        sorted_by_x(sort_by_x(s)),
    decreases s.len(),
{
    if s.len() > 0 {
        assert(wf_all(s.drop_last())) by {
            assert(forall|i: int|
                0 <= i < s.len() - 1 ==> s.drop_last()[i] == #[trigger] s[i] && s[i].wf());
        }
        lemma_sort_by_x_wf(s.drop_last());
        lemma_insert_by_x_wf(s.last(), sort_by_x(s.drop_last()));
    }
}

proof fn lemma_insert_by_x_wf(m: LayoutMonitor, q: Seq<LayoutMonitor>)
    requires
        m.wf(),
        wf_all(q),
        sorted_by_x(q),
    ensures
        wf_all(insert_by_x(m, q)),
        sorted_by_x(insert_by_x(m, q)),
    decreases q.len(),
{
    lemma_insert_by_x_sorted(m, q);
    if q.len() == 0 {
    } else if m.x < q[0].x {
        assert forall|k: int| 0 <= k < insert_by_x(m, q).len() implies (#[trigger] insert_by_x(
            m,
            q,
        )[k]).wf() by {
            if k > 0 {
                assert(insert_by_x(m, q)[k] == q[k - 1]);
                assert(q[k - 1].wf());
            }
        }
    } else {
        assert(wf_all(q.drop_first())) by {
            assert(forall|i: int|
                0 <= i < q.len() - 1 ==> q.drop_first()[i] == #[trigger] q[i + 1] && q[i + 1].wf());
        }
        lemma_insert_by_x_wf(m, q.drop_first());
        lemma_insert_by_x_len(m, q.drop_first());
        let r = insert_by_x(m, q);
        let r1 = insert_by_x(m, q.drop_first());
        assert forall|k: int| 0 <= k < r.len() implies (#[trigger] r[k]).wf() by {
            if k == 0 {
                assert(r[0] == q[0]);
                assert(q[0].wf());
            } else {
                assert(r[k] == r1[k - 1]);
                assert(wf_all(r1));
            }
        }
    }
}

/// Inserting `m` at the first position whose x exceeds `m.x` is the same as
/// the recursive insertion.
proof fn lemma_insert_at_pos(m: LayoutMonitor, q: Seq<LayoutMonitor>, pos: int)
    requires
        sorted_by_x(q),
        0 <= pos <= q.len(),
        forall|k: int| 0 <= k < pos ==> (#[trigger] q[k]).x <= m.x,
        pos < q.len() ==> q[pos].x > m.x,
    ensures
        insert_by_x(m, q) == q.insert(pos, m),
    decreases q.len(),
{
    if q.len() == 0 {
        assert(insert_by_x(m, q) =~= q.insert(0, m));
    } else if m.x < q[0].x {
        assert(pos == 0);
        assert(seq![m] + q =~= q.insert(0, m));
    } else {
        assert(q[0].x <= m.x);
        assert(pos > 0);
        assert(sorted_by_x(q.drop_first())) by {
            assert(forall|i: int, j: int|
                0 <= i < j < q.len() - 1 ==> (#[trigger] q.drop_first()[i]).x
                    <= (#[trigger] q.drop_first()[j]).x);
        }
        assert forall|k: int| 0 <= k < pos - 1 implies (#[trigger] q.drop_first()[k]).x <= m.x by {
            assert(q.drop_first()[k] == q[k + 1]);
        }
        lemma_insert_at_pos(m, q.drop_first(), pos - 1);
        assert(seq![q[0]] + q.drop_first().insert(pos - 1, m) =~= q.insert(pos, m));
    }
}

/// Recalculate positions: place all monitors left to right with no gaps,
/// in order of their current x (stable for ties). Preserves y offsets.
pub fn recalculate_horizontal(monitors: &mut Vec<LayoutMonitor>)
    requires
        wf_all(old(monitors)@),
        old(monitors)@.len() <= MAX_MONITORS,
    ensures
        repack_rel(old(monitors)@, final(monitors)@),
{
    let ghost s = monitors@;
    proof {
        lemma_sort_by_x_len(s);
        lemma_sort_by_x_wf(s);
    }
    let ghost sorted = sort_by_x(s);

    // Stable insertion sort by x into a fresh collection.
    let mut res: Vec<LayoutMonitor> = Vec::new();
    let mut i: usize = 0;
    while i < monitors.len()
        invariant
            wf_all(s),
            s == monitors@,
            i <= s.len(),
            res@ == sort_by_x(s.take(i as int)),
            res@.len() == i,
            sorted_by_x(res@),
            wf_all(res@),
        decreases s.len() - i,
    {
        proof {
            assert(s[i as int].wf());
        }
        let mcopy = LayoutMonitor {
            id: monitors[i].id.clone(),
            x: monitors[i].x,
            y: monitors[i].y,
            w: monitors[i].w,
            h: monitors[i].h,
        };
        proof {
            assert(mcopy == s[i as int]);
        }
        let mx = mcopy.x;
        let mut pos: usize = 0;
        while pos < res.len() && res[pos].x <= mx
            invariant
                pos <= res@.len(),
                forall|k: int| 0 <= k < pos ==> (#[trigger] res@[k]).x <= mx,
            decreases res@.len() - pos,
        {
            pos += 1;
        }
        proof {
            lemma_insert_at_pos(mcopy, res@, pos as int);
            assert(s.take((i + 1) as int).drop_last() =~= s.take(i as int));
            assert(s.take((i + 1) as int).last() == s[i as int]);
            lemma_insert_by_x_wf(mcopy, res@);
        }
        res.insert(pos, mcopy);
        i += 1;
    }
    proof {
        assert(s.take(s.len() as int) =~= s);
        assert(res@ == sorted);
    }

    *monitors = res;

    // Pack left to right from zero.
    let mut x: i32 = 0;
    let mut i: usize = 0;
    while i < monitors.len()
        invariant
            wf_all(sorted),
            sorted.len() == s.len(),
            s.len() <= MAX_MONITORS,
            monitors@.len() == sorted.len(),
            i <= sorted.len(),
            x == width_sum_upto(sorted, i as int),
            0 <= x <= i * MAX_DIM,
            forall|k: int| i <= k < sorted.len() ==> #[trigger] monitors@[k] == sorted[k],
            forall|k: int|
                0 <= k < i ==> {
                    &&& (#[trigger] monitors@[k]).id == sorted[k].id
                    &&& monitors@[k].w == sorted[k].w
                    &&& monitors@[k].h == sorted[k].h
                    &&& monitors@[k].y == sorted[k].y
                    &&& monitors@[k].x == width_sum_upto(sorted, k)
                },
        decreases sorted.len() - i,
    {
        proof {
            assert(sorted[i as int].wf());
            assert(monitors@[i as int] == sorted[i as int]);
            assert(i * MAX_DIM <= MAX_MONITORS * MAX_DIM) by (nonlinear_arith)
                requires
                    0 <= i <= MAX_MONITORS,
            ;
            assert((i + 1) * MAX_DIM == i * MAX_DIM + MAX_DIM) by (nonlinear_arith);
        }
        monitors[i].x = x;
        x = x + monitors[i].w;
        i += 1;
    }
}

} // verus!
