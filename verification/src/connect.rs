//! Connectivity of the layout: monitors are nodes of a graph whose edges are
//! shared edges, and the layout is connected when every monitor is reachable
//! from the first one.

use vstd::prelude::*;

use crate::geom::LayoutMonitor;
use crate::geom::shared_edge;
use crate::geom::spec_shared_edge;
use crate::geom::wf_all;

verus! {

/// Monitors `i` and `j` share an edge.
pub open spec fn edge_between(s: Seq<LayoutMonitor>, i: int, j: int) -> bool {
    &&& 0 <= i < s.len()
    &&& 0 <= j < s.len()
    &&& spec_shared_edge(s[i], s[j]) is Some
}

/// `p` is a walk through the adjacency graph that starts at monitor 0.
pub open spec fn is_path(s: Seq<LayoutMonitor>, p: Seq<int>) -> bool {
    &&& p.len() > 0
    &&& p[0] == 0
    &&& (forall|k: int| 0 <= k < p.len() ==> 0 <= #[trigger] p[k] < s.len())
    &&& (forall|k: int| 0 <= k < p.len() - 1 ==> edge_between(s, #[trigger] p[k], p[k + 1]))
}

/// Monitor `i` can be reached from monitor 0 through shared edges.
pub open spec fn spec_reachable(s: Seq<LayoutMonitor>, i: int) -> bool {
    exists|p: Seq<int>| is_path(s, p) && p.last() == i
}

/// The whole layout hangs together: every monitor is reachable from the first
/// one through shared edges. A single monitor or an empty collection is
/// trivially connected.
pub open spec fn spec_connected(s: Seq<LayoutMonitor>) -> bool {
    s.len() <= 1 || forall|i: int| 0 <= i < s.len() ==> spec_reachable(s, i)
}

/// Index `c` occurs in the stack.
pub open spec fn in_stack(st: Seq<usize>, c: int) -> bool {
    exists|t: int| 0 <= t < st.len() && #[trigger] st[t] == c
}

proof fn lemma_reachable_zero(s: Seq<LayoutMonitor>)
    requires
        s.len() > 0,
    ensures
        spec_reachable(s, 0),
{
    let p: Seq<int> = seq![0int];
    assert(is_path(s, p) && p.last() == 0);
}

proof fn lemma_reachable_step(s: Seq<LayoutMonitor>, c: int, i: int)
    requires
        spec_reachable(s, c),
        edge_between(s, c, i),
    ensures
        spec_reachable(s, i),
{
    let p = choose|p: Seq<int>| is_path(s, p) && p.last() == c;
    let p2 = p.push(i);
    assert(p2[0] == p[0]);
    assert(forall|k: int| 0 <= k < p.len() ==> #[trigger] p2[k] == p[k]);
    assert(p2.last() == i);
    assert(p2[p.len() - 1] == c);
    assert(is_path(s, p2));
}

/// If the visited set contains monitor 0 and is closed under shared edges,
/// it contains the endpoint of every walk from monitor 0.
proof fn lemma_path_all_visited(s: Seq<LayoutMonitor>, v: Seq<bool>, p: Seq<int>)
    requires
        v.len() == s.len(),
        s.len() > 0,
        v[0],
        forall|c: int, j: int|
            0 <= c < s.len() && 0 <= j < s.len() && v[c] && #[trigger] edge_between(s, c, j)
                ==> v[j],
        is_path(s, p),
    ensures
        v[p.last()],
    decreases p.len(),
{
    if p.len() == 1 {
        assert(p.last() == 0);
    } else {
        let p0 = p.drop_last();
        assert(p0[0] == p[0]);
        assert(forall|k: int| 0 <= k < p0.len() ==> #[trigger] p0[k] == p[k]);
        assert(is_path(s, p0));
        lemma_path_all_visited(s, v, p0);
        assert(edge_between(s, p[p.len() - 2], p[p.len() - 1]));
        assert(p0.last() == p[p.len() - 2]);
    }
}

/// How many entries of the visited set are still false.
pub open spec fn count_false(v: Seq<bool>) -> nat
    decreases v.len(),
{
    if v.len() == 0 {
        0
    } else {
        (if v[0] {
            0nat
        } else {
            1nat
        }) + count_false(v.drop_first())
    }
}

proof fn lemma_count_false_update(v: Seq<bool>, i: int)
    requires
        0 <= i < v.len(),
        !v[i],
    ensures
        count_false(v.update(i, true)) < count_false(v),
    decreases v.len(),
{
    if i == 0 {
        assert(v.update(0, true).drop_first() =~= v.drop_first());
    } else {
        assert(v.update(i, true).drop_first() =~= v.drop_first().update(i - 1, true));
        assert(!v.drop_first()[i - 1]);
        lemma_count_false_update(v.drop_first(), i - 1);
    }
}

/// Validate that all monitors form a connected graph: depth-first traversal
/// from monitor 0 must reach every monitor through shared edges.
pub fn is_layout_connected(monitors: &Vec<LayoutMonitor>) -> (r: bool)
    requires
        wf_all(monitors@),
    ensures
        r == spec_connected(monitors@),
{
    let n = monitors.len();
    if n <= 1 {
        return true;
    }
    let ghost s = monitors@;

    let mut visited: Vec<bool> = Vec::new();
    let mut k: usize = 0;
    while k < n
        invariant
            k <= n,
            visited@.len() == k,
            forall|j: int| 0 <= j < k ==> !(#[trigger] visited@[j]),
        decreases n - k,
    {
        visited.push(false);
        k += 1;
    }

    let mut stack: Vec<usize> = Vec::new();
    visited[0] = true;
    stack.push(0);
    proof {
        lemma_reachable_zero(s);
        assert(stack@[0] == 0usize);
        assert(in_stack(stack@, 0));
    }

    while stack.len() > 0
        invariant
            wf_all(s),
            s == monitors@,
            s.len() == n,
            n > 1,
            visited@.len() == n,
            visited@[0],
            forall|t: int|
                0 <= t < stack@.len() ==> #[trigger] stack@[t] < n && visited@[stack@[t] as int],
            forall|i: int| 0 <= i < n && #[trigger] visited@[i] ==> spec_reachable(s, i),
            forall|c: int, j: int|
                0 <= c < n && 0 <= j < n && visited@[c] && !in_stack(stack@, c)
                    && #[trigger] edge_between(s, c, j) ==> visited@[j],
        decreases count_false(visited@), stack@.len(),
    {
        let ghost v0 = visited@;
        let ghost stack0 = stack@;
        let current = match stack.pop() {
            Some(c) => c,
            None => {
                return true;  // unreachable: the loop condition gives a nonempty stack
            },
        };
        proof {
            assert(stack0[stack0.len() - 1] == current);
            assert(stack@ =~= stack0.drop_last());
            assert forall|c: int|
                0 <= c < n && !in_stack(stack@, c) && c != current implies !in_stack(
                stack0,
                c,
            ) by {
                if in_stack(stack0, c) {
                    let tt = choose|tt: int| 0 <= tt < stack0.len() && #[trigger] stack0[tt] == c;
                    if tt < stack0.len() - 1 {
                        assert(stack@[tt] == c);
                        assert(in_stack(stack@, c));
                    }
                }
            }
        }

        let mut i: usize = 0;
        while i < n
            invariant
                wf_all(s),
                s == monitors@,
                s.len() == n,
                n > 1,
                current < n,
                i <= n,
                visited@.len() == n,
                visited@[0],
                visited@[current as int],
                spec_reachable(s, current as int),
                forall|t: int|
                    0 <= t < stack@.len() ==> #[trigger] stack@[t] < n
                        && visited@[stack@[t] as int],
                forall|j: int| 0 <= j < n && #[trigger] visited@[j] ==> spec_reachable(s, j),
                forall|c: int, j: int|
                    0 <= c < n && 0 <= j < n && visited@[c] && !in_stack(stack@, c) && c
                        != current && #[trigger] edge_between(s, c, j) ==> visited@[j],
                forall|j: int|
                    0 <= j < i && #[trigger] edge_between(s, current as int, j) ==> visited@[j],
                (visited@ == v0 && stack@ == stack0.drop_last()) || count_false(visited@)
                    < count_false(v0),
            decreases n - i,
        {
            if !visited[i] {
                proof {
                    assert(s[current as int].wf());
                    assert(s[i as int].wf());
                }
                if shared_edge(&monitors[current], &monitors[i]).is_some() {
                    proof {
                        lemma_reachable_step(s, current as int, i as int);
                        lemma_count_false_update(visited@, i as int);
                    }
                    let ghost st_before = stack@;
                    visited[i] = true;
                    stack.push(i);
                    proof {
                        assert(stack@ =~= st_before.push(i));
                        assert(stack@[stack@.len() - 1] == i);
                        assert(in_stack(stack@, i as int));
                        assert forall|c: int| in_stack(st_before, c) implies in_stack(
                            stack@,
                            c,
                        ) by {
                            let tt = choose|tt: int|
                                0 <= tt < st_before.len() && #[trigger] st_before[tt] == c;
                            assert(stack@[tt] == c);
                        }
                    }
                }
            }
            i += 1;
        }
    }

    // The stack is empty, so the visited set is closed under shared edges:
    // it holds exactly the monitors reachable from monitor 0.
    let ghost v_final = visited@;
    let mut all = true;
    let mut i: usize = 0;
    while i < n
        invariant
            i <= n,
            visited@ == v_final,
            visited@.len() == n,
            all <==> (forall|j: int| 0 <= j < i ==> #[trigger] visited@[j]),
        decreases n - i,
    {
        if !visited[i] {
            all = false;
        }
        i += 1;
    }

    proof {
        if all {
            assert(forall|j: int| 0 <= j < n ==> #[trigger] visited@[j]);
            assert forall|j: int| 0 <= j < s.len() implies spec_reachable(s, j) by {
                assert(visited@[j]);
            }
        } else {
            let uv = choose|j: int| 0 <= j < n && !(#[trigger] visited@[j]);
            if spec_connected(s) {
                assert(spec_reachable(s, uv));
                let p = choose|p: Seq<int>| is_path(s, p) && p.last() == uv;
                lemma_path_all_visited(s, visited@, p);
                assert(false);
            }
        }
    }
    all
}

} // verus!
