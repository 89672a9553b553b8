//! Geometry primitives: the rectangle type, directions, and the shared-edge
//! test that underlies every adjacency decision in the engine.

use vstd::prelude::*;

verus! {

/// Largest width or height of a single monitor the engine accepts.
/// Keeping sizes under this bound leaves room in `i32` for the sums and
/// differences the edit operations compute.
pub const MAX_DIM: i32 = 65536;

/// Largest magnitude of an `x` or `y` position the engine accepts.
/// Positions stay well inside `i32` so edge coordinates, gaps and center
/// distances can be computed without overflow.
pub const MAX_COORD: i32 = 67108864;

/// Largest number of monitors the whole-layout operations accept: the packed
/// row of all monitors, and the flush offsets that repeated snapping can
/// stack up, must stay within `i32`.
pub const MAX_MONITORS: usize = 64;

/// A monitor's position and logical (scaled) dimensions in layout space.
#[derive(Clone, Debug, PartialEq)]
pub struct LayoutMonitor {
    pub id: String,
    pub x: i32,
    pub y: i32,
    pub w: i32,
    pub h: i32,
}

#[derive(Clone, Copy, Debug, PartialEq, Eq, Structural)]
pub enum Direction {
    Left,
    Right,
    Up,
    Down,
}

/// Describes the relationship between two monitors sharing an edge.
#[derive(Clone, Copy, Debug, PartialEq, Eq, Structural)]
pub enum SharedEdge {
    /// They share a vertical edge (monitors are side by side).
    /// The `i32` is the x coordinate of the shared edge.
    Vertical(i32),
    /// They share a horizontal edge (monitors are stacked).
    /// The `i32` is the y coordinate of the shared edge.
    Horizontal(i32),
}

/// Two half-open ranges `[s1, e1)` and `[s2, e2)` intersect in a range of
/// positive length. Touching at a single point does not count.
pub open spec fn overlap_range(s1: int, e1: int, s2: int, e2: int) -> bool {
    (if s1 >= s2 {
        s1
    } else {
        s2
    }) < (if e1 <= e2 {
        e1
    } else {
        e2
    })
}

impl LayoutMonitor {
    pub open spec fn spec_right(self) -> int {
        self.x + self.w
    }

    pub open spec fn spec_bottom(self) -> int {
        self.y + self.h
    }

    /// A monitor the engine can work on: positive size, and coordinates far
    /// enough from the `i32` limits that the engine's arithmetic cannot
    /// overflow.
    pub open spec fn wf(self) -> bool {
        &&& 0 < self.w <= MAX_DIM
        &&& 0 < self.h <= MAX_DIM
        &&& -MAX_COORD <= self.x <= MAX_COORD
        &&& -MAX_COORD <= self.y <= MAX_COORD
    }

    pub fn right(&self) -> (r: i32)
        requires
            i32::MIN <= self.x + self.w <= i32::MAX,
        ensures
            r == self.spec_right(),
    {
        self.x + self.w
    }

    pub fn bottom(&self) -> (r: i32)
        requires
            i32::MIN <= self.y + self.h <= i32::MAX,
        ensures
            r == self.spec_bottom(),
    {
        self.y + self.h
    }

    /// Vertical overlap range between two monitors (shared vertical edge test).
    /// Returns `Some((start, end))` if they overlap vertically, `None` if they don't.
    pub(crate) fn vertical_overlap(&self, other: &LayoutMonitor) -> (r: Option<(i32, i32)>)
        requires
            i32::MIN <= self.y + self.h <= i32::MAX,
            i32::MIN <= other.y + other.h <= i32::MAX,
        ensures
            r is Some <==> spec_vertical_overlap(*self, *other),
            r matches Some(p) ==> p.0 == if self.y >= other.y {
                self.y
            } else {
                other.y
            },
            r matches Some(p) ==> p.1 == if self.spec_bottom() <= other.spec_bottom() {
                self.spec_bottom()
            } else {
                other.spec_bottom()
            },
    {
        let start = if self.y >= other.y {
            self.y
        } else {
            other.y
        };
        let self_bottom = self.bottom();
        let other_bottom = other.bottom();
        let end = if self_bottom <= other_bottom {
            self_bottom
        } else {
            other_bottom
        };
        if end > start {
            Some((start, end))
        } else {
            None
        }
    }

    /// Horizontal overlap range between two monitors (shared horizontal edge test).
    pub(crate) fn horizontal_overlap(&self, other: &LayoutMonitor) -> (r: Option<(i32, i32)>)
        requires
            i32::MIN <= self.x + self.w <= i32::MAX,
            i32::MIN <= other.x + other.w <= i32::MAX,
        ensures
            r is Some <==> spec_horizontal_overlap(*self, *other),
            r matches Some(p) ==> p.0 == if self.x >= other.x {
                self.x
            } else {
                other.x
            },
            r matches Some(p) ==> p.1 == if self.spec_right() <= other.spec_right() {
                self.spec_right()
            } else {
                other.spec_right()
            },
    {
        let start = if self.x >= other.x {
            self.x
        } else {
            other.x
        };
        let self_right = self.right();
        let other_right = other.right();
        let end = if self_right <= other_right {
            self_right
        } else {
            other_right
        };
        if end > start {
            Some((start, end))
        } else {
            None
        }
    }
}

/// Every monitor in the collection is well formed.
pub open spec fn wf_all(s: Seq<LayoutMonitor>) -> bool {
    forall|i: int| 0 <= i < s.len() ==> #[trigger] s[i].wf()
}

/// The monitors' y-ranges intersect with positive length.
pub open spec fn spec_vertical_overlap(a: LayoutMonitor, b: LayoutMonitor) -> bool {
    overlap_range(a.y as int, a.spec_bottom(), b.y as int, b.spec_bottom())
}

/// The monitors' x-ranges intersect with positive length.
pub open spec fn spec_horizontal_overlap(a: LayoutMonitor, b: LayoutMonitor) -> bool {
    overlap_range(a.x as int, a.spec_right(), b.x as int, b.spec_right())
}

/// Which edge two monitors share, if any: their facing edges coincide exactly
/// and they overlap with positive length on the perpendicular axis.
pub open spec fn spec_shared_edge(a: LayoutMonitor, b: LayoutMonitor) -> Option<SharedEdge> {
    if a.spec_right() == b.x && spec_vertical_overlap(a, b) {
        Some(SharedEdge::Vertical(b.x))
    } else if b.spec_right() == a.x && spec_vertical_overlap(a, b) {
        Some(SharedEdge::Vertical(a.x))
    } else if a.spec_bottom() == b.y && spec_horizontal_overlap(a, b) {
        Some(SharedEdge::Horizontal(b.y))
    } else if b.spec_bottom() == a.y && spec_horizontal_overlap(a, b) {
        Some(SharedEdge::Horizontal(a.y))
    } else {
        None
    }
}

/// Would a monitor of `a`'s size placed at position `(ax, ay)` share an edge
/// with `b`?
pub open spec fn touches_at(ax: int, ay: int, a: LayoutMonitor, b: LayoutMonitor) -> bool {
    ||| (ax + a.w == b.x && overlap_range(ay, ay + a.h, b.y as int, b.spec_bottom()))
    ||| (b.spec_right() == ax && overlap_range(ay, ay + a.h, b.y as int, b.spec_bottom()))
    ||| (ay + a.h == b.y && overlap_range(ax, ax + a.w, b.x as int, b.spec_right()))
    ||| (b.spec_bottom() == ay && overlap_range(ax, ax + a.w, b.x as int, b.spec_right()))
}

/// A monitor at its own position touches `b` exactly when it shares an edge
/// with `b`.
pub proof fn lemma_touches_at_is_shared_edge(a: LayoutMonitor, b: LayoutMonitor)
    ensures
        touches_at(a.x as int, a.y as int, a, b) <==> spec_shared_edge(a, b) is Some,
{
}

/// Find which edge two monitors share, if any.
/// They must be touching (edges exactly meeting) AND have overlap on the perpendicular axis.
pub fn shared_edge(a: &LayoutMonitor, b: &LayoutMonitor) -> (r: Option<SharedEdge>)
    requires
        i32::MIN <= a.x + a.w <= i32::MAX,
        i32::MIN <= a.y + a.h <= i32::MAX,
        i32::MIN <= b.x + b.w <= i32::MAX,
        i32::MIN <= b.y + b.h <= i32::MAX,
    ensures
        r == spec_shared_edge(*a, *b),
{
    if a.right() == b.x && a.vertical_overlap(b).is_some() {
        return Some(SharedEdge::Vertical(b.x));
    }
    if b.right() == a.x && a.vertical_overlap(b).is_some() {
        return Some(SharedEdge::Vertical(a.x));
    }
    if a.bottom() == b.y && a.horizontal_overlap(b).is_some() {
        return Some(SharedEdge::Horizontal(b.y));
    }
    if b.bottom() == a.y && a.horizontal_overlap(b).is_some() {
        return Some(SharedEdge::Horizontal(a.y));
    }
    None
}

/// The shared-edge test is symmetric: it reports the same edge, with the same
/// coordinate, whichever way round the two monitors are passed.
pub proof fn lemma_shared_edge_symmetric(a: LayoutMonitor, b: LayoutMonitor)
    requires
        a.wf(),
        b.wf(),
    ensures
        spec_shared_edge(a, b) == spec_shared_edge(b, a),
{
}

/// A monitor shares no edge with itself, or with a monitor at the same
/// position and size.
pub proof fn lemma_shared_edge_irreflexive(a: LayoutMonitor, b: LayoutMonitor)
    requires
        a.wf(),
        b.wf(),
        a.x == b.x,
        a.y == b.y,
        a.w == b.w,
        a.h == b.h,
    ensures
        spec_shared_edge(a, b) is None,
{
}

/// Monitors whose facing edges never coincide exactly — for example, a layout
/// with a one-pixel gap between otherwise edge-aligned monitors — share no edge.
pub proof fn lemma_separated_no_shared_edge(a: LayoutMonitor, b: LayoutMonitor)
    requires
        a.spec_right() != b.x,
        b.spec_right() != a.x,
        a.spec_bottom() != b.y,
        b.spec_bottom() != a.y,
    ensures
        spec_shared_edge(a, b) is None,
{
}

/// Monitors that touch only at a corner point share no edge: the coincident
/// corner gives zero overlap on both axes.
pub proof fn lemma_corner_contact_no_shared_edge(a: LayoutMonitor, b: LayoutMonitor)
    requires
        a.wf(),
        b.wf(),
        a.spec_right() == b.x || b.spec_right() == a.x,
        a.spec_bottom() == b.y || b.spec_bottom() == a.y,
    ensures
        spec_shared_edge(a, b) is None,
{
}

} // verus!
