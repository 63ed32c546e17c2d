//! PathPlanner: an ordered, deduplicated sequence of integer waypoints
//! approximating the straight line from an origin to a destination.
//!
//! The diagonal regime keeps a fractional accumulator seeded with the slope,
//! held exactly as a numerator over the horizontal distance: whenever its
//! magnitude reaches one, the secondary axis steps one unit toward the
//! destination; afterwards the primary axis steps. The terminal waypoint is
//! always forced to the exact destination.

use vstd::prelude::*;

use crate::geometry::Waypoint;

verus! {

/// The display extent that caps the planner's iteration count.
#[derive(Clone, Copy, Debug, PartialEq, Eq, Structural)]
pub struct Bounds {
    pub width: u64,
    pub height: u64,
}

/// An ordered pointer path; playback order is significant.
pub struct Path {
    pub points: Vec<Waypoint>,
}

impl View for Path {
    type V = Seq<Waypoint>;

    open spec fn view(&self) -> Seq<Waypoint> {
        self.points@
    }
}

/// The distance between two coordinates on one axis.
pub open spec fn abs_diff(a: u64, b: u64) -> int {
    if a >= b {
        a - b
    } else {
        b - a
    }
}

/// The coordinate `k` unit steps from `from` toward `to`.
pub open spec fn axis_step(from: u64, to: u64, k: int) -> int {
    if to >= from {
        from + k
    } else {
        from - k
    }
}

/// Appends a waypoint unless it repeats the immediately preceding one.
fn push_dedup(points: &mut Vec<Waypoint>, w: Waypoint)
    ensures
        old(points)@.len() > 0 && old(points)@.last() == w ==> final(points)@ == old(points)@,
        !(old(points)@.len() > 0 && old(points)@.last() == w) ==> final(points)@ == old(
            points,
        )@.push(w),
{
    let n: usize = points.len();
    if n > 0 {
        let last: Waypoint = points[n - 1];
        if last == w {
            return ;
        }
    }
    points.push(w);
}

/// Every waypoint lies in the box spanned by the origin and the destination,
/// and no waypoint repeats the one just before it.
pub open spec fn tidy_path(points: Seq<Waypoint>, origin: Waypoint, destination: Waypoint) -> bool {
    &&& forall|i: int| 0 <= i < points.len() ==> #[trigger] points[i].in_box(origin, destination)
    &&& forall|i: int| 0 <= i < points.len() - 1 ==> points[i] != #[trigger] points[i + 1]
}

/// No waypoint occurs twice anywhere in the path.
pub open spec fn distinct_path(points: Seq<Waypoint>) -> bool {
    forall|i: int, j: int|
        0 <= i < j < points.len() ==> #[trigger] points[i] != #[trigger] points[j]
}

/// The taxicab distance a waypoint has travelled from the origin.
pub open spec fn dist_from(origin: Waypoint, w: Waypoint) -> int {
    abs_diff(origin.x, w.x) + abs_diff(origin.y, w.y)
}

/// The distance from the origin grows strictly along the path.
spec fn sorted_by_dist(points: Seq<Waypoint>, origin: Waypoint) -> bool {
    forall|i: int, j: int|
        0 <= i < j < points.len() ==> dist_from(origin, #[trigger] points[i]) < dist_from(
            origin,
            #[trigger] points[j],
        )
}

/// The waypoint the diagonal regime stands at after `x_off` primary and
/// `d` secondary unit steps.
spec fn diag_point(origin: Waypoint, destination: Waypoint, x_off: u64, d: u64) -> Waypoint {
    Waypoint {
        x: axis_step(origin.x, destination.x, x_off as int) as u64,
        y: axis_step(origin.y, destination.y, d as int) as u64,
    }
}

proof fn lemma_diag_point_dist(origin: Waypoint, destination: Waypoint, x_off: u64, d: u64)
    requires
        x_off as int <= abs_diff(origin.x, destination.x),
        d as int <= abs_diff(origin.y, destination.y),
    ensures
        dist_from(origin, diag_point(origin, destination, x_off, d)) == x_off + d,
{
}

/// Appending a waypoint farther from the origin than the current last one
/// keeps the path sorted by distance.
proof fn lemma_sorted_push(points: Seq<Waypoint>, origin: Waypoint, w: Waypoint)
    requires
        sorted_by_dist(points, origin),
        points.len() > 0 ==> dist_from(origin, points.last()) < dist_from(origin, w),
    ensures
        sorted_by_dist(points.push(w), origin),
{
    let extended = points.push(w);
    assert forall|i: int, j: int| 0 <= i < j < extended.len() implies dist_from(
        origin,
        #[trigger] extended[i],
    ) < dist_from(origin, #[trigger] extended[j]) by {
        if j == points.len() {
            assert(extended[i] == points[i]);
            if i < points.len() - 1 {
                assert(dist_from(origin, points[i]) < dist_from(origin, points[points.len() - 1]));
            }
        } else {
            assert(extended[i] == points[i] && extended[j] == points[j]);
        }
    }
}

/// A path whose distance from the origin grows strictly never repeats a
/// waypoint.
proof fn lemma_sorted_is_distinct(points: Seq<Waypoint>, origin: Waypoint)
    requires
        sorted_by_dist(points, origin),
    ensures
        distinct_path(points),
{
    assert forall|i: int, j: int| 0 <= i < j < points.len() implies #[trigger] points[i]
        != #[trigger] points[j] by {
        assert(dist_from(origin, points[i]) < dist_from(origin, points[j]));
    }
}

/// Plans the waypoint path from `origin` to `destination`.
///
/// Equal endpoints yield the single-element path; a horizontal or vertical
/// move steps its axis one unit at a time; any other move follows the slope
/// with an exact fractional accumulator. The final waypoint is always the
/// exact destination, and the iteration count is capped by the pixel count
/// of `bounds`.
pub fn plan(origin: Waypoint, destination: Waypoint, bounds: Bounds) -> (path: Path)
    ensures
        path@.len() >= 1,
        path@.last() == destination,
        tidy_path(path@, origin, destination),
        distinct_path(path@),
        origin == destination ==> path@ =~= seq![origin],
        origin.y == destination.y && origin.x != destination.x && abs_diff(origin.x, destination.x)
            <= bounds.width * bounds.height ==> path@.len() == abs_diff(origin.x, destination.x)
            + 1 && (forall|k: int|
            0 <= k < path@.len() ==> path@[k] == (Waypoint {
                x: axis_step(origin.x, destination.x, k) as u64,
                y: origin.y,
            })),
        origin.x == destination.x && origin.y != destination.y && abs_diff(origin.y, destination.y)
            <= bounds.width * bounds.height ==> path@.len() == abs_diff(origin.y, destination.y)
            + 1 && (forall|k: int|
            0 <= k < path@.len() ==> path@[k] == (Waypoint {
                x: origin.x,
                y: axis_step(origin.y, destination.y, k) as u64,
            })),
{
    let mut points: Vec<Waypoint> = Vec::new();
    if origin.x == destination.x && origin.y == destination.y {
        points.push(origin);
        return Path { points };
    }
    proof {
        assert((bounds.width as int) * (bounds.height as int) < 0x1_0000_0000_0000_0000_0000_0000_0000_0000)
            by (nonlinear_arith)
            requires
                bounds.width <= 0xffff_ffff_ffff_ffffu64,
                bounds.height <= 0xffff_ffff_ffff_ffffu64,
        ;
    }
    let cap: u128 = (bounds.width as u128) * (bounds.height as u128);
    if origin.y == destination.y {
        let dx: u64 = if destination.x >= origin.x {
            destination.x - origin.x
        } else {
            origin.x - destination.x
        };
        let mut k: u64 = 0;
        while (k as u128) < cap && k < dx
            invariant
                origin.y == destination.y,
                1 <= dx,
                dx as int == abs_diff(origin.x, destination.x),
                k <= dx,
                points@.len() == k,
                forall|j: int|
                    0 <= j < k ==> points@[j] == (Waypoint {
                        x: axis_step(origin.x, destination.x, j) as u64,
                        y: origin.y,
                    }),
                tidy_path(points@, origin, destination),
                sorted_by_dist(points@, origin),
                points@.len() > 0 ==> dist_from(origin, points@.last()) == k - 1,
            decreases dx - k,
        {
            let px: u64 = if destination.x >= origin.x {
                origin.x + k
            } else {
                origin.x - k
            };
            let w = Waypoint { x: px, y: destination.y };
            let ghost pre = points@;
            push_dedup(&mut points, w);
            proof {
                assert(dist_from(origin, w) == k as int);
                if pre.len() > 0 && pre.last() == w {
                    assert(false);
                } else {
                    lemma_sorted_push(pre, origin, w);
                }
            }
            k = k + 1;
        }
        let ghost pre = points@;
        push_dedup(&mut points, destination);
        proof {
            assert(dist_from(origin, destination) == dx as int);
            if !(pre.len() > 0 && pre.last() == destination) {
                lemma_sorted_push(pre, origin, destination);
            }
            lemma_sorted_is_distinct(points@, origin);
        }
        return Path { points };
    }
    if origin.x == destination.x {
        let dy: u64 = if destination.y >= origin.y {
            destination.y - origin.y
        } else {
            origin.y - destination.y
        };
        let mut k: u64 = 0;
        while (k as u128) < cap && k < dy
            invariant
                origin.x == destination.x,
                1 <= dy,
                dy as int == abs_diff(origin.y, destination.y),
                k <= dy,
                points@.len() == k,
                forall|j: int|
                    0 <= j < k ==> points@[j] == (Waypoint {
                        x: origin.x,
                        y: axis_step(origin.y, destination.y, j) as u64,
                    }),
                tidy_path(points@, origin, destination),
                sorted_by_dist(points@, origin),
                points@.len() > 0 ==> dist_from(origin, points@.last()) == k - 1,
            decreases dy - k,
        {
            let py: u64 = if destination.y >= origin.y {
                origin.y + k
            } else {
                origin.y - k
            };
            let w = Waypoint { x: destination.x, y: py };
            let ghost pre = points@;
            push_dedup(&mut points, w);
            proof {
                assert(dist_from(origin, w) == k as int);
                if pre.len() > 0 && pre.last() == w {
                    assert(false);
                } else {
                    lemma_sorted_push(pre, origin, w);
                }
            }
            k = k + 1;
        }
        let ghost pre = points@;
        push_dedup(&mut points, destination);
        proof {
            assert(dist_from(origin, destination) == dy as int);
            if !(pre.len() > 0 && pre.last() == destination) {
                lemma_sorted_push(pre, origin, destination);
            }
            lemma_sorted_is_distinct(points@, origin);
        }
        return Path { points };
    }
    let dx: u64 = if destination.x >= origin.x {
        destination.x - origin.x
    } else {
        origin.x - destination.x
    };
    let dy: u64 = if destination.y >= origin.y {
        destination.y - origin.y
    } else {
        origin.y - destination.y
    };
    let den: u128 = dx as u128;
    let mut m: u128 = dy as u128;
    let mut x_off: u64 = 0;
    let mut d: u64 = 0;
    let mut counter: u128 = 0;
    proof {
        assert((d as int) * (dx as int) == 0 && (x_off as int + 1) * (dy as int) == dy as int)
            by (nonlinear_arith)
            requires
                d == 0u64,
                x_off == 0u64,
        ;
    }
    while counter < cap && x_off < dx
        invariant
            1 <= dx,
            1 <= dy,
            dx as int == abs_diff(origin.x, destination.x),
            dy as int == abs_diff(origin.y, destination.y),
            den == dx as u128,
            x_off <= dx,
            d <= dy,
            counter <= cap,
            m as int + (d as int) * (dx as int) == (if x_off < dx {
                x_off as int + 1
            } else {
                dx as int
            }) * (dy as int),
            tidy_path(points@, origin, destination),
            sorted_by_dist(points@, origin),
            points@.len() > 0 ==> dist_from(origin, points@.last()) <= x_off + d,
            points@.len() > 0 && dist_from(origin, points@.last()) == x_off + d
                ==> points@.last() == diag_point(origin, destination, x_off, d),
        decreases cap - counter,
    {
        while m >= den
            invariant
                1 <= dx,
                1 <= dy,
                dx as int == abs_diff(origin.x, destination.x),
                dy as int == abs_diff(origin.y, destination.y),
                den == dx as u128,
                x_off < dx,
                d <= dy,
                m as int + (d as int) * (dx as int) == (x_off as int + 1) * (dy as int),
                tidy_path(points@, origin, destination),
                sorted_by_dist(points@, origin),
                points@.len() > 0 ==> dist_from(origin, points@.last()) <= x_off + d,
                points@.len() > 0 && dist_from(origin, points@.last()) == x_off + d
                    ==> points@.last() == diag_point(origin, destination, x_off, d),
            decreases m,
        {
            let px: u64 = if destination.x >= origin.x {
                origin.x + x_off
            } else {
                origin.x - x_off
            };
            let py: u64 = if destination.y >= origin.y {
                origin.y + d
            } else {
                origin.y - d
            };
            let w = Waypoint { x: px, y: py };
            let ghost pre = points@;
            push_dedup(&mut points, w);
            proof {
                assert(w == diag_point(origin, destination, x_off, d));
                lemma_diag_point_dist(origin, destination, x_off, d);
                if !(pre.len() > 0 && pre.last() == w) {
                    if pre.len() > 0 && dist_from(origin, pre.last()) == x_off + d {
                        assert(pre.last() == diag_point(origin, destination, x_off, d));
                        assert(false);
                    }
                    lemma_sorted_push(pre, origin, w);
                }
            }
            proof {
                assert(d < dy) by (nonlinear_arith)
                    requires
                        m as int + (d as int) * (dx as int) == (x_off as int + 1) * (dy as int),
                        m as int >= dx as int,
                        x_off as int + 1 <= dx as int,
                        1 <= dx,
                        1 <= dy,
                        0 <= d,
                        0 <= x_off,
                ;
            }
            proof {
                assert((d as int + 1) * (dx as int) == (d as int) * (dx as int) + (dx as int))
                    by (nonlinear_arith);
            }
            m = m - den;
            d = d + 1;
        }
        x_off = x_off + 1;
        if x_off < dx {
            let px: u64 = if destination.x >= origin.x {
                origin.x + x_off
            } else {
                origin.x - x_off
            };
            let py: u64 = if destination.y >= origin.y {
                origin.y + d
            } else {
                origin.y - d
            };
            let w = Waypoint { x: px, y: py };
            let ghost pre = points@;
            push_dedup(&mut points, w);
            proof {
                assert(w == diag_point(origin, destination, x_off, d));
                lemma_diag_point_dist(origin, destination, x_off, d);
                if !(pre.len() > 0 && pre.last() == w) {
                    lemma_sorted_push(pre, origin, w);
                }
                assert((x_off as int + 1) * (dy as int) == (x_off as int) * (dy as int) + (
                dy as int)) by (nonlinear_arith);
            }
            m = m + (dy as u128);
        }
        counter = counter + 1;
    }
    let ghost pre = points@;
    push_dedup(&mut points, destination);
    proof {
        assert(destination == diag_point(origin, destination, dx, dy));
        lemma_diag_point_dist(origin, destination, dx, dy);
        if !(pre.len() > 0 && pre.last() == destination) {
            if pre.len() > 0 && dist_from(origin, pre.last()) == dx + dy {
                assert(x_off == dx && d == dy);
                assert(pre.last() == diag_point(origin, destination, x_off, d));
                assert(false);
            }
            lemma_sorted_push(pre, origin, destination);
        }
        lemma_sorted_is_distinct(points@, origin);
    }
    Path { points }
}

} // verus!
