//! Player: replays a waypoint path through a pointer-movement provider,
//! pacing each step to honor a requested total duration.

use vstd::prelude::*;
use vstd::arithmetic::div_mod::lemma_fundamental_div_mod;
use vstd::arithmetic::div_mod::lemma_mod_division_less_than_divisor;

use crate::errors::Error;
use crate::geometry::Waypoint;
use crate::matcher::round_div;
use crate::matcher::lemma_round_div_le_mul;
use crate::planner::Path;

verus! {

/// One observable act of a pointer provider.
#[derive(Clone, Copy, Debug, PartialEq, Eq, Structural)]
pub enum PointerEvent {
    /// The pointer moved to `(x, y)`.
    Moved { x: i32, y: i32 },
    /// Playback blocked for `nanos` nanoseconds.
    Paused { nanos: u64 },
}

/// The pointer-movement collaborator. An implementation drives the real
/// cursor and clock; its ghost log records every request it received, in
/// order.
pub trait PointerMover {
    /// Every request the provider has received so far, oldest first. A
    /// provider without an observable log may leave the default.
    open spec fn log(&self) -> Seq<PointerEvent> {
        Seq::empty()
    }

    /// Moves the pointer to the absolute position `(x, y)`.
    fn move_to(&mut self, x: i32, y: i32)
        ensures
            final(self).log() == old(self).log().push(PointerEvent::Moved { x, y }),
    ;

    /// Blocks for `nanos` nanoseconds (a precise, high-resolution sleep).
    fn pause(&mut self, nanos: u64)
        ensures
            final(self).log() == old(self).log().push(PointerEvent::Paused { nanos }),
    ;
}

/// A pointer provider that only records its requests; playback through it
/// moves no cursor and lets the requests be inspected afterwards.
pub struct RecordingMover {
    pub events: Vec<PointerEvent>,
}

impl RecordingMover {
    /// A recorder with an empty log.
    pub fn new() -> (mover: RecordingMover)
        ensures
            mover.log() == Seq::<PointerEvent>::empty(),
    {
        RecordingMover { events: Vec::new() }
    }
}

impl PointerMover for RecordingMover {
    open spec fn log(&self) -> Seq<PointerEvent> {
        self.events@
    }

    fn move_to(&mut self, x: i32, y: i32) {
        self.events.push(PointerEvent::Moved { x, y });
    }

    fn pause(&mut self, nanos: u64) {
        self.events.push(PointerEvent::Paused { nanos });
    }
}

/// True when a coordinate is representable in the provider's numeric range.
pub open spec fn fits_i32(v: u64) -> bool {
    v <= i32::MAX
}

/// True when every waypoint of the path is representable.
pub open spec fn path_fits(points: Seq<Waypoint>) -> bool {
    forall|i: int|
        0 <= i < points.len() ==> fits_i32(#[trigger] points[i].x) && fits_i32(points[i].y)
}

/// The pause after each waypoint: the total duration split evenly over the
/// path, rounded to the nearest nanosecond.
pub open spec fn per_step_nanos(total: u64, len: int) -> int {
    round_div(total as int, len)
}

/// The playback transcript of a path: a move to each waypoint in order,
/// each followed by the per-step pause.
pub open spec fn tween_events(points: Seq<Waypoint>, pause: u64) -> Seq<PointerEvent> {
    Seq::new(
        2 * points.len(),
        |i: int|
            if i % 2 == 0 {
                PointerEvent::Moved { x: points[i / 2].x as i32, y: points[i / 2].y as i32 }
            } else {
                PointerEvent::Paused { nanos: pause }
            },
    )
}

/// Splits the total duration evenly over `len` steps, exact against
/// [`per_step_nanos`].
fn split_nanos(total: u64, len: usize) -> (pause: u64)
    requires
        1 <= len,
    ensures
        pause as int == per_step_nanos(total, len as int),
        pause <= total,
{
    proof {
        assert(total as int <= (total as int) * (len as int)) by (nonlinear_arith)
            requires
                1 <= len,
                0 <= total,
        ;
        lemma_round_div_le_mul(total as int, len as int, total as int);
    }
    let num: u128 = 2 * (total as u128) + (len as u128);
    let den: u128 = 2 * (len as u128);
    (num / den) as u64
}

/// Over a whole playback the pauses sum to `len` times the per-step pause,
/// and that sum approximates the requested total to within half a step on
/// either side: doubled, it never strays from the doubled total by more
/// than `len` nanoseconds.
pub proof fn lemma_total_pause_close(total: u64, len: int)
    requires
        1 <= len,
    ensures
        2 * (len * per_step_nanos(total, len)) <= 2 * (total as int) + len,
        2 * (total as int) < 2 * (len * per_step_nanos(total, len)) + len,
{
    let q = (2 * total + len) / (2 * len);
    let r = (2 * total + len) % (2 * len);
    lemma_fundamental_div_mod(2 * total + len, 2 * len);
    lemma_mod_division_less_than_divisor(2 * total + len, 2 * len);
    assert(2 * (len * q) <= 2 * total + len && 2 * total < 2 * (len * q) + len)
        by (nonlinear_arith)
        requires
            2 * total + len == 2 * len * q + r,
            0 <= r < 2 * len,
            1 <= len,
            0 <= total,
    ;
}

/// Replays the path through the pointer provider.
///
/// A zero duration bypasses the path and asks for one direct move to the
/// destination. A nonzero duration asks for a move to every waypoint in
/// order, pausing after each for an equal share of the total. A coordinate
/// outside the provider's numeric range fails fast with `ConversionError`,
/// before the provider is asked to do anything.
pub fn play<M: PointerMover>(path: &Path, total_nanos: u64, mover: &mut M) -> (r: Result<
    (),
    Error,
>)
    requires
        path@.len() >= 1,
    ensures
        r is Err ==> r == Err::<(), Error>(Error::ConversionError) && final(mover).log() == old(
            mover).log(),
        total_nanos == 0 ==> (r is Ok <==> fits_i32(path@.last().x) && fits_i32(path@.last().y)),
        total_nanos == 0 && fits_i32(path@.last().x) && fits_i32(path@.last().y) ==> final(
            mover).log() == old(mover).log().push(
            PointerEvent::Moved { x: path@.last().x as i32, y: path@.last().y as i32 },
        ),
        total_nanos > 0 ==> (r is Ok <==> path_fits(path@)),
        total_nanos > 0 && path_fits(path@) ==> final(mover).log() == old(mover).log()
            + tween_events(path@, per_step_nanos(total_nanos, path@.len() as int) as u64),
{
    let n: usize = path.points.len();
    if total_nanos == 0 {
        let dest: Waypoint = path.points[n - 1];
        if dest.x > i32::MAX as u64 || dest.y > i32::MAX as u64 {
            return Err(Error::ConversionError);
        }
        mover.move_to(dest.x as i32, dest.y as i32);
        return Ok(());
    }
    let mut i: usize = 0;
    while i < n
        invariant
            n == path@.len(),
            i <= n,
            total_nanos > 0,
            mover.log() == old(mover).log(),
            forall|j: int|
                0 <= j < i ==> fits_i32(#[trigger] path@[j].x) && fits_i32(path@[j].y),
        decreases n - i,
    {
        let w: Waypoint = path.points[i];
        if w.x > i32::MAX as u64 || w.y > i32::MAX as u64 {
            return Err(Error::ConversionError);
        }
        proof {
            assert forall|j: int| 0 <= j < i + 1 implies fits_i32(#[trigger] path@[j].x)
                && fits_i32(path@[j].y) by {
                if j == i as int {
                    assert(path@[j] == w);
                }
            }
        }
        i = i + 1;
    }
    let pause: u64 = split_nanos(total_nanos, n);
    let mut i: usize = 0;
    while i < n
        invariant
            n == path@.len(),
            1 <= n,
            i <= n,
            total_nanos > 0,
            path_fits(path@),
            pause as int == per_step_nanos(total_nanos, n as int),
            mover.log() == old(mover).log() + tween_events(path@.take(i as int), pause),
        decreases n - i,
    {
        let w: Waypoint = path.points[i];
        mover.move_to(w.x as i32, w.y as i32);
        mover.pause(pause);
        proof {
            let ghost e1 = PointerEvent::Moved { x: path@[i as int].x as i32, y: path@[i as int].y as i32 };
            let ghost e2 = PointerEvent::Paused { nanos: pause };
            assert(tween_events(path@.take(i as int + 1), pause) =~= tween_events(
                path@.take(i as int),
                pause,
            ).push(e1).push(e2));
            assert(old(mover).log() + tween_events(path@.take(i as int + 1), pause) =~= (old(
                mover).log() + tween_events(path@.take(i as int), pause)).push(e1).push(e2));
        }
        i = i + 1;
    }
    proof {
        assert(path@.take(n as int) =~= path@);
    }
    Ok(())
}

} // verus!
