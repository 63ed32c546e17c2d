use screen_pilot::Bounds;
use screen_pilot::Error;
use screen_pilot::Path;
use screen_pilot::PointerEvent;
use screen_pilot::RecordingMover;
use screen_pilot::Waypoint;
use screen_pilot::plan;
use screen_pilot::play;

fn wp(x: u64, y: u64) -> Waypoint {
    Waypoint { x, y }
}

fn moved(x: i32, y: i32) -> PointerEvent {
    PointerEvent::Moved { x, y }
}

fn paused(nanos: u64) -> PointerEvent {
    PointerEvent::Paused { nanos }
}

#[test]
fn zero_duration_moves_once_to_destination() {
    let path = plan(wp(0, 0), wp(10, 4), Bounds { width: 100, height: 100 });
    let mut mover = RecordingMover::new();
    assert_eq!(play(&path, 0, &mut mover), Ok(()));
    assert_eq!(mover.events, vec![moved(10, 4)]);
}

#[test]
fn planned_path_plays_every_waypoint_in_order() {
    let path = plan(wp(0, 0), wp(3, 0), Bounds { width: 100, height: 100 });
    assert_eq!(path.points.len(), 4);
    let mut mover = RecordingMover::new();
    assert_eq!(play(&path, 8, &mut mover), Ok(()));
    assert_eq!(
        mover.events,
        vec![
            moved(0, 0),
            paused(2),
            moved(1, 0),
            paused(2),
            moved(2, 0),
            paused(2),
            moved(3, 0),
            paused(2),
        ]
    );
}

#[test]
fn pause_is_duration_split_to_nearest_nanosecond() {
    // Three waypoints over ten nanoseconds: 10 / 3 rounds to 3.
    let path = Path { points: vec![wp(0, 0), wp(1, 0), wp(2, 0)] };
    let mut mover = RecordingMover::new();
    assert_eq!(play(&path, 10, &mut mover), Ok(()));
    assert_eq!(
        mover.events,
        vec![moved(0, 0), paused(3), moved(1, 0), paused(3), moved(2, 0), paused(3)]
    );
}

#[test]
fn half_nanosecond_rounds_up() {
    // Two waypoints over three nanoseconds: 1.5 rounds away from zero to 2.
    let path = Path { points: vec![wp(4, 4), wp(5, 4)] };
    let mut mover = RecordingMover::new();
    assert_eq!(play(&path, 3, &mut mover), Ok(()));
    assert_eq!(mover.events, vec![moved(4, 4), paused(2), moved(5, 4), paused(2)]);
}

#[test]
fn oversized_coordinate_fails_before_any_movement() {
    let path = Path { points: vec![wp(1, 1), wp(u64::MAX, 0), wp(3, 3)] };
    let mut mover = RecordingMover::new();
    assert_eq!(play(&path, 5, &mut mover), Err(Error::ConversionError));
    assert!(mover.events.is_empty());
}

#[test]
fn oversized_destination_fails_instant_move() {
    let path = Path { points: vec![wp(1, 1), wp(2, (i32::MAX as u64) + 1)] };
    let mut mover = RecordingMover::new();
    assert_eq!(play(&path, 0, &mut mover), Err(Error::ConversionError));
    assert!(mover.events.is_empty());
}

#[test]
fn zero_duration_skips_intermediate_waypoints() {
    // The instant move ignores every waypoint but the destination, so an
    // unrepresentable intermediate coordinate does not matter.
    let path = Path { points: vec![wp(u64::MAX, 7), wp(2, 9)] };
    let mut mover = RecordingMover::new();
    assert_eq!(play(&path, 0, &mut mover), Ok(()));
    assert_eq!(mover.events, vec![moved(2, 9)]);
}

#[test]
fn largest_representable_coordinate_is_accepted() {
    let edge = i32::MAX as u64;
    let path = Path { points: vec![wp(edge, edge)] };
    let mut mover = RecordingMover::new();
    assert_eq!(play(&path, 1, &mut mover), Ok(()));
    assert_eq!(mover.events, vec![moved(i32::MAX, i32::MAX), paused(1)]);
}
