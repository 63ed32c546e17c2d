use screen_pilot::Bounds;
use screen_pilot::Waypoint;
use screen_pilot::plan;

fn wp(x: u64, y: u64) -> Waypoint {
    Waypoint { x, y }
}

fn big_bounds() -> Bounds {
    Bounds { width: 1920, height: 1080 }
}

#[test]
fn same_point_yields_single_waypoint() {
    let path = plan(wp(7, 9), wp(7, 9), big_bounds());
    assert_eq!(path.points, vec![wp(7, 9)]);
}

#[test]
fn horizontal_move_steps_x_by_one() {
    let path = plan(wp(3, 7), wp(13, 7), big_bounds());
    let expected: Vec<Waypoint> = (0..=10).map(|k| wp(3 + k, 7)).collect();
    assert_eq!(path.points, expected);
    assert_eq!(path.points.len(), 11);
}

#[test]
fn horizontal_move_leftward() {
    let path = plan(wp(13, 7), wp(3, 7), big_bounds());
    let expected: Vec<Waypoint> = (0..=10).map(|k| wp(13 - k, 7)).collect();
    assert_eq!(path.points, expected);
}

#[test]
fn vertical_move_steps_y_by_one() {
    let path = plan(wp(5, 2), wp(5, 6), big_bounds());
    let expected: Vec<Waypoint> = (0..=4).map(|k| wp(5, 2 + k)).collect();
    assert_eq!(path.points, expected);
}

#[test]
fn vertical_move_upward() {
    let path = plan(wp(5, 6), wp(5, 2), big_bounds());
    let expected: Vec<Waypoint> = (0..=4).map(|k| wp(5, 6 - k)).collect();
    assert_eq!(path.points, expected);
}

#[test]
fn steep_diagonal_drains_secondary_axis() {
    // Slope 3: three unit y-steps drain out of the accumulator before each
    // x-step; the terminal waypoint is forced to the destination.
    let path = plan(wp(0, 0), wp(2, 6), big_bounds());
    let expected = vec![
        wp(0, 0),
        wp(0, 1),
        wp(0, 2),
        wp(1, 3),
        wp(1, 4),
        wp(1, 5),
        wp(2, 6),
    ];
    assert_eq!(path.points, expected);
}

#[test]
fn negative_slope_mirrors_positive() {
    let path = plan(wp(2, 6), wp(0, 0), big_bounds());
    let expected = vec![
        wp(2, 6),
        wp(2, 5),
        wp(2, 4),
        wp(1, 3),
        wp(1, 2),
        wp(1, 1),
        wp(0, 0),
    ];
    assert_eq!(path.points, expected);
}

#[test]
fn shallow_diagonal_steps_x_first() {
    // Slope 1/2: the accumulator reaches one only every other x-step.
    let path = plan(wp(0, 0), wp(4, 2), big_bounds());
    let last = *path.points.last().unwrap();
    assert_eq!(last, wp(4, 2));
    for pair in path.points.windows(2) {
        assert_ne!(pair[0], pair[1]);
        assert!(pair[1].x <= 4 && pair[1].y <= 2);
    }
}

#[test]
fn path_always_ends_at_destination() {
    let cases = [
        (wp(10, 3), wp(4, 9)),
        (wp(0, 0), wp(1, 17)),
        (wp(100, 50), wp(3, 49)),
        (wp(8, 8), wp(9, 9)),
    ];
    for (origin, destination) in cases {
        let path = plan(origin, destination, big_bounds());
        assert_eq!(*path.points.last().unwrap(), destination);
        assert!(!path.points.is_empty());
        for i in 0..path.points.len() {
            for j in (i + 1)..path.points.len() {
                assert_ne!(path.points[i], path.points[j]);
            }
        }
    }
}

#[test]
fn waypoints_stay_inside_endpoint_box() {
    let origin = wp(20, 5);
    let destination = wp(3, 40);
    let path = plan(origin, destination, big_bounds());
    for w in &path.points {
        assert!(w.x >= 3 && w.x <= 20);
        assert!(w.y >= 5 && w.y <= 40);
    }
}

#[test]
fn zero_bounds_still_reach_destination() {
    // The iteration cap is the pixel count of the bounds; even a zero cap
    // leaves the forced terminal waypoint.
    let path = plan(wp(0, 0), wp(5, 0), Bounds { width: 0, height: 0 });
    assert_eq!(path.points, vec![wp(5, 0)]);
}
