use koch_curve::engine::App;
use koch_curve::triangle::{
    degenerate_edge, initial_triangle, make_child_first, make_child_second, Coord, Point, Triangle,
};

fn point(xa: i64, xb: i64, ya: i64, yb: i64) -> Point {
    Point { x: Coord { a: xa, b: xb }, y: Coord { a: ya, b: yb } }
}

/// The two children of the initial triangle, by the documented transforms, at
/// level 2 (denominator 36).
fn expected_first_child() -> Triangle {
    // conj(alpha)*conj(p) + alpha: (1/2, sqrt(3)/6), (2/3, 0), (1, 0)
    Triangle::new(point(18, 0, 0, 6), point(24, 0, 0, 0), point(36, 0, 0, 0), 2)
}

fn expected_second_child() -> Triangle {
    // alpha*conj(p): (0, 0), (1/3, 0), (1/2, sqrt(3)/6)
    Triangle::new(point(0, 0, 0, 0), point(12, 0, 0, 0), point(18, 0, 0, 6), 2)
}

#[test]
fn initial_state() {
    let app = App::new();
    assert_eq!(app.triangle_count(), 1);
    assert_eq!(app.tick_count(), 0);
    assert_eq!(app.triangle_at(0), initial_triangle());
    assert!(app.ready_for_update());
}

#[test]
fn children_of_initial_triangle() {
    let t0 = initial_triangle();
    assert_eq!(make_child_first(&t0), expected_first_child());
    assert_eq!(make_child_second(&t0), expected_second_child());
}

#[test]
fn no_rebuild_through_tick_101() {
    let mut app = App::new();
    for _ in 0..101 {
        app.update();
    }
    // The counter has not yet exceeded the threshold at the start of any tick.
    assert_eq!(app.triangle_count(), 1);
    assert_eq!(app.tick_count(), 101);
}

#[test]
fn first_rebuild_pass() {
    let mut app = App::new();
    for _ in 0..102 {
        app.update();
    }
    // The tick that found the counter above 100 ran exactly one pass: the two
    // documented children, first child in front, and the counter reset to 0
    // before taking this tick's increment.
    assert_eq!(app.triangle_count(), 2);
    assert_eq!(app.tick_count(), 1);
    assert_eq!(app.triangle_at(0), expected_first_child());
    assert_eq!(app.triangle_at(1), expected_second_child());
}

#[test]
fn queue_doubles_each_pass() {
    let mut app = App::new();
    for _ in 0..102 {
        app.update();
    }
    assert_eq!(app.triangle_count(), 2);
    for _ in 0..101 {
        app.update();
    }
    assert_eq!(app.triangle_count(), 4);
    for _ in 0..101 {
        app.update();
    }
    assert_eq!(app.triangle_count(), 8);
    assert_eq!(app.tick_count(), 1);
}

#[test]
fn degeneracy_resets_to_initial_triangle() {
    let mut app = App::new();
    // Pass p runs on tick 102 + 101*(p-1); the 12th pass finds its first
    // second-child edge below 1/1000 and resets.
    for _ in 0..(102 + 101 * 10) {
        app.update();
    }
    assert_eq!(app.triangle_count(), 2048);
    for _ in 0..101 {
        app.update();
    }
    assert_eq!(app.triangle_count(), 1);
    assert_eq!(app.triangle_at(0), initial_triangle());
    assert_eq!(app.tick_count(), 1);
}

#[test]
fn degenerate_edge_is_strict() {
    // At level 5 the threshold comparison is 1000000 * edge_a < 6^10 =
    // 60466176, with no sqrt(3) part.  edge_a = 58 lies below, 61 above.
    let below = Triangle::new(point(7, 0, 3, 0), point(0, 0, 0, 0), point(0, 0, 0, 0), 5);
    assert!(degenerate_edge(&below));
    let above = Triangle::new(point(7, 0, 0, 2), point(0, 0, 0, 0), point(0, 0, 0, 0), 5);
    assert!(!degenerate_edge(&above));
}

#[test]
fn initial_triangle_is_not_degenerate() {
    assert!(!degenerate_edge(&initial_triangle()));
}
