use chaos_game::point::{Point, UNITS};
use chaos_game::polygon::{Polygon, Quadrilateral, Triangle};
use chaos_game::presets::{SIDE, TRIANGLE_HEIGHT};

#[test]
fn midpoint_is_the_mean() {
    let p = Point::new(0, 0);
    let q = Point::new(10, 4);
    assert_eq!(p.midpoint(&q), Point::new(5, 2));
}

#[test]
fn midpoint_rounds_down() {
    let p = Point::new(0, -3);
    let q = Point::new(3, 0);
    assert_eq!(p.midpoint(&q), Point::new(1, -2));
}

#[test]
fn midpoint_is_symmetric_and_idempotent() {
    let p = Point::new(-7, 12);
    let q = Point::new(31, -5);
    assert_eq!(p.midpoint(&q), q.midpoint(&p));
    assert_eq!(p.midpoint(&p), p);
    assert_eq!(q.midpoint(&q), q);
}

#[test]
fn midpoint_of_extreme_coordinates() {
    let p = Point::new(i64::MAX, i64::MIN);
    let q = Point::new(i64::MAX, i64::MIN);
    assert_eq!(p.midpoint(&q), p);
}

#[test]
fn jump_endpoints() {
    let p = Point::new(3, -8);
    let q = Point::new(-20, 41);
    assert_eq!(p.jump_towards(&q, 0, 1), p);
    assert_eq!(p.jump_towards(&q, 1, 1), q);
    assert_eq!(p.jump_towards(&q, 0, 7), p);
    assert_eq!(p.jump_towards(&q, 7, 7), q);
}

#[test]
fn jump_half_and_two_thirds() {
    let p = Point::new(0, 0);
    let q = Point::new(300, 90);
    assert_eq!(p.jump_towards(&q, 1, 2), Point::new(150, 45));
    assert_eq!(p.jump_towards(&q, 2, 3), Point::new(200, 60));
    // (1 * 1 + 2 * 2) / 3 = 5 / 3, rounded down
    assert_eq!(Point::new(1, 0).jump_towards(&Point::new(2, 0), 2, 3), Point::new(1, 0));
}

#[test]
fn jump_extrapolates_beyond_the_target() {
    let p = Point::new(0, 0);
    let q = Point::new(10, 20);
    assert_eq!(p.jump_towards(&q, 2, 1), Point::new(20, 40));
    assert_eq!(p.jump_towards(&q, -1, 1), Point::new(-10, -20));
}

#[test]
fn equilateral_triangle_corners() {
    let t = Triangle::new_equilateral(100);
    // 86 is the largest even h with 4 * h * h <= 3 * 100 * 100
    assert_eq!(t.points(), vec![Point::new(0, 0), Point::new(100, 0), Point::new(50, 86)]);
    let big = Triangle::new_equilateral(SIDE);
    assert_eq!(big.points()[2], Point::new(SIDE / 2, TRIANGLE_HEIGHT));
    let h = TRIANGLE_HEIGHT as i128;
    let l = SIDE as i128;
    assert!(4 * h * h <= 3 * l * l && 3 * l * l < 4 * (h + 1) * (h + 1));
}

#[test]
fn square_corners() {
    let s = Quadrilateral::square(100);
    assert_eq!(
        s.points(),
        vec![Point::new(0, 0), Point::new(100, 0), Point::new(100, 100), Point::new(0, 100)]
    );
}

#[test]
fn triangle_medial_points() {
    let t = Triangle::new_equilateral(100);
    assert_eq!(
        t.medial_points(),
        vec![Point::new(50, 0), Point::new(75, 43), Point::new(25, 43)]
    );
}

#[test]
fn square_medial_points() {
    let s = Quadrilateral::square(100 * UNITS);
    let h = 50 * UNITS;
    let l = 100 * UNITS;
    assert_eq!(
        s.medial_points(),
        vec![Point::new(h, 0), Point::new(l, h), Point::new(h, l), Point::new(0, h)]
    );
}

#[test]
fn medial_points_lie_inside_the_circumcircle() {
    // a square centred on the origin, corners at squared distance 2 * 10^2
    let s = Quadrilateral::new(
        Point::new(10, 10),
        Point::new(-10, 10),
        Point::new(-10, -10),
        Point::new(10, -10),
    );
    for m in s.medial_points() {
        assert!(m.x * m.x + m.y * m.y < 200);
    }
}

#[test]
fn medial_points_of_a_diamond_are_exact_and_inside() {
    let s = Quadrilateral::new(Point::new(2, 0), Point::new(0, 2), Point::new(-2, 0), Point::new(0, -2));
    let m = s.medial_points();
    assert_eq!(m, vec![Point::new(1, 1), Point::new(-1, 1), Point::new(-1, -1), Point::new(1, -1)]);
    for p in m {
        assert!(p.x * p.x + p.y * p.y < 4);
    }
}

#[test]
fn equilateral_sides_agree_up_to_rounding() {
    let t = Triangle::new_equilateral(SIDE);
    let v = t.points();
    let d2 = |p: &Point, q: &Point| {
        let dx = (p.x - q.x) as f64;
        let dy = (p.y - q.y) as f64;
        (dx * dx + dy * dy).sqrt()
    };
    let side = SIDE as f64;
    assert!((d2(&v[0], &v[1]) - side).abs() < 2.0);
    assert!((d2(&v[1], &v[2]) - side).abs() < 2.0);
    assert!((d2(&v[2], &v[0]) - side).abs() < 2.0);
}

#[test]
fn shapes_of_any_size() {
    assert_eq!(
        Quadrilateral::square(7).points(),
        vec![Point::new(0, 0), Point::new(7, 0), Point::new(7, 7), Point::new(0, 7)]
    );
    // 4 * 6 * 6 <= 3 * 7 * 7 < 4 * 7 * 7
    assert_eq!(
        Triangle::new_equilateral(7).points(),
        vec![Point::new(0, 0), Point::new(7, 0), Point::new(3, 6)]
    );
    let t = Triangle::new(Point::new(1, 0), Point::new(0, 1), Point::new(-1, 0));
    assert_eq!((t.a, t.b, t.c), (Point::new(1, 0), Point::new(0, 1), Point::new(-1, 0)));
    // off the even grid the midpoints are rounded down
    assert_eq!(
        t.medial_points(),
        vec![Point::new(0, 0), Point::new(-1, 0), Point::new(0, 0)]
    );
}
