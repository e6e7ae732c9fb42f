use chaos_game::point::Point;
use chaos_game::polygon::{play_from, Polygon, Quadrilateral, Triangle};
use chaos_game::presets::{
    preset_named, run_preset, select_preset, sierpinski_triangle, square_one, square_two,
    vicsek_fractal, Preset, SIDE,
};
use chaos_game::rule::{Policy, VertexRule};

fn corners() -> Vec<Point> {
    Quadrilateral::square(100).points()
}

fn in_square(p: &Point) -> bool {
    0 <= p.x && p.x <= SIDE && 0 <= p.y && p.y <= SIDE
}

#[test]
fn rule_new_checks_its_input() {
    assert!(VertexRule::new(Policy::Any, corners(), 4).is_none());
    assert!(VertexRule::new(Policy::Any, Vec::new(), 0).is_none());
    // a single candidate cannot be followed by another one
    assert!(VertexRule::new(Policy::NotPrevious, vec![Point::new(1, 1)], 0).is_none());
    let rule = VertexRule::new(Policy::NotPrevious, corners(), 2).unwrap();
    assert_eq!(rule.previous, Point::new(100, 100));
    assert_eq!(rule.policy, Policy::NotPrevious);
}

#[test]
fn rule_start_needs_candidates() {
    assert!(VertexRule::start(Policy::Any, Vec::new()).is_none());
    for _ in 0..50 {
        let rule = VertexRule::start(Policy::SharesCoordinate, corners()).unwrap();
        assert!(corners().contains(&rule.previous));
    }
}

#[test]
fn admissible_per_policy() {
    let any = VertexRule::new(Policy::Any, corners(), 0).unwrap();
    assert_eq!(any.admissible(), corners());
    let not_prev = VertexRule::new(Policy::NotPrevious, corners(), 0).unwrap();
    assert_eq!(
        not_prev.admissible(),
        vec![Point::new(100, 0), Point::new(100, 100), Point::new(0, 100)]
    );
    let shares = VertexRule::new(Policy::SharesCoordinate, corners(), 0).unwrap();
    assert_eq!(
        shares.admissible(),
        vec![Point::new(0, 0), Point::new(100, 0), Point::new(0, 100)]
    );
}

#[test]
fn next_point_at_follows_the_given_choices() {
    let mut rule = VertexRule::new(Policy::NotPrevious, corners(), 0).unwrap();
    assert_eq!(rule.next_point_at(0), Point::new(100, 0));
    assert_eq!(rule.previous, Point::new(100, 0));
    // after (100, 0) the admissible ones are (0, 0), (100, 100), (0, 100)
    assert_eq!(rule.next_point_at(0), Point::new(0, 0));
    let mut shares = VertexRule::new(Policy::SharesCoordinate, corners(), 2).unwrap();
    // after (100, 100): (100, 0), (100, 100), (0, 100)
    assert_eq!(shares.next_point_at(2), Point::new(0, 100));
    assert_eq!(shares.next_point_at(1), Point::new(100, 100));
}

#[test]
fn square_one_rule_never_repeats() {
    let mut rule = VertexRule::start(Policy::NotPrevious, corners()).unwrap();
    let mut prev = rule.previous;
    for _ in 0..2000 {
        let next = rule.next_point();
        assert!(next.x != prev.x || next.y != prev.y);
        assert!(corners().contains(&next));
        prev = next;
    }
}

#[test]
fn square_two_rule_shares_a_coordinate() {
    let mut rule = VertexRule::start(Policy::SharesCoordinate, corners()).unwrap();
    let mut prev = rule.previous;
    for _ in 0..2000 {
        let next = rule.next_point();
        assert!(next.x == prev.x || next.y == prev.y);
        prev = next;
    }
}

#[test]
fn any_rule_reaches_every_candidate() {
    let mut rule = VertexRule::start(Policy::Any, corners()).unwrap();
    let mut seen = vec![false; 4];
    for _ in 0..2000 {
        let next = rule.next_point();
        let i = corners().iter().position(|c| *c == next).unwrap();
        seen[i] = true;
    }
    assert!(seen.iter().all(|s| *s));
}

#[test]
fn chaos_game_starts_on_a_medial_point() {
    let t = Triangle::new_equilateral(100);
    for _ in 0..50 {
        let mut rule = VertexRule::start(Policy::Any, t.points()).unwrap();
        let out = t.chaos_game(3, 1, 2, &mut rule);
        assert_eq!(out.len(), 3);
        assert!(t.medial_points().contains(&out[0]));
        // each later point is half way to a vertex
        for w in out.windows(2) {
            assert!(t.points().iter().any(|v| w[0].jump_towards(v, 1, 2) == w[1]));
        }
    }
}

#[test]
fn chaos_game_with_no_iterations() {
    let s = Quadrilateral::square(100);
    let mut rule = VertexRule::new(Policy::Any, s.points(), 1).unwrap();
    assert!(s.chaos_game(0, 1, 2, &mut rule).is_empty());
    assert_eq!(rule.previous, Point::new(100, 0));
}

#[test]
fn every_preset_emits_the_requested_count() {
    for preset in [Preset::SierpinskiTriangle, Preset::SquareOne, Preset::SquareTwo, Preset::Vicsek] {
        for n in [0usize, 1, 5, 1000] {
            let out = run_preset(preset, n);
            assert_eq!(out.len(), n);
            assert!(out.iter().all(in_square));
        }
    }
}

#[test]
fn sierpinski_five_points_in_the_square() {
    let out = sierpinski_triangle(5);
    assert_eq!(out.len(), 5);
    for p in &out {
        assert!(in_square(p));
        let line = format!("{} {}", p.x, p.y);
        assert_eq!(line.split(' ').count(), 2);
    }
}

#[test]
fn square_presets_stay_in_the_square() {
    assert!(square_one(500).iter().all(in_square));
    assert!(square_two(500).iter().all(in_square));
    assert!(vicsek_fractal(500).iter().all(in_square));
}

#[test]
fn two_runs_both_hold_the_invariants() {
    let a = square_one(200);
    let b = square_one(200);
    assert_eq!(a.len(), b.len());
    assert!(a.iter().chain(b.iter()).all(in_square));
}

#[test]
fn preset_names() {
    assert_eq!(preset_named("sierpinski-triangle"), Some(Preset::SierpinskiTriangle));
    assert_eq!(preset_named("square-one"), Some(Preset::SquareOne));
    assert_eq!(preset_named("square-two"), Some(Preset::SquareTwo));
    assert_eq!(preset_named("vicsek"), Some(Preset::Vicsek));
    assert_eq!(preset_named("Vicsek"), None);
    assert_eq!(preset_named(""), None);
}

#[test]
fn select_defaults_to_sierpinski() {
    assert_eq!(select_preset(None), Ok(Preset::SierpinskiTriangle));
    assert_eq!(select_preset(Some("square-two")), Ok(Preset::SquareTwo));
}

#[test]
fn select_unknown_names_the_selector() {
    let err = select_preset(Some("foo")).unwrap_err();
    assert!(err.contains("foo"));
    assert_eq!(err, "foo");
}

#[test]
fn play_from_given_references() {
    let refs = vec![Point::new(100, 0), Point::new(0, 100), Point::new(100, 100), Point::new(0, 0)];
    let out = play_from(Point::new(50, 50), &refs, 1, 2);
    assert_eq!(
        out,
        vec![Point::new(50, 50), Point::new(75, 25), Point::new(37, 62), Point::new(68, 81)]
    );
}

#[test]
fn play_from_two_thirds() {
    let refs = vec![Point::new(90, 0), Point::new(0, 0), Point::new(45, 45)];
    let out = play_from(Point::new(0, 90), &refs, 2, 3);
    assert_eq!(out, vec![Point::new(0, 90), Point::new(60, 30), Point::new(20, 10)]);
}

#[test]
fn play_from_no_references() {
    assert!(play_from(Point::new(1, 2), &Vec::new(), 1, 2).is_empty());
}

#[test]
fn draw_gives_an_allowed_walk() {
    let mut rule = VertexRule::new(Policy::NotPrevious, corners(), 3).unwrap();
    let refs = rule.draw(300);
    assert_eq!(refs.len(), 300);
    assert_ne!(refs[0], Point::new(0, 100));
    for w in refs.windows(2) {
        assert_ne!(w[0], w[1]);
    }
    assert_eq!(rule.previous, refs[299]);
    assert!(rule.draw(0).is_empty());
    assert_eq!(rule.previous, refs[299]);
}
