use vstd::prelude::*;
use crate::point::{Point, UNITS, in_square};
use crate::polygon::{
    is_apex_height,
    Polygon, Triangle, Quadrilateral, medial_of, is_run, lemma_run_in_square, lemma_medial_in_square,
};
use crate::rule::{Policy, VertexRule, never_stuck, has_successor_in, admits};

verus! {

/// Side of every preset's shape: one hundred units.
pub const SIDE: i64 = 100 * UNITS;

/// Apex height of the preset triangle: `SIDE * sqrt(3) / 2`, rounded down.
pub const TRIANGLE_HEIGHT: i64 = 86_602_540;

/// How many points a preset emits when run from the command line.
pub const ITERATIONS: usize = 1000000;

/// The fractals on offer.
#[derive(Clone, Copy, Debug, PartialEq, Eq, Structural)]
pub enum Preset {
    SierpinskiTriangle,
    SquareOne,
    SquareTwo,
    Vicsek,
}

/// The equilateral triangle of side `SIDE`: base `(0, 0)`-`(SIDE, 0)`, apex
/// `(SIDE / 2, TRIANGLE_HEIGHT)`.
pub open spec fn triangle_vertices() -> Seq<Point> {
    seq![
        Point { x: 0, y: 0 },
        Point { x: SIDE, y: 0 },
        Point { x: (SIDE / 2) as i64, y: TRIANGLE_HEIGHT },
    ]
}

/// The corners of the square of side `SIDE` at the origin, counter-clockwise.
pub open spec fn square_vertices() -> Seq<Point> {
    seq![
        Point { x: 0, y: 0 },
        Point { x: SIDE, y: 0 },
        Point { x: SIDE, y: SIDE },
        Point { x: 0, y: SIDE },
    ]
}

/// The corners of the square, then its center.
pub open spec fn vicsek_candidates() -> Seq<Point> {
    square_vertices().push(Point { x: (SIDE / 2) as i64, y: (SIDE / 2) as i64 })
}

pub open spec fn preset_vertices(p: Preset) -> Seq<Point> {
    match p {
        Preset::SierpinskiTriangle => triangle_vertices(),
        _ => square_vertices(),
    }
}

/// The points that references are drawn from.
pub open spec fn preset_candidates(p: Preset) -> Seq<Point> {
    match p {
        Preset::Vicsek => vicsek_candidates(),
        _ => preset_vertices(p),
    }
}

pub open spec fn preset_policy(p: Preset) -> Policy {
    match p {
        Preset::SquareOne => Policy::NotPrevious,
        Preset::SquareTwo => Policy::SharesCoordinate,
        _ => Policy::Any,
    }
}

/// The jump as the fraction `(numerator, denominator)`.
pub open spec fn preset_jump(p: Preset) -> (int, int) {
    match p {
        Preset::Vicsek => (2, 3),
        _ => (1, 2),
    }
}

/// `points` is what preset `p` can emit: a chaos game on its shape, after a
/// first pick among its candidates.
pub open spec fn is_preset_run(p: Preset, points: Seq<Point>) -> bool {
    exists|prev: Point, last: Point|
        #![trigger is_run(
            medial_of(preset_vertices(p)),
            preset_policy(p),
            preset_candidates(p),
            prev,
            preset_jump(p).0,
            preset_jump(p).1,
            points,
            last,
        )]
        preset_candidates(p).contains(prev) && is_run(
            medial_of(preset_vertices(p)),
            preset_policy(p),
            preset_candidates(p),
            prev,
            preset_jump(p).0,
            preset_jump(p).1,
            points,
            last,
        )
}

/// The preset a selector names, if any.
pub open spec fn preset_of_name(name: Seq<char>) -> Option<Preset> {
    if name == "sierpinski-triangle"@ {
        Some(Preset::SierpinskiTriangle)
    } else if name == "square-one"@ {
        Some(Preset::SquareOne)
    } else if name == "square-two"@ {
        Some(Preset::SquareTwo)
    } else if name == "vicsek"@ {
        Some(Preset::Vicsek)
    } else {
        None
    }
}

/// The preset that `name` selects, or `None` for any other text.
pub fn preset_named(name: &str) -> (r: Option<Preset>)
    ensures
        r == preset_of_name(name@),
{
    if same_text(name, "sierpinski-triangle") {
        Some(Preset::SierpinskiTriangle)
    } else if same_text(name, "square-one") {
        Some(Preset::SquareOne)
    } else if same_text(name, "square-two") {
        Some(Preset::SquareTwo)
    } else if same_text(name, "vicsek") {
        Some(Preset::Vicsek)
    } else {
        None
    }
}

/// The preset for an optional selector: none selects the Sierpinski triangle;
/// a selector that names no preset comes back as the error.
pub fn select_preset(selector: Option<&str>) -> (r: Result<Preset, String>)
    ensures
        selector is None ==> r == Ok::<Preset, String>(Preset::SierpinskiTriangle),
        selector matches Some(name) ==> match preset_of_name(name@) {
            Some(p) => r == Ok::<Preset, String>(p),
            None => r matches Err(e) && e@ == name@,
        },
{
    match selector {
        None => Ok(Preset::SierpinskiTriangle),
        Some(name) => match preset_named(name) {
            Some(p) => Ok(p),
            None => Err(name.to_owned()),
        },
    }
}

/// Every candidate of `Any` has a successor: the first candidate.
proof fn lemma_any_never_stuck(candidates: Seq<Point>)
    requires
        candidates.len() > 0,
    ensures
        never_stuck(Policy::Any, candidates),
{
    assert forall|i: int| 0 <= i < candidates.len() implies has_successor_in(
        Policy::Any,
        candidates,
        #[trigger] candidates[i],
    ) by {
        assert(admits(Policy::Any, candidates[i], candidates[0]));
    }
}

/// `TRIANGLE_HEIGHT` is the apex height for a side of `SIDE`: the integer
/// square root of `3 * SIDE * SIDE / 4`.
pub proof fn lemma_triangle_height(h: int)
    requires
        is_apex_height(h, SIDE as int),
    ensures
        h == TRIANGLE_HEIGHT,
{
    let l = SIDE as int;
    let k = TRIANGLE_HEIGHT as int;
    assert(4 * 86_602_540int * 86_602_540int <= 3 * 100_000_000int * 100_000_000int);
    assert(3 * 100_000_000int * 100_000_000int < 4 * 86_602_541int * 86_602_541int);
    assert(h < k + 1) by (nonlinear_arith)
        requires
            4 * h * h <= 3 * l * l,
            3 * l * l < 4 * (k + 1) * (k + 1),
            0 <= h,
            0 <= k,
    ;
    assert(h > k - 1) by (nonlinear_arith)
        requires
            4 * k * k <= 3 * l * l,
            3 * l * l < 4 * (h + 1) * (h + 1),
            0 <= h,
            0 <= k,
    ;
}

/// Under `SharesCoordinate` a candidate may always follow itself.
proof fn lemma_shares_never_stuck(candidates: Seq<Point>)
    ensures
        never_stuck(Policy::SharesCoordinate, candidates),
{
    assert forall|i: int| 0 <= i < candidates.len() implies has_successor_in(
        Policy::SharesCoordinate,
        candidates,
        #[trigger] candidates[i],
    ) by {
        assert(admits(Policy::SharesCoordinate, candidates[i], candidates[i]));
    }
}

/// Each corner of the square differs from the next one.
proof fn lemma_square_never_stuck()
    ensures
        never_stuck(Policy::NotPrevious, square_vertices()),
{
    let v = square_vertices();
    assert forall|i: int| 0 <= i < v.len() implies has_successor_in(
        Policy::NotPrevious,
        v,
        #[trigger] v[i],
    ) by {
        assert(admits(Policy::NotPrevious, v[i], v[(i + 1) % 4]));
    }
}

/// What holds of every preset's output, from the run it came from.
proof fn lemma_preset_output(p: Preset, points: Seq<Point>, prev: Point, last: Point)
    requires
        preset_candidates(p).contains(prev),
        is_run(
            medial_of(preset_vertices(p)),
            preset_policy(p),
            preset_candidates(p),
            prev,
            preset_jump(p).0,
            preset_jump(p).1,
            points,
            last,
        ),
    ensures
        is_preset_run(p, points),
        forall|i: int| 0 <= i < points.len() ==> in_square(#[trigger] points[i], 0, SIDE as int),
{
    let v = preset_vertices(p);
    let c = preset_candidates(p);
    assert forall|i: int| 0 <= i < v.len() implies in_square(#[trigger] v[i], 0, SIDE as int) by {}
    assert forall|i: int| 0 <= i < c.len() implies in_square(#[trigger] c[i], 0, SIDE as int) by {}
    lemma_medial_in_square(v, 0, SIDE as int);
    lemma_run_in_square(
        medial_of(v),
        preset_policy(p),
        c,
        prev,
        preset_jump(p).0,
        preset_jump(p).1,
        points,
        last,
        0,
        SIDE as int,
    );
}

/// Two runs of a preset need not agree, whatever draws they came from, but
/// each one lies in the square `[0, SIDE] x [0, SIDE]`.
pub proof fn lemma_preset_runs_in_square(p: Preset, first: Seq<Point>, second: Seq<Point>)
    requires
        is_preset_run(p, first),
        is_preset_run(p, second),
    ensures
        forall|i: int| 0 <= i < first.len() ==> in_square(#[trigger] first[i], 0, SIDE as int),
        forall|i: int| 0 <= i < second.len() ==> in_square(#[trigger] second[i], 0, SIDE as int),
{
    lemma_preset_run_in_square(p, first);
    lemma_preset_run_in_square(p, second);
}

proof fn lemma_preset_run_in_square(p: Preset, points: Seq<Point>)
    requires
        is_preset_run(p, points),
    ensures
        forall|i: int| 0 <= i < points.len() ==> in_square(#[trigger] points[i], 0, SIDE as int),
{
    let (prev, last) = choose|prev: Point, last: Point|
        preset_candidates(p).contains(prev) && is_run(
            medial_of(preset_vertices(p)),
            preset_policy(p),
            preset_candidates(p),
            prev,
            preset_jump(p).0,
            preset_jump(p).1,
            points,
            last,
        );
    lemma_preset_output(p, points, prev, last);
}

/// The Sierpinski triangle: references drawn independently from the
/// triangle's vertices, jumping half way.
pub fn sierpinski_triangle(iterations: usize) -> (r: Vec<Point>)
    ensures
        r@.len() == iterations,
        is_preset_run(Preset::SierpinskiTriangle, r@),
        forall|i: int| 0 <= i < r@.len() ==> in_square(#[trigger] r@[i], 0, SIDE as int),
{
    let triangle = Triangle::new_equilateral(SIDE);
    let points = triangle.points();
    proof {
        lemma_triangle_height(triangle.c.y as int);
    }
    assert(points@ =~= triangle_vertices());
    proof {
        lemma_any_never_stuck(points@);
    }
    let mut rule = VertexRule::start(Policy::Any, points).unwrap();
    let ghost first = rule.previous;
    let r = triangle.chaos_game(iterations, 1, 2, &mut rule);
    proof {
        lemma_preset_output(Preset::SierpinskiTriangle, r@, first, rule.previous);
    }
    r
}

/// Square one: references drawn from the square's corners, never the same
/// corner twice in a row, jumping half way.
pub fn square_one(iterations: usize) -> (r: Vec<Point>)
    ensures
        r@.len() == iterations,
        is_preset_run(Preset::SquareOne, r@),
        forall|i: int| 0 <= i < r@.len() ==> in_square(#[trigger] r@[i], 0, SIDE as int),
{
    let square = Quadrilateral::square(SIDE);
    let points = square.points();
    assert(points@ =~= square_vertices());
    proof {
        lemma_square_never_stuck();
    }
    let mut rule = VertexRule::start(Policy::NotPrevious, points).unwrap();
    let ghost first = rule.previous;
    let r = square.chaos_game(iterations, 1, 2, &mut rule);
    proof {
        lemma_preset_output(Preset::SquareOne, r@, first, rule.previous);
    }
    r
}

/// Square two: references drawn from the square's corners, each sharing its x
/// or its y with the one before, jumping half way.
pub fn square_two(iterations: usize) -> (r: Vec<Point>)
    ensures
        r@.len() == iterations,
        is_preset_run(Preset::SquareTwo, r@),
        forall|i: int| 0 <= i < r@.len() ==> in_square(#[trigger] r@[i], 0, SIDE as int),
{
    let square = Quadrilateral::square(SIDE);
    let points = square.points();
    assert(points@ =~= square_vertices());
    proof {
        lemma_shares_never_stuck(points@);
    }
    let mut rule = VertexRule::start(Policy::SharesCoordinate, points).unwrap();
    let ghost first = rule.previous;
    let r = square.chaos_game(iterations, 1, 2, &mut rule);
    proof {
        lemma_preset_output(Preset::SquareTwo, r@, first, rule.previous);
    }
    r
}

/// The Vicsek fractal: references drawn independently from the square's
/// corners and its center, jumping two thirds of the way.
pub fn vicsek_fractal(iterations: usize) -> (r: Vec<Point>)
    ensures
        r@.len() == iterations,
        is_preset_run(Preset::Vicsek, r@),
        forall|i: int| 0 <= i < r@.len() ==> in_square(#[trigger] r@[i], 0, SIDE as int),
{
    let square = Quadrilateral::square(SIDE);
    let mut points = square.points();
    let center = points[0].midpoint(&points[2]);
    points.push(center);
    assert(points@ =~= vicsek_candidates());
    proof {
        lemma_any_never_stuck(points@);
    }
    let mut rule = VertexRule::start(Policy::Any, points).unwrap();
    let ghost first = rule.previous;
    let r = square.chaos_game(iterations, 2, 3, &mut rule);
    proof {
        lemma_preset_output(Preset::Vicsek, r@, first, rule.previous);
    }
    r
}

/// Runs `preset` for `iterations` points.
pub fn run_preset(preset: Preset, iterations: usize) -> (r: Vec<Point>)
    ensures
        r@.len() == iterations,
        is_preset_run(preset, r@),
        forall|i: int| 0 <= i < r@.len() ==> in_square(#[trigger] r@[i], 0, SIDE as int),
{
    match preset {
        Preset::SierpinskiTriangle => sierpinski_triangle(iterations),
        Preset::SquareOne => square_one(iterations),
        Preset::SquareTwo => square_two(iterations),
        Preset::Vicsek => vicsek_fractal(iterations),
    }
}

fn same_text(a: &str, b: &str) -> (r: bool)
    ensures
        r == (a@ == b@),
{
    let a = a.to_owned();
    let b = b.to_owned();
    a == b
}

} // verus!
