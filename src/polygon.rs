use vstd::prelude::*;
use crate::point::{Point, on_grid, spec_midpoint, spec_jump, in_square, lemma_midpoint_in_square, lemma_jump_in_square};
use crate::random::random_index;
use crate::rule::{Policy, VertexRule, is_walk};

verus! {

/// The midpoints of the edges: element `i` is the midpoint of vertex `i` and
/// its cyclic successor.
pub open spec fn medial_of(v: Seq<Point>) -> Seq<Point> {
    Seq::new(v.len(), |i: int| spec_midpoint(v[i], v[(i + 1) % (v.len() as int)]))
}

/// Every vertex lies on the even grid.
pub open spec fn all_on_grid(v: Seq<Point>) -> bool {
    forall|i: int| 0 <= i < v.len() ==> on_grid(#[trigger] v[i])
}

/// Every vertex lies at squared distance `r2` from `center`.
pub open spec fn concyclic(v: Seq<Point>, center: Point, r2: int) -> bool {
    forall|i: int| 0 <= i < v.len() ==> dist2(#[trigger] v[i], center) == r2
}

/// No vertex equals the next one.
pub open spec fn distinct_neighbours(v: Seq<Point>) -> bool {
    forall|i: int| 0 <= i < v.len() ==> #[trigger] v[i] != v[(i + 1) % (v.len() as int)]
}

/// Whenever the vertices, distinct from their neighbours, lie on one circle,
/// every medial point lies strictly inside that circle.
pub open spec fn medial_inside_circles(v: Seq<Point>) -> bool {
    forall|center: Point, r2: int|
        #![trigger concyclic(v, center, r2)]
        concyclic(v, center, r2) && distinct_neighbours(v) ==> forall|i: int|
            0 <= i < v.len() ==> dist2(#[trigger] medial_of(v)[i], center) < r2
}

/// Squared distance between two points.
pub open spec fn dist2(p: Point, q: Point) -> int {
    (p.x - q.x) * (p.x - q.x) + (p.y - q.y) * (p.y - q.y)
}

/// Each point after the first is the jump, by `num / den`, from the point
/// before it towards the reference drawn at that step; one reference per point.
pub open spec fn follows(points: Seq<Point>, refs: Seq<Point>, num: int, den: int) -> bool {
    &&& refs.len() == points.len()
    &&& forall|i: int|
        0 <= i < points.len() - 1 ==> #[trigger] points[i + 1] == spec_jump(points[i], refs[i], num, den)
}

/// `points` is what a chaos game can emit: it starts at a medial point, its
/// references are a walk that `policy` allows over `candidates` after `prev`,
/// and `last` is the last reference drawn (`prev` if none was).
pub open spec fn is_run(
    medial: Seq<Point>,
    policy: Policy,
    candidates: Seq<Point>,
    prev: Point,
    num: int,
    den: int,
    points: Seq<Point>,
    last: Point,
) -> bool {
    exists|refs: Seq<Point>|
        #![trigger is_walk(policy, candidates, prev, refs)]
        is_walk(policy, candidates, prev, refs) && follows(points, refs, num, den) && (points.len() > 0
            ==> medial.contains(points[0])) && last == (if refs.len() == 0 {
            prev
        } else {
            refs.last()
        })
}

/// A shape given by an ordered, cyclic sequence of vertices.
pub trait Polygon {
    spec fn vertices(&self) -> Seq<Point>;

    /// The vertices, in order.
    fn points(&self) -> (r: Vec<Point>)
        ensures
            r@ == self.vertices(),
    ;

    /// The midpoint of each vertex and the next one, the last paired with the
    /// first, each rounded down. Where the vertices lie on the even grid each
    /// midpoint is exact, and of vertices on one circle the medial points lie
    /// strictly inside it.
    fn medial_points(&self) -> (r: Vec<Point>)
        ensures
            r@ == medial_of(self.vertices()),
            all_on_grid(self.vertices()) ==> forall|i: int|
                #![trigger r@[i]]
                0 <= i < r@.len() ==> 2 * r@[i].x == self.vertices()[i].x + self.vertices()[(i + 1)
                    % (r@.len() as int)].x && 2 * r@[i].y == self.vertices()[i].y
                    + self.vertices()[(i + 1) % (r@.len() as int)].y,
            all_on_grid(self.vertices()) ==> medial_inside_circles(self.vertices()),
    {
        let points = self.points();
        let n = points.len();
        let mut medial: Vec<Point> = Vec::with_capacity(n);
        let mut i: usize = 0;
        while i < n
            invariant
                n == points@.len(),
                points@ == self.vertices(),
                i <= n,
                medial@.len() == i,
                forall|j: int| 0 <= j < i ==> medial@[j] == #[trigger] medial_of(points@)[j],
            decreases n - i,
        {
            let next = (i + 1) % n;
            let m = points[i].midpoint(&points[next]);
            medial.push(m);
            i = i + 1;
        }
        assert(medial@ =~= medial_of(points@));
        proof {
            if all_on_grid(points@) {
                lemma_grid_medial_exact(points@);
                lemma_grid_medial_inside_circles(points@);
            }
        }
        medial
    }

    /// Plays the chaos game: starts at a random medial point and, `iterations`
    /// times, emits the current point, draws a reference from `rule` and jumps
    /// the fraction `num / den` of the way towards it. Returns the emitted points.
    /// The fraction lies in `[0, 1]`: repeated jumps past the reference would
    /// leave the range of `i64`.
    fn chaos_game(&self, iterations: usize, num: i32, den: u32, rule: &mut VertexRule) -> (r: Vec<Point>)
        requires
            self.vertices().len() > 0,
            0 <= num,
            num as int <= den as int,
            0 < den,
            old(rule).wf(),
        ensures
            r@.len() == iterations,
            is_run(
                medial_of(self.vertices()),
                old(rule).policy,
                old(rule).candidates@,
                old(rule).previous,
                num as int,
                den as int,
                r@,
                final(rule).previous,
            ),
            final(rule).policy == old(rule).policy,
            final(rule).candidates@ == old(rule).candidates@,
            final(rule).wf(),
    {
        let medial = self.medial_points();
        let start = medial[random_index(medial.len())];
        let references = rule.draw(iterations);
        play_from(start, &references, num, den)
    }
}

/// The points of a chaos game from `start` with the given references: the
/// first point is `start`, and each next one is the jump, by `num / den`,
/// from the one before towards that step's reference. One point per reference;
/// the jump towards the last reference is not taken. The fraction lies in
/// `[0, 1]`: repeated jumps past a reference would leave the range of `i64`.
pub fn play_from(start: Point, references: &Vec<Point>, num: i32, den: u32) -> (r: Vec<Point>)
    requires
        0 <= num,
        num as int <= den as int,
        0 < den,
    ensures
        follows(r@, references@, num as int, den as int),
        r@.len() > 0 ==> r@[0] == start,
{
    let n = references.len();
    let mut current = start;
    let mut emitted: Vec<Point> = Vec::new();
    let mut i: usize = 0;
    while i < n
        invariant
            n == references@.len(),
            0 <= num <= den,
            0 < den,
            i <= n,
            emitted@.len() == i,
            i > 0 ==> emitted@[0] == start,
            current == (if i == 0 {
                start
            } else {
                spec_jump(emitted@[i - 1], references@[i - 1], num as int, den as int)
            }),
            forall|j: int|
                0 <= j < i - 1 ==> #[trigger] emitted@[j + 1] == spec_jump(
                    emitted@[j],
                    references@[j],
                    num as int,
                    den as int,
                ),
        decreases n - i,
    {
        emitted.push(current);
        let reference = references[i];
        proof {
            lemma_jump_in_square(current, reference, num as int, den as int, i64::MIN as int, i64::MAX as int);
        }
        current = current.jump_towards(&reference, num, den);
        i = i + 1;
    }
    emitted
}

/// The height of the apex of an equilateral triangle of side `length`:
/// `length * sqrt(3) / 2`, rounded down.
pub open spec fn is_apex_height(h: int, length: int) -> bool {
    &&& 0 <= h
    &&& 4 * h * h <= 3 * length * length < 4 * (h + 1) * (h + 1)
}

/// Three vertices, in order.
#[derive(Clone, Copy, Debug, PartialEq, Eq, Structural)]
pub struct Triangle {
    pub a: Point,
    pub b: Point,
    pub c: Point,
}

impl Triangle {
    pub fn new(a: Point, b: Point, c: Point) -> (r: Triangle)
        ensures
            r == (Triangle { a, b, c }),
    {
        Triangle { a, b, c }
    }

    /// The equilateral triangle with base `(0, 0)`-`(length, 0)` and apex
    /// `(length / 2, h)`, both rounded down, `h` the height `length * sqrt(3) / 2`.
    pub fn new_equilateral(length: i64) -> (r: Triangle)
        requires
            0 <= length,
        ensures
            r.a == (Point { x: 0, y: 0 }),
            r.b == (Point { x: length, y: 0 }),
            r.c.x == length / 2,
            is_apex_height(r.c.y as int, length as int),
    {
        let half = length / 2;
        let h = apex_height(length);
        let a = Point::new(0, 0);
        let b = Point::new(length, 0);
        let c = Point::new(half, h);
        Triangle::new(a, b, c)
    }
}

impl Polygon for Triangle {
    open spec fn vertices(&self) -> Seq<Point> {
        seq![self.a, self.b, self.c]
    }

    fn points(&self) -> (r: Vec<Point>) {
        vec![self.a, self.b, self.c]
    }
}

/// The largest `h` with `4 * h * h <= 3 * length * length`.
fn apex_height(length: i64) -> (h: i64)
    requires
        0 <= length,
    ensures
        is_apex_height(h as int, length as int),
{
    let l = length as u128;
    assert(3 * l * l < 0xC000_0000_0000_0000_0000_0000_0000_0000) by (nonlinear_arith)
        requires
            l < 0x8000_0000_0000_0000,
    ;
    let q = 3 * l * l / 4;
    // the root lies in [lo, hi)
    let mut lo: u128 = 0;
    let mut hi: u128 = l + 1;
    assert(q < hi * hi) by (nonlinear_arith)
        requires
            q == 3 * l * l / 4,
            hi == l + 1,
            0 <= l,
    ;
    while hi - lo > 1
        invariant
            lo < hi <= l + 1,
            l < 0x8000_0000_0000_0000,
            lo * lo <= q,
            q < hi * hi,
        decreases hi - lo,
    {
        let mid = lo + (hi - lo) / 2;
        assert(mid * mid <= 0x4000_0000_0000_0000_0000_0000_0000_0000) by (nonlinear_arith)
            requires
                mid < l + 1,
                l < 0x8000_0000_0000_0000,
        ;
        if mid * mid <= q {
            lo = mid;
        } else {
            hi = mid;
        }
    }
    let h = lo;
    assert(4 * h * h <= 3 * l * l < 4 * (h + 1) * (h + 1)) by (nonlinear_arith)
        requires
            h * h <= q,
            q < (h + 1) * (h + 1),
            q == 3 * l * l / 4,
    ;
    assert(h * h <= l * l) by (nonlinear_arith)
        requires
            4 * h * h <= 3 * l * l,
    ;
    assert(h <= l) by (nonlinear_arith)
        requires
            h * h <= l * l,
            0 <= l,
    ;
    h as i64
}

/// Four vertices, in order.
#[derive(Clone, Copy, Debug, PartialEq, Eq, Structural)]
pub struct Quadrilateral {
    pub a: Point,
    pub b: Point,
    pub c: Point,
    pub d: Point,
}

impl Quadrilateral {
    pub fn new(a: Point, b: Point, c: Point, d: Point) -> (r: Quadrilateral)
        ensures
            r == (Quadrilateral { a, b, c, d }),
    {
        Quadrilateral { a, b, c, d }
    }

    /// The axis-aligned square with corners `(0, 0)` and `(length, length)`,
    /// counter-clockwise from the origin.
    pub fn square(length: i64) -> (r: Quadrilateral)
        ensures
            r.a == (Point { x: 0, y: 0 }),
            r.b == (Point { x: length, y: 0 }),
            r.c == (Point { x: length, y: length }),
            r.d == (Point { x: 0, y: length }),
    {
        let a = Point::new(0, 0);
        let b = Point::new(length, 0);
        let c = Point::new(length, length);
        let d = Point::new(0, length);
        Quadrilateral::new(a, b, c, d)
    }
}

impl Polygon for Quadrilateral {
    open spec fn vertices(&self) -> Seq<Point> {
        seq![self.a, self.b, self.c, self.d]
    }

    fn points(&self) -> (r: Vec<Point>) {
        vec![self.a, self.b, self.c, self.d]
    }
}

/// The medial points of vertices that lie in a square lie in that square too.
pub proof fn lemma_medial_in_square(v: Seq<Point>, lo: int, hi: int)
    requires
        forall|i: int| 0 <= i < v.len() ==> in_square(#[trigger] v[i], lo, hi),
    ensures
        forall|i: int| 0 <= i < v.len() ==> in_square(#[trigger] medial_of(v)[i], lo, hi),
{
    assert forall|i: int| 0 <= i < v.len() implies in_square(#[trigger] medial_of(v)[i], lo, hi) by {
        let j = (i + 1) % (v.len() as int);
        lemma_midpoint_in_square(v[i], v[j], lo, hi);
    }
}

/// The points of a chaos game whose medial points and candidates lie in a
/// square, with a jump that interpolates, lie in that square too.
pub proof fn lemma_run_in_square(
    medial: Seq<Point>,
    policy: Policy,
    candidates: Seq<Point>,
    prev: Point,
    num: int,
    den: int,
    points: Seq<Point>,
    last: Point,
    lo: int,
    hi: int,
)
    requires
        is_run(medial, policy, candidates, prev, num, den, points, last),
        0 <= num <= den,
        0 < den,
        forall|i: int| 0 <= i < medial.len() ==> in_square(#[trigger] medial[i], lo, hi),
        forall|i: int| 0 <= i < candidates.len() ==> in_square(#[trigger] candidates[i], lo, hi),
    ensures
        forall|i: int| 0 <= i < points.len() ==> in_square(#[trigger] points[i], lo, hi),
{
    let refs = choose|refs: Seq<Point>|
        #![trigger is_walk(policy, candidates, prev, refs)]
        is_walk(policy, candidates, prev, refs) && follows(points, refs, num, den) && (points.len() > 0
            ==> medial.contains(points[0])) && last == (if refs.len() == 0 {
            prev
        } else {
            refs.last()
        });
    assert forall|i: int| 0 <= i < points.len() implies in_square(#[trigger] points[i], lo, hi) by {
        lemma_prefix_in_square(candidates, prev, policy, num, den, points, refs, lo, hi, i);
    }
}

proof fn lemma_prefix_in_square(
    candidates: Seq<Point>,
    prev: Point,
    policy: Policy,
    num: int,
    den: int,
    points: Seq<Point>,
    refs: Seq<Point>,
    lo: int,
    hi: int,
    i: int,
)
    requires
        is_walk(policy, candidates, prev, refs),
        follows(points, refs, num, den),
        0 <= num <= den,
        0 < den,
        0 <= i < points.len(),
        in_square(points[0], lo, hi),
        forall|k: int| 0 <= k < candidates.len() ==> in_square(#[trigger] candidates[k], lo, hi),
    ensures
        in_square(points[i], lo, hi),
    decreases i,
{
    if i > 0 {
        lemma_prefix_in_square(candidates, prev, policy, num, den, points, refs, lo, hi, i - 1);
        assert(candidates.contains(refs[i - 1]));
        assert(points[(i - 1) + 1] == spec_jump(points[i - 1], refs[i - 1], num, den));
        lemma_jump_in_square(points[i - 1], refs[i - 1], num, den, lo, hi);
    }
}

/// The medial points of vertices on the even grid are exact midpoints.
pub proof fn lemma_grid_medial_exact(v: Seq<Point>)
    requires
        all_on_grid(v),
    ensures
        forall|i: int|
            #![trigger medial_of(v)[i]]
            0 <= i < v.len() ==> 2 * medial_of(v)[i].x == v[i].x + v[(i + 1) % (v.len() as int)].x
                && 2 * medial_of(v)[i].y == v[i].y + v[(i + 1) % (v.len() as int)].y,
{
    assert forall|i: int| #![trigger medial_of(v)[i]] 0 <= i < v.len() implies 2 * medial_of(v)[i].x
        == v[i].x + v[(i + 1) % (v.len() as int)].x && 2 * medial_of(v)[i].y == v[i].y + v[(i + 1)
        % (v.len() as int)].y by {
        let j = (i + 1) % (v.len() as int);
        assert(on_grid(v[i]) && on_grid(v[j]));
        lemma_even_half(v[i].x as int, v[j].x as int);
        lemma_even_half(v[i].y as int, v[j].y as int);
    }
}

proof fn lemma_even_half(a: int, b: int)
    requires
        a % 2 == 0,
        b % 2 == 0,
    ensures
        2 * ((a + b) / 2) == a + b,
{
    vstd::arithmetic::div_mod::lemma_fundamental_div_mod(a, 2);
    vstd::arithmetic::div_mod::lemma_fundamental_div_mod(b, 2);
    vstd::arithmetic::div_mod::lemma_div_multiples_vanish(a / 2 + b / 2, 2);
    assert(a + b == 2 * (a / 2 + b / 2));
}

/// Of a polygon whose vertices lie on the even grid and on one circle, with
/// distinct neighbours, every medial point lies strictly inside that circle.
pub proof fn lemma_medial_inside_circle(v: Seq<Point>, center: Point, r2: int)
    requires
        all_on_grid(v),
        concyclic(v, center, r2),
        distinct_neighbours(v),
    ensures
        forall|i: int| 0 <= i < v.len() ==> dist2(#[trigger] medial_of(v)[i], center) < r2,
{
    lemma_grid_medial_exact(v);
    assert forall|i: int| 0 <= i < v.len() implies dist2(#[trigger] medial_of(v)[i], center)
        < r2 by {
        let p = v[i];
        let q = v[(i + 1) % (v.len() as int)];
        let m = medial_of(v)[i];
        assert(v[i] != v[(i + 1) % (v.len() as int)]);
        assert(dist2(v[i], center) == r2);
        assert(dist2(v[(i + 1) % (v.len() as int)], center) == r2);
        lemma_exact_mid_closer(
            p.x - center.x,
            p.y - center.y,
            q.x - center.x,
            q.y - center.y,
            m.x - center.x,
            m.y - center.y,
            r2,
        );
    }
}

/// Every circle through the vertices of a polygon on the even grid holds its
/// medial points strictly inside.
pub proof fn lemma_grid_medial_inside_circles(v: Seq<Point>)
    requires
        all_on_grid(v),
    ensures
        medial_inside_circles(v),
{
    assert forall|center: Point, r2: int|
        #![trigger concyclic(v, center, r2)]
        concyclic(v, center, r2) && distinct_neighbours(v) implies forall|i: int|
        0 <= i < v.len() ==> dist2(#[trigger] medial_of(v)[i], center) < r2 by {
        lemma_medial_inside_circle(v, center, r2);
    }
}

/// The algebra behind `lemma_medial_inside_circle`, relative to the center.
proof fn lemma_exact_mid_closer(ax: int, ay: int, bx: int, by: int, mx: int, my: int, r2: int)
    requires
        ax * ax + ay * ay == r2,
        bx * bx + by * by == r2,
        ax != bx || ay != by,
        2 * mx == ax + bx,
        2 * my == ay + by,
    ensures
        mx * mx + my * my < r2,
{
    assert((ax - bx) * (ax - bx) + (ay - by) * (ay - by) > 0) by (nonlinear_arith)
        requires
            ax != bx || ay != by,
    ;
    assert(4 * (mx * mx + my * my) + (ax - bx) * (ax - bx) + (ay - by) * (ay - by) == 4 * r2)
        by (nonlinear_arith)
        requires
            ax * ax + ay * ay == r2,
            bx * bx + by * by == r2,
            2 * mx == ax + bx,
            2 * my == ay + by,
    ;
}

} // verus!
