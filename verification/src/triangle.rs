//! The geometric primitive: one triangle, held exactly.
//!
//! A coordinate is `(a + b*sqrt(3)) / 6^level` with integer `a`, `b`; the
//! `level` is shared by all six coordinates of a triangle.  The two subdivision
//! maps, written with `alpha = 1/2 + (sqrt(3)/6)*i = (3 + sqrt(3)*i)/6`, are
//!
//!   first child   `p -> conj(alpha)*conj(p) + alpha`
//!   second child  `p -> alpha*conj(p)`
//!
//! Working out `(3 +/- sqrt(3)*i) * (x - y*i) / 6` over coefficients at level
//! `k` gives the integer coefficient maps below at level `k + 1`.

use vstd::prelude::*;

use crate::algebra::{alg_lt, alg_lt_exec, lemma_pow6_monotone, lemma_pow6_pos, pow6};

verus! {

/// No triangle may carry a level above this: it keeps every coefficient, and
/// every intermediate product of the degeneracy test, inside the machine
/// integers used at run time.
pub const LEVEL_LIMIT: u32 = 16;

/// One coordinate: the exact number `(a + b*sqrt(3)) / 6^level`, with the
/// level kept by the owning triangle.
#[derive(Clone, Copy, PartialEq, Eq, Structural, Debug)]
pub struct Coord {
    pub a: i64,
    pub b: i64,
}

/// One point of the plane, historically a complex number `x + y*i`.
#[derive(Clone, Copy, PartialEq, Eq, Structural, Debug)]
pub struct Point {
    pub x: Coord,
    pub y: Coord,
}

/// One triangle of the current generation.  Immutable once constructed: each
/// regeneration pass discards old triangles and builds new ones.
#[derive(Clone, Copy, PartialEq, Eq, Structural, Debug)]
pub struct Triangle {
    pub p1: Point,
    pub p2: Point,
    pub p3: Point,
    pub level: u32,
}

/// Mathematical model of a coordinate: unbounded integer coefficients.
pub struct CoordV {
    pub a: int,
    pub b: int,
}

pub struct PointV {
    pub x: CoordV,
    pub y: CoordV,
}

pub struct TriV {
    pub p1: PointV,
    pub p2: PointV,
    pub p3: PointV,
    pub level: nat,
}

impl View for Coord {
    type V = CoordV;

    open spec fn view(&self) -> CoordV {
        CoordV { a: self.a as int, b: self.b as int }
    }
}

impl View for Point {
    type V = PointV;

    open spec fn view(&self) -> PointV {
        PointV { x: self.x@, y: self.y@ }
    }
}

impl View for Triangle {
    type V = TriV;

    open spec fn view(&self) -> TriV {
        TriV { p1: self.p1@, p2: self.p2@, p3: self.p3@, level: self.level as nat }
    }
}

/// The initial triangle, at level 1: `p1 = (0, 0)`, `p2 = (1/2, sqrt(3)/6)`,
/// `p3 = (1, 0)`; over denominator 6 that is `(0+0)/6`, `(3, 0*sqrt(3))/6` and
/// `(0, 1*sqrt(3))/6`, `(6, 0)/6`.
pub open spec fn spec_initial_triangle() -> TriV {
    TriV {
        p1: PointV { x: CoordV { a: 0, b: 0 }, y: CoordV { a: 0, b: 0 } },
        p2: PointV { x: CoordV { a: 3, b: 0 }, y: CoordV { a: 0, b: 1 } },
        p3: PointV { x: CoordV { a: 6, b: 0 }, y: CoordV { a: 0, b: 0 } },
        level: 1,
    }
}

/// `conj(alpha)*conj(p) + alpha` on coefficients: `(3x - sqrt(3)y)/6 + 1/2`
/// and `(-sqrt(3)x - 3y)/6 + sqrt(3)/6`, with `1/2 = 3*6^k / 6^(k+1)` and
/// `sqrt(3)/6 = 6^k*sqrt(3) / 6^(k+1)`.
pub open spec fn pt_child_first(p: PointV, k: nat) -> PointV {
    PointV {
        x: CoordV { a: 3 * p.x.a - 3 * p.y.b + 3 * pow6(k), b: 3 * p.x.b - p.y.a },
        y: CoordV { a: -3 * p.x.b - 3 * p.y.a, b: -p.x.a - 3 * p.y.b + pow6(k) },
    }
}

/// `alpha*conj(p)` on coefficients: `(3x + sqrt(3)y)/6` and `(sqrt(3)x - 3y)/6`.
pub open spec fn pt_child_second(p: PointV) -> PointV {
    PointV {
        x: CoordV { a: 3 * p.x.a + 3 * p.y.b, b: 3 * p.x.b + p.y.a },
        y: CoordV { a: 3 * p.x.b - 3 * p.y.a, b: p.x.a - 3 * p.y.b },
    }
}

/// The child pushed first by a regeneration pass.
pub open spec fn child_first(t: TriV) -> TriV {
    TriV {
        p1: pt_child_first(t.p1, t.level),
        p2: pt_child_first(t.p2, t.level),
        p3: pt_child_first(t.p3, t.level),
        level: t.level + 1,
    }
}

/// The child pushed second; its `p1`-`p2` edge is the one the degeneracy
/// check measures.
pub open spec fn child_second(t: TriV) -> TriV {
    TriV {
        p1: pt_child_second(t.p1),
        p2: pt_child_second(t.p2),
        p3: pt_child_second(t.p3),
        level: t.level + 1,
    }
}

/// Rational part of the squared length of the `p1`-`p2` edge, scaled by
/// `6^(2*level)`: for `d = p1 - p2` the squared norm is
/// `(edge_a + edge_b*sqrt(3)) / 6^(2*level)`.
pub open spec fn edge_a(t: TriV) -> int {
    let dxa = t.p1.x.a - t.p2.x.a;
    let dxb = t.p1.x.b - t.p2.x.b;
    let dya = t.p1.y.a - t.p2.y.a;
    let dyb = t.p1.y.b - t.p2.y.b;
    dxa * dxa + 3 * (dxb * dxb) + dya * dya + 3 * (dyb * dyb)
}

/// `sqrt(3)` part of the same squared length.
pub open spec fn edge_b(t: TriV) -> int {
    let dxa = t.p1.x.a - t.p2.x.a;
    let dxb = t.p1.x.b - t.p2.x.b;
    let dya = t.p1.y.a - t.p2.y.a;
    let dyb = t.p1.y.b - t.p2.y.b;
    2 * (dxa * dxb + dya * dyb)
}

/// The Euclidean length of the `p1`-`p2` edge is strictly below `1/1000`:
/// squared, `(edge_a + edge_b*sqrt(3)) / 6^(2*level) < 1/1000000`.
pub open spec fn is_degenerate(t: TriV) -> bool {
    alg_lt(1000000 * edge_a(t), 1000000 * edge_b(t), pow6(2 * t.level))
}

/// Well-formed triangle: level between 1 and `LEVEL_LIMIT`, and every
/// coefficient bounded by `(level + 1) * 6^level / 2`.  The initial triangle
/// meets the bound with equality, and one subdivision step grows it by exactly
/// the factor the level gains, so the bound is preserved forever.
pub open spec fn coord_wf(c: CoordV, k: nat) -> bool {
    2 * vstd::math::abs(c.a) <= (k + 1) * pow6(k) && 2 * vstd::math::abs(c.b) <= (k + 1)
        * pow6(k)
}

pub open spec fn point_wf(p: PointV, k: nat) -> bool {
    coord_wf(p.x, k) && coord_wf(p.y, k)
}

pub open spec fn tri_wf(t: TriV) -> bool {
    1 <= t.level <= LEVEL_LIMIT && point_wf(t.p1, t.level) && point_wf(t.p2, t.level)
        && point_wf(t.p3, t.level)
}

impl Triangle {
    /// Constructs a triangle from its three points at a given level.
    pub fn new(p1: Point, p2: Point, p3: Point, level: u32) -> (t: Triangle)
        ensures
            t@ == (TriV { p1: p1@, p2: p2@, p3: p3@, level: level as nat }),
    {
        Triangle { p1, p2, p3, level }
    }
}

/// The concrete values of the powers of 6 the run-time bounds lean on.
pub proof fn lemma_pow6_literals()
    ensures
        pow6(1) == 6,
        pow6(15) == 470184984576,
        pow6(16) == 2821109907456,
        pow6(17) == 16926659444736,
        pow6(32) == 7958661109946400884391936,
{
    assert(pow6(0) == 1);
    assert(pow6(1) == 6);
    assert(pow6(2) == 36);
    assert(pow6(3) == 216);
    assert(pow6(4) == 1296);
    assert(pow6(5) == 7776);
    assert(pow6(6) == 46656);
    assert(pow6(7) == 279936);
    assert(pow6(8) == 1679616);
    assert(pow6(9) == 10077696);
    assert(pow6(10) == 60466176);
    assert(pow6(11) == 362797056);
    assert(pow6(12) == 2176782336);
    assert(pow6(13) == 13060694016);
    assert(pow6(14) == 78364164096);
    assert(pow6(15) == 470184984576);
    assert(pow6(16) == 2821109907456);
    assert(pow6(17) == 16926659444736);
    assert(pow6(18) == 101559956668416);
    assert(pow6(19) == 609359740010496);
    assert(pow6(20) == 3656158440062976);
    assert(pow6(21) == 21936950640377856);
    assert(pow6(22) == 131621703842267136);
    assert(pow6(23) == 789730223053602816);
    assert(pow6(24) == 4738381338321616896);
    assert(pow6(25) == 28430288029929701376);
    assert(pow6(26) == 170581728179578208256);
    assert(pow6(27) == 1023490369077469249536);
    assert(pow6(28) == 6140942214464815497216);
    assert(pow6(29) == 36845653286788892983296);
    assert(pow6(30) == 221073919720733357899776);
    assert(pow6(31) == 1326443518324400147398656);
    assert(pow6(32) == 7958661109946400884391936);
}

/// A well-formed coefficient is below `17 * 6^16 / 2` in absolute value.
pub proof fn lemma_coord_bound(c: CoordV, k: nat)
    requires
        coord_wf(c, k),
        k <= 16,
    ensures
        -23979434213376 <= c.a <= 23979434213376,
        -23979434213376 <= c.b <= 23979434213376,
{
    lemma_pow6_monotone(k, 16);
    lemma_pow6_literals();
    lemma_pow6_pos(k);
    assert((k + 1) * pow6(k) <= 17 * pow6(16)) by (nonlinear_arith)
        requires
            k + 1 <= 17,
            0 < pow6(k) <= pow6(16),
    ;
}

/// Squares and products of bounded values stay bounded.
pub proof fn lemma_sq_bound(x: int, m: int)
    by (nonlinear_arith)
    requires
        -m <= x <= m,
    ensures
        0 <= x * x <= m * m,
{
}

pub proof fn lemma_mul_bound(x: int, y: int, m: int, n: int)
    by (nonlinear_arith)
    requires
        -m <= x <= m,
        -n <= y <= n,
        0 <= m,
        0 <= n,
    ensures
        -(m * n) <= x * y <= m * n,
{
}

/// `6^k` as a machine integer, for the affine constants of the first child.
pub fn pow6_i64(k: u32) -> (r: i64)
    requires
        k <= 17,
    ensures
        r as int == pow6(k as nat),
{
    proof {
        lemma_pow6_literals();
    }
    let mut r: i64 = 1;
    let mut i: u32 = 0;
    while i < k
        invariant
            i <= k,
            k <= 17,
            r as int == pow6(i as nat),
        decreases k - i,
    {
        proof {
            lemma_pow6_literals();
            lemma_pow6_monotone((i + 1) as nat, 17);
            lemma_pow6_pos(i as nat);
        }
        r = r * 6;
        i = i + 1;
    }
    r
}

/// `6^k` as a wide machine integer, for the scaled threshold comparison.
pub fn pow6_i128(k: u32) -> (r: i128)
    requires
        k <= 32,
    ensures
        r as int == pow6(k as nat),
{
    proof {
        lemma_pow6_literals();
    }
    let mut r: i128 = 1;
    let mut i: u32 = 0;
    while i < k
        invariant
            i <= k,
            k <= 32,
            r as int == pow6(i as nat),
        decreases k - i,
    {
        proof {
            lemma_pow6_literals();
            lemma_pow6_monotone((i + 1) as nat, 32);
            lemma_pow6_pos(i as nat);
        }
        r = r * 6;
        i = i + 1;
    }
    r
}

/// Subdivision preserves well-formedness: the bound grows by exactly the
/// factor gained from the next power of 6.
pub proof fn lemma_children_wf(t: TriV)
    requires
        tri_wf(t),
        t.level < LEVEL_LIMIT,
    ensures
        tri_wf(child_first(t)),
        tri_wf(child_second(t)),
{
    let k = t.level;
    lemma_pow6_pos(k);
    assert forall|p: PointV| point_wf(p, k) implies point_wf(pt_child_first(p, k), k + 1)
        && point_wf(pt_child_second(p), k + 1) by {
        let bound = (k + 1) * pow6(k);
        let p6 = pow6(k);
        assert(pow6(k + 1) == 6 * p6);
        assert(6 * ((k + 1) * p6) + 6 * p6 <= (k + 2) * (6 * p6)) by (nonlinear_arith)
            requires
                p6 >= 1,
        ;
        assert(6 * ((k + 1) * p6) <= (k + 2) * (6 * p6)) by (nonlinear_arith)
            requires
                p6 >= 1,
        ;
    }
}

/// Computes the first child (`conj(alpha)*conj(p) + alpha` on each point).
pub fn make_child_first(t: &Triangle) -> (r: Triangle)
    requires
        tri_wf(t@),
        t@.level < LEVEL_LIMIT,
    ensures
        r@ == child_first(t@),
        tri_wf(r@),
{
    proof {
        lemma_coord_bound(t@.p1.x, t@.level);
        lemma_coord_bound(t@.p1.y, t@.level);
        lemma_coord_bound(t@.p2.x, t@.level);
        lemma_coord_bound(t@.p2.y, t@.level);
        lemma_coord_bound(t@.p3.x, t@.level);
        lemma_coord_bound(t@.p3.y, t@.level);
        lemma_pow6_literals();
        lemma_pow6_monotone(t@.level, 15);
        lemma_pow6_pos(t@.level);
        lemma_children_wf(t@);
    }
    let c = pow6_i64(t.level);
    let r = Triangle {
        p1: first_point(&t.p1, c),
        p2: first_point(&t.p2, c),
        p3: first_point(&t.p3, c),
        level: t.level + 1,
    };
    r
}

/// One point of the first child; `c` must be `6^k` for the parent level `k`.
fn first_point(p: &Point, c: i64) -> (r: Point)
    requires
        1 <= c <= 470184984576,
        -23979434213376 <= p.x.a <= 23979434213376,
        -23979434213376 <= p.x.b <= 23979434213376,
        -23979434213376 <= p.y.a <= 23979434213376,
        -23979434213376 <= p.y.b <= 23979434213376,
    ensures
        r@.x.a == 3 * p@.x.a - 3 * p@.y.b + 3 * c,
        r@.x.b == 3 * p@.x.b - p@.y.a,
        r@.y.a == -3 * p@.x.b - 3 * p@.y.a,
        r@.y.b == -p@.x.a - 3 * p@.y.b + c,
{
    let ya: i64 = 0 - 3 * p.x.b - 3 * p.y.a;
    let yb: i64 = c - p.x.a - 3 * p.y.b;
    Point {
        x: Coord { a: 3 * p.x.a - 3 * p.y.b + 3 * c, b: 3 * p.x.b - p.y.a },
        y: Coord { a: ya, b: yb },
    }
}

/// Computes the second child (`alpha*conj(p)` on each point).
pub fn make_child_second(t: &Triangle) -> (r: Triangle)
    requires
        tri_wf(t@),
        t@.level < LEVEL_LIMIT,
    ensures
        r@ == child_second(t@),
        tri_wf(r@),
{
    proof {
        lemma_coord_bound(t@.p1.x, t@.level);
        lemma_coord_bound(t@.p1.y, t@.level);
        lemma_coord_bound(t@.p2.x, t@.level);
        lemma_coord_bound(t@.p2.y, t@.level);
        lemma_coord_bound(t@.p3.x, t@.level);
        lemma_coord_bound(t@.p3.y, t@.level);
        lemma_children_wf(t@);
    }
    Triangle {
        p1: second_point(&t.p1),
        p2: second_point(&t.p2),
        p3: second_point(&t.p3),
        level: t.level + 1,
    }
}

fn second_point(p: &Point) -> (r: Point)
    requires
        -23979434213376 <= p.x.a <= 23979434213376,
        -23979434213376 <= p.x.b <= 23979434213376,
        -23979434213376 <= p.y.a <= 23979434213376,
        -23979434213376 <= p.y.b <= 23979434213376,
    ensures
        r@ == pt_child_second(p@),
{
    Point {
        x: Coord { a: 3 * p.x.a + 3 * p.y.b, b: 3 * p.x.b + p.y.a },
        y: Coord { a: 3 * p.x.b - 3 * p.y.a, b: p.x.a - 3 * p.y.b },
    }
}

/// Constructs a fresh copy of the initial triangle.
pub fn initial_triangle() -> (t: Triangle)
    ensures
        t@ == spec_initial_triangle(),
        tri_wf(t@),
{
    proof {
        lemma_pow6_literals();
    }
    Triangle {
        p1: Point { x: Coord { a: 0, b: 0 }, y: Coord { a: 0, b: 0 } },
        p2: Point { x: Coord { a: 3, b: 0 }, y: Coord { a: 0, b: 1 } },
        p3: Point { x: Coord { a: 6, b: 0 }, y: Coord { a: 0, b: 0 } },
        level: 1,
    }
}

/// Decides whether a triangle's `p1`-`p2` edge is shorter than `1/1000`,
/// exactly: no rounding, and the comparison is strict.
pub fn degenerate_edge(t: &Triangle) -> (r: bool)
    requires
        tri_wf(t@),
    ensures
        r == is_degenerate(t@),
{
    proof {
        lemma_coord_bound(t@.p1.x, t@.level);
        lemma_coord_bound(t@.p1.y, t@.level);
        lemma_coord_bound(t@.p2.x, t@.level);
        lemma_coord_bound(t@.p2.y, t@.level);
        lemma_pow6_literals();
        lemma_pow6_pos(2 * t@.level);
        lemma_pow6_monotone(2 * t@.level, 32);
    }
    let dxa: i128 = (t.p1.x.a - t.p2.x.a) as i128;
    let dxb: i128 = (t.p1.x.b - t.p2.x.b) as i128;
    let dya: i128 = (t.p1.y.a - t.p2.y.a) as i128;
    let dyb: i128 = (t.p1.y.b - t.p2.y.b) as i128;
    proof {
        lemma_sq_bound(dxa as int, 47958868426752);
        lemma_sq_bound(dxb as int, 47958868426752);
        lemma_sq_bound(dya as int, 47958868426752);
        lemma_sq_bound(dyb as int, 47958868426752);
        lemma_mul_bound(dxa as int, dxb as int, 47958868426752, 47958868426752);
        lemma_mul_bound(dya as int, dyb as int, 47958868426752, 47958868426752);
    }
    let ea: i128 = dxa * dxa + 3 * (dxb * dxb) + dya * dya + 3 * (dyb * dyb);
    let eb: i128 = 2 * (dxa * dxb + dya * dyb);
    let sa: i128 = 1000000 * ea;
    let sb: i128 = 1000000 * eb;
    let c: i128 = pow6_i128(2 * t.level);
    alg_lt_exec(sa, sb, c)
}

/// Both subdivision maps scale the squared `p1`-`p2` edge by `|alpha|^2 = 1/3`:
/// on coefficients, `edge_a` and `edge_b` gain a factor 12 while the squared
/// denominator gains a factor 36.
pub proof fn lemma_child_edge_scale(t: TriV)
    ensures
        edge_a(child_first(t)) == 12 * edge_a(t),
        edge_b(child_first(t)) == 12 * edge_b(t),
        edge_a(child_second(t)) == 12 * edge_a(t),
        edge_b(child_second(t)) == 12 * edge_b(t),
        child_first(t).level == t.level + 1,
        child_second(t).level == t.level + 1,
{
    let a = t.p1.x.a - t.p2.x.a;
    let b = t.p1.x.b - t.p2.x.b;
    let c = t.p1.y.a - t.p2.y.a;
    let w = t.p1.y.b - t.p2.y.b;
    assert((3 * a + 3 * w) * (3 * a + 3 * w) + 3 * ((3 * b + c) * (3 * b + c)) + (3 * b - 3 * c)
        * (3 * b - 3 * c) + 3 * ((a - 3 * w) * (a - 3 * w)) == 12 * (a * a + 3 * (b * b) + c * c
        + 3 * (w * w))) by (nonlinear_arith);
    assert(2 * ((3 * a + 3 * w) * (3 * b + c) + (3 * b - 3 * c) * (a - 3 * w)) == 12 * (2 * (a * b
        + c * w))) by (nonlinear_arith);
    assert((3 * a - 3 * w) * (3 * a - 3 * w) + 3 * ((3 * b - c) * (3 * b - c)) + (-3 * b - 3 * c)
        * (-3 * b - 3 * c) + 3 * ((-a - 3 * w) * (-a - 3 * w)) == 12 * (a * a + 3 * (b * b) + c
        * c + 3 * (w * w))) by (nonlinear_arith);
    assert(2 * ((3 * a - 3 * w) * (3 * b - c) + (-3 * b - 3 * c) * (-a - 3 * w)) == 12 * (2 * (a
        * b + c * w))) by (nonlinear_arith);
}

/// The initial triangle's measured edge: squared length `12/36 = 1/3`, with no
/// `sqrt(3)` part, at level 1.
pub proof fn lemma_initial_edge()
    ensures
        edge_a(spec_initial_triangle()) == 12,
        edge_b(spec_initial_triangle()) == 0,
        spec_initial_triangle().level == 1,
        tri_wf(spec_initial_triangle()),
{
    lemma_pow6_literals();
    let t = spec_initial_triangle();
    assert(t.p1.x.a - t.p2.x.a == -3);
    assert(t.p1.x.b - t.p2.x.b == 0);
    assert(t.p1.y.a - t.p2.y.a == 0);
    assert(t.p1.y.b - t.p2.y.b == -1);
    assert((-3) * (-3) + 3 * (0 * 0) + 0 * 0 + 3 * ((-1) * (-1)) == 12) by (nonlinear_arith);
    assert(2 * ((-3) * 0 + 0 * (-1)) == 0) by (nonlinear_arith);
}

/// With no `sqrt(3)` part, degeneracy is the plain strict comparison of the
/// scaled squared length against the threshold.
pub proof fn lemma_degenerate_rational(t: TriV)
    requires
        edge_b(t) == 0,
    ensures
        is_degenerate(t) <==> 1000000 * edge_a(t) < pow6(2 * t.level),
{
    crate::algebra::lemma_alg_lt_rational(1000000 * edge_a(t), pow6(2 * t.level));
}

/// The degeneracy check is strict: an edge whose squared length sits exactly
/// on the threshold does not trigger a reset.
pub proof fn lemma_threshold_boundary(t: TriV)
    requires
        edge_b(t) == 0,
        1000000 * edge_a(t) == pow6(2 * t.level),
    ensures
        !is_degenerate(t),
{
    lemma_degenerate_rational(t);
}

} // verus!
