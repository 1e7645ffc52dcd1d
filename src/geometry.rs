//! Fixed-point geometry: points on an integer grid, and the face centroid,
//! raised face centre and edge-regularity test that the operators use.
use vstd::arithmetic::div_mod::{lemma_div_by_multiple, lemma_div_is_ordered, lemma_div_is_ordered_by_denominator};
use vstd::prelude::*;

verus! {

/// Largest magnitude of a coordinate (2^40 grid steps).
pub const COORD_MAX: i64 = 1099511627776;

/// Operator parameters (ratio, height) are given in thousandths: `UNIT` is 1.0.
pub const UNIT: i64 = 1000;

/// Two edge lengths count as equal when their squares differ by at most
/// this many thousandths of the first edge's square.
pub const REGULAR_TOLERANCE: i64 = 1;

/// A vertex position on the integer grid.
#[derive(Clone, Copy, Debug, PartialEq, Eq, Structural)]
pub struct Point {
    pub x: i64,
    pub y: i64,
    pub z: i64,
}

impl Point {
    pub open spec fn bounded(self) -> bool {
        &&& -COORD_MAX <= self.x <= COORD_MAX
        &&& -COORD_MAX <= self.y <= COORD_MAX
        &&& -COORD_MAX <= self.z <= COORD_MAX
    }

    /// Coordinate along `axis` (0, 1 or 2).
    pub open spec fn coord(self, axis: int) -> int {
        if axis == 0 {
            self.x as int
        } else if axis == 1 {
            self.y as int
        } else {
            self.z as int
        }
    }
}

pub open spec fn make_point(x: int, y: int, z: int) -> Point {
    Point { x: x as i64, y: y as i64, z: z as i64 }
}

/// Integer division that rounds toward zero.
pub open spec fn div_toward_zero(a: int, b: int) -> int {
    if a >= 0 {
        a / b
    } else {
        -((-a) / b)
    }
}

pub open spec fn clamp_coord(v: int) -> int {
    if v > COORD_MAX {
        COORD_MAX as int
    } else if v < -COORD_MAX {
        -COORD_MAX
    } else {
        v
    }
}

pub open spec fn abs(v: int) -> int {
    if v < 0 {
        -v
    } else {
        v
    }
}

/// Midpoint of two points, rounded toward zero.
pub open spec fn midpoint(a: Point, b: Point) -> Point {
    make_point(
        div_toward_zero(a.x + b.x, 2),
        div_toward_zero(a.y + b.y, 2),
        div_toward_zero(a.z + b.z, 2),
    )
}

/// Sum of the coordinates along `axis` of the first `k` vertices of face `f`.
pub open spec fn coord_sum(pts: Seq<Point>, f: Seq<usize>, axis: int, k: int) -> int
    decreases k,
{
    if k <= 0 {
        0
    } else {
        coord_sum(pts, f, axis, k - 1) + pts[f[k - 1] as int].coord(axis)
    }
}

/// Arithmetic mean of the face's vertex positions along `axis`.
pub open spec fn centroid_coord(pts: Seq<Point>, f: Seq<usize>, axis: int) -> int {
    div_toward_zero(coord_sum(pts, f, axis, f.len() as int), f.len() as int)
}

/// Vector from the centroid to the face's `j`-th vertex, along `axis`.
pub open spec fn spoke(pts: Seq<Point>, f: Seq<usize>, j: int, axis: int) -> int {
    pts[f[j] as int].coord(axis) - centroid_coord(pts, f, axis)
}

/// Cross product of the spokes to the first two vertices: a normal that
/// follows the face's winding.
pub open spec fn normal_coord(pts: Seq<Point>, f: Seq<usize>, axis: int) -> int {
    let a1 = (axis + 1) % 3;
    let a2 = (axis + 2) % 3;
    spoke(pts, f, 0, a1) * spoke(pts, f, 1, a2) - spoke(pts, f, 0, a2) * spoke(pts, f, 1, a1)
}

/// Size of the face used to scale the normal back to a length: the
/// taxicab length of the first spoke (at least 1).
pub open spec fn face_scale(pts: Seq<Point>, f: Seq<usize>) -> int {
    let s = abs(spoke(pts, f, 0, 0)) + abs(spoke(pts, f, 0, 1)) + abs(spoke(pts, f, 0, 2));
    if s < 1 {
        1
    } else {
        s
    }
}

/// Centroid of the face moved along its normal by `t` thousandths of the
/// face's size, clamped into the grid.
pub open spec fn raised_coord(pts: Seq<Point>, f: Seq<usize>, t: int, axis: int) -> int {
    clamp_coord(
        centroid_coord(pts, f, axis) + div_toward_zero(
            normal_coord(pts, f, axis) * t,
            UNIT * face_scale(pts, f),
        ),
    )
}

pub open spec fn raised_point(pts: Seq<Point>, f: Seq<usize>, t: int) -> Point {
    make_point(raised_coord(pts, f, t, 0), raised_coord(pts, f, t, 1), raised_coord(pts, f, t, 2))
}

/// Squared distance between two points.
pub open spec fn dist_sq(a: Point, b: Point) -> int {
    (a.x - b.x) * (a.x - b.x) + (a.y - b.y) * (a.y - b.y) + (a.z - b.z) * (a.z - b.z)
}

/// Squared length of the face's `i`-th edge (from vertex `i` to the next).
pub open spec fn edge_sq(pts: Seq<Point>, f: Seq<usize>, i: int) -> int {
    dist_sq(pts[f[i] as int], pts[f[(i + 1) % (f.len() as int)] as int])
}

/// All edges of the face have the same length, within `REGULAR_TOLERANCE`.
pub open spec fn is_regular(pts: Seq<Point>, f: Seq<usize>) -> bool {
    forall|i: int|
        0 <= i < f.len() ==> UNIT * abs(#[trigger] edge_sq(pts, f, i) - edge_sq(pts, f, 0))
            <= REGULAR_TOLERANCE * edge_sq(pts, f, 0)
}

/// The face's vertices index into `pts`, and all of those points are bounded.
pub open spec fn face_in(pts: Seq<Point>, f: Seq<usize>) -> bool {
    &&& f.len() >= 3
    &&& forall|j: int| 0 <= j < f.len() ==> (#[trigger] f[j]) < pts.len()
    &&& forall|j: int| 0 <= j < pts.len() ==> (#[trigger] pts[j]).bounded()
}

fn div_tz(a: i128, b: i128) -> (r: i128)
    requires
        b > 0,
        a > i128::MIN,
    ensures
        r == div_toward_zero(a as int, b as int),
        abs(r as int) <= abs(a as int),
{
    proof {
        let m = abs(a as int);
        lemma_div_is_ordered_by_denominator(m, 1, b as int);
    }
    if a >= 0 {
        a / b
    } else {
        -((-a) / b)
    }
}

fn clamp_i128(v: i128) -> (r: i64)
    ensures
        r == clamp_coord(v as int),
{
    if v > COORD_MAX as i128 {
        COORD_MAX
    } else if v < -(COORD_MAX as i128) {
        -COORD_MAX
    } else {
        v as i64
    }
}

pub fn coord_of(p: &Point, axis: usize) -> (r: i64)
    requires
        axis < 3,
    ensures
        r == p.coord(axis as int),
{
    if axis == 0 {
        p.x
    } else if axis == 1 {
        p.y
    } else {
        p.z
    }
}

/// Midpoint of two bounded points.
pub fn midpoint_of(a: &Point, b: &Point) -> (r: Point)
    requires
        a.bounded(),
        b.bounded(),
    ensures
        r == midpoint(*a, *b),
        r.bounded(),
{
    let x = div_tz(a.x as i128 + b.x as i128, 2);
    let y = div_tz(a.y as i128 + b.y as i128, 2);
    let z = div_tz(a.z as i128 + b.z as i128, 2);
    Point { x: x as i64, y: y as i64, z: z as i64 }
}

/// Centroid of face `f` along `axis`.
pub fn centroid_along(pts: &Vec<Point>, f: &Vec<usize>, axis: usize) -> (r: i128)
    requires
        face_in(pts@, f@),
        axis < 3,
    ensures
        r == centroid_coord(pts@, f@, axis as int),
        -COORD_MAX <= r <= COORD_MAX,
{
    let n = f.len();
    let mut sum: i128 = 0;
    let mut k: usize = 0;
    while k < n
        invariant
            face_in(pts@, f@),
            axis < 3,
            n == f@.len(),
            k <= n,
            sum == coord_sum(pts@, f@, axis as int, k as int),
            -(k as int) * COORD_MAX <= sum <= (k as int) * COORD_MAX,
        decreases n - k,
    {
        let p = pts[f[k]];
        assert(pts@[f@[k as int] as int].bounded());
        sum = sum + coord_of(&p, axis) as i128;
        k = k + 1;
    }
    proof {
        let m = COORD_MAX as int;
        let s = abs(sum as int);
        let ni = n as int;
        assert(s <= ni * m);
        lemma_div_is_ordered(s, ni * m, ni);
        assert(ni * m == m * ni) by (nonlinear_arith);
        lemma_div_by_multiple(m, ni);
    }
    div_tz(sum, n as i128)
}

proof fn lemma_product_bound(a: int, b: int, m: int)
    requires
        0 <= m,
        abs(a) <= m,
        abs(b) <= m,
    ensures
        abs(a * b) <= m * m,
{
    let aa = abs(a);
    let bb = abs(b);
    assert(aa * bb <= m * m) by (nonlinear_arith)
        requires
            0 <= aa <= m,
            0 <= bb <= m,
    ;
    assert(abs(a * b) == aa * bb) by (nonlinear_arith)
        requires
            aa == abs(a),
            bb == abs(b),
    ;
}

fn raise_one(c: i128, n: i128, t: i64, scale: i128) -> (r: i64)
    requires
        -COORD_MAX <= c <= COORD_MAX,
        abs(n as int) <= 2 * 4835703278458516698824704,
        0 <= t <= UNIT,
        1 <= scale <= 6 * COORD_MAX,
    ensures
        r == clamp_coord(c + div_toward_zero(n * t, UNIT * scale)),
{
    let ghost nn = n as int;
    let ghost tt = t as int;
    assert(abs(nn * tt) <= abs(nn) * 1000) by (nonlinear_arith)
        requires
            0 <= tt <= 1000,
    ;
    let q = div_tz(n * (t as i128), (UNIT as i128) * scale);
    clamp_i128(c + q)
}

/// Centroid of face `f` raised along its normal by `t` thousandths of the
/// face's size.
pub fn raised_point_of(pts: &Vec<Point>, f: &Vec<usize>, t: i64) -> (r: Point)
    requires
        face_in(pts@, f@),
        0 <= t <= UNIT,
    ensures
        r == raised_point(pts@, f@, t as int),
        r.bounded(),
{
    let c0 = centroid_along(pts, f, 0);
    let c1 = centroid_along(pts, f, 1);
    let c2 = centroid_along(pts, f, 2);
    let p0 = pts[f[0]];
    let p1 = pts[f[1]];
    assert(pts@[f@[0] as int].bounded() && pts@[f@[1] as int].bounded());
    let d0 = p0.x as i128 - c0;
    let d1 = p0.y as i128 - c1;
    let d2 = p0.z as i128 - c2;
    let e0 = p1.x as i128 - c0;
    let e1 = p1.y as i128 - c1;
    let e2 = p1.z as i128 - c2;
    proof {
        let m2 = 2 * COORD_MAX as int;
        assert(m2 * m2 == 4835703278458516698824704) by (nonlinear_arith)
            requires
                m2 == 2199023255552,
        ;
        lemma_product_bound(d0 as int, e1 as int, m2);
        lemma_product_bound(d0 as int, e2 as int, m2);
        lemma_product_bound(d1 as int, e0 as int, m2);
        lemma_product_bound(d1 as int, e2 as int, m2);
        lemma_product_bound(d2 as int, e0 as int, m2);
        lemma_product_bound(d2 as int, e1 as int, m2);
    }
    let n0 = d1 * e2 - d2 * e1;
    let n1 = d2 * e0 - d0 * e2;
    let n2 = d0 * e1 - d1 * e0;
    assert(n0 == normal_coord(pts@, f@, 0));
    assert(n1 == normal_coord(pts@, f@, 1));
    assert(n2 == normal_coord(pts@, f@, 2));
    let ad: i128 = if d0 < 0 { -d0 } else { d0 };
    let bd: i128 = if d1 < 0 { -d1 } else { d1 };
    let cd: i128 = if d2 < 0 { -d2 } else { d2 };
    let s0 = ad + bd + cd;
    let scale: i128 = if s0 < 1 { 1 } else { s0 };
    assert(scale == face_scale(pts@, f@));
    let x = raise_one(c0, n0, t, scale);
    let y = raise_one(c1, n1, t, scale);
    let z = raise_one(c2, n2, t, scale);
    Point { x, y, z }
}

fn dist_sq_of(a: &Point, b: &Point) -> (r: i128)
    requires
        a.bounded(),
        b.bounded(),
    ensures
        r == dist_sq(*a, *b),
        0 <= r <= 14507109835375550096474112,
{
    let dx = a.x as i128 - b.x as i128;
    let dy = a.y as i128 - b.y as i128;
    let dz = a.z as i128 - b.z as i128;
    let m2 = 2 * COORD_MAX as i128;
    proof {
        lemma_product_bound(dx as int, dx as int, m2 as int);
        lemma_product_bound(dy as int, dy as int, m2 as int);
        lemma_product_bound(dz as int, dz as int, m2 as int);
        assert(0 <= dx * dx && 0 <= dy * dy && 0 <= dz * dz) by (nonlinear_arith);
        let mm = m2 as int;
        assert(mm * mm == 4835703278458516698824704) by (nonlinear_arith)
            requires
                mm == 2199023255552,
        ;
    }
    dx * dx + dy * dy + dz * dz
}

/// Whether every edge of face `f` has the length of its first edge, within
/// `REGULAR_TOLERANCE`.
pub fn face_is_regular(pts: &Vec<Point>, f: &Vec<usize>) -> (r: bool)
    requires
        face_in(pts@, f@),
    ensures
        r == is_regular(pts@, f@),
{
    let n = f.len();
    let one: usize = 1 % n;
    assert(pts@[f@[0] as int].bounded() && pts@[f@[one as int] as int].bounded());
    let first = dist_sq_of(&pts[f[0]], &pts[f[one]]);
    let mut i: usize = 0;
    while i < n
        invariant
            face_in(pts@, f@),
            n == f@.len(),
            i <= n,
            first == edge_sq(pts@, f@, 0),
            0 <= first <= 14507109835375550096474112,
            forall|j: int|
                0 <= j < i ==> UNIT * abs(#[trigger] edge_sq(pts@, f@, j) - edge_sq(pts@, f@, 0))
                    <= REGULAR_TOLERANCE * edge_sq(pts@, f@, 0),
        decreases n - i,
    {
        let j = (i + 1) % n;
        assert(pts@[f@[i as int] as int].bounded() && pts@[f@[j as int] as int].bounded());
        let cur = dist_sq_of(&pts[f[i]], &pts[f[j]]);
        let diff: i128 = if cur >= first { cur - first } else { first - cur };
        assert(0 <= diff <= 14507109835375550096474112);
        if (UNIT as i128) * diff > (REGULAR_TOLERANCE as i128) * first {
            assert(UNIT * abs(edge_sq(pts@, f@, i as int) - edge_sq(pts@, f@, 0))
                > REGULAR_TOLERANCE * edge_sq(pts@, f@, 0));
            return false;
        }
        i = i + 1;
    }
    true
}

} // verus!
