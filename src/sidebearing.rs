//! Polygon area and the proportional white-space model for sidebearings.
use vstd::prelude::*;
use crate::arith::{ceil_div, ceil_div_exec};

verus! {

/// Largest magnitude of a polygon coordinate.
pub const POLY_COORD_LIMIT: i64 = 16777216;

/// Largest number of polygon vertices.
pub const MAX_POLYGON_LEN: usize = 16777216;

/// Largest twice-area that the sidebearing model takes.
pub const MAX_TWICE_AREA: i128 = 1208925819614629174706176;

/// Bound on the magnitude of a sidebearing value.
pub const SIDEBEARING_LIMIT: i128 = 5316911983139663491615228241121378304;

/// Largest area parameter, category factor (in percent) and units per em.
pub const PARAM_LIMIT: i64 = 65536;

/// Largest magnitude of a vertical bound or of the x-height.
pub const ZONE_LIMIT: i64 = 1048576;

/// A vertex of a spacing polygon.
#[derive(Clone, Copy, Debug, PartialEq, Eq, Structural)]
pub struct PolyPoint {
    pub x: i64,
    pub y: i64,
}

pub open spec fn cross(a: PolyPoint, b: PolyPoint) -> int {
    a.x * b.y - b.x * a.y
}

/// The shoelace sum over the first `k` edges of the closed polygon `pts`.
pub open spec fn shoelace_upto(pts: Seq<PolyPoint>, k: int) -> int
    decreases k,
{
    if k <= 0 {
        0
    } else {
        shoelace_upto(pts, k - 1) + cross(pts[k - 1], pts[k % (pts.len() as int)])
    }
}

/// Twice the signed area of the closed polygon `pts`.
pub open spec fn shoelace(pts: Seq<PolyPoint>) -> int {
    shoelace_upto(pts, pts.len() as int)
}

/// Twice the area of the closed polygon `pts`, whatever its winding.
pub open spec fn twice_area_of(pts: Seq<PolyPoint>) -> int {
    let s = shoelace(pts);
    if s < 0 {
        -s
    } else {
        s
    }
}

pub open spec fn polygon_in_range(pts: Seq<PolyPoint>) -> bool {
    &&& pts.len() <= MAX_POLYGON_LEN
    &&& forall|i: int|
        0 <= i < pts.len() ==> -POLY_COORD_LIMIT <= #[trigger] pts[i].x <= POLY_COORD_LIMIT
            && -POLY_COORD_LIMIT <= pts[i].y <= POLY_COORD_LIMIT
}

proof fn lemma_cross_bound(a: PolyPoint, b: PolyPoint)
    requires
        -POLY_COORD_LIMIT <= a.x <= POLY_COORD_LIMIT,
        -POLY_COORD_LIMIT <= a.y <= POLY_COORD_LIMIT,
        -POLY_COORD_LIMIT <= b.x <= POLY_COORD_LIMIT,
        -POLY_COORD_LIMIT <= b.y <= POLY_COORD_LIMIT,
    ensures
        -POLY_COORD_LIMIT * POLY_COORD_LIMIT <= a.x * b.y <= POLY_COORD_LIMIT * POLY_COORD_LIMIT,
        -POLY_COORD_LIMIT * POLY_COORD_LIMIT <= b.x * a.y <= POLY_COORD_LIMIT * POLY_COORD_LIMIT,
        -2 * POLY_COORD_LIMIT * POLY_COORD_LIMIT <= cross(a, b) <= 2 * POLY_COORD_LIMIT
            * POLY_COORD_LIMIT,
{
    let l = POLY_COORD_LIMIT as int;
    assert(-l * l <= a.x * b.y <= l * l) by (nonlinear_arith)
        requires
            -l <= a.x <= l,
            -l <= b.y <= l,
    ;
    assert(-l * l <= b.x * a.y <= l * l) by (nonlinear_arith)
        requires
            -l <= b.x <= l,
            -l <= a.y <= l,
    ;
}

/// Twice the area of a closed polygon by the shoelace formula; never negative.
pub fn twice_area(points: &Vec<PolyPoint>) -> (r: i128)
    requires
        polygon_in_range(points@),
    ensures
        r == twice_area_of(points@),
        0 <= r <= MAX_TWICE_AREA,
{
    let n = points.len();
    let ghost b: int = 2 * POLY_COORD_LIMIT * POLY_COORD_LIMIT;
    let mut sum: i128 = 0;
    let mut i: usize = 0;
    while i < n
        invariant
            n == points@.len(),
            polygon_in_range(points@),
            i <= n,
            sum == shoelace_upto(points@, i as int),
            -(i * b) <= sum <= i * b,
            b == 2 * POLY_COORD_LIMIT * POLY_COORD_LIMIT,
        decreases n - i,
    {
        let a = points[i];
        let j: usize = if i + 1 == n {
            0
        } else {
            i + 1
        };
        let c = points[j];
        proof {
            if i + 1 < n {
                vstd::arithmetic::div_mod::lemma_small_mod((i + 1) as nat, n as nat);
            } else {
                vstd::arithmetic::div_mod::lemma_mod_self_0(n as int);
            }
            assert(((i + 1) as int) % (n as int) == j);
            assert(a == points@[i as int]);
            assert(c == points@[j as int]);
            assert(-POLY_COORD_LIMIT <= points@[i as int].x <= POLY_COORD_LIMIT);
            assert(-POLY_COORD_LIMIT <= points@[j as int].x <= POLY_COORD_LIMIT);
            lemma_cross_bound(a, c);
            assert(i * b + b == (i + 1) * b) by (nonlinear_arith);
            assert((i + 1) * b <= MAX_POLYGON_LEN * b) by (nonlinear_arith)
                requires
                    i + 1 <= MAX_POLYGON_LEN,
                    b >= 0,
            ;
        }
        let t: i128 = a.x as i128 * c.y as i128 - c.x as i128 * a.y as i128;
        sum = sum + t;
        i = i + 1;
    }
    proof {
        assert(n * b <= MAX_POLYGON_LEN * b) by (nonlinear_arith)
            requires
                n <= MAX_POLYGON_LEN,
                b >= 0,
        ;
    }
    if sum < 0 {
        -sum
    } else {
        sum
    }
}

/// Numerator of the sidebearing value: the proportional white area
/// `area * factor/100 * (upm/1000)^2 * 100 / xheight` per unit of height,
/// less the polygon's area divided by the zone's height, over
/// `sidebearing_den`.
pub open spec fn sidebearing_num(
    factor_pct: int,
    lower: int,
    upper: int,
    param_area: int,
    twice_area: int,
    units_per_em: int,
    xheight: int,
) -> int {
    2 * (upper - lower) * param_area * factor_pct * units_per_em * units_per_em - 1000000 * xheight
        * twice_area
}

pub open spec fn sidebearing_den(lower: int, upper: int, xheight: int) -> int {
    2000000 * xheight * (upper - lower)
}

pub open spec fn sidebearing_inputs_ok(
    factor_pct: i64,
    lower: i64,
    upper: i64,
    param_area: i64,
    twice_area: i128,
    units_per_em: i64,
    xheight: i64,
) -> bool {
    &&& 0 <= factor_pct <= PARAM_LIMIT
    &&& 0 <= param_area <= PARAM_LIMIT
    &&& 1 <= units_per_em <= PARAM_LIMIT
    &&& 1 <= xheight <= ZONE_LIMIT
    &&& -ZONE_LIMIT <= lower < upper <= ZONE_LIMIT
    &&& 0 <= twice_area <= MAX_TWICE_AREA
}

/// The sidebearing change, rounded up, that brings the white area of a side
/// to its target: `target = (upper - lower) * white / xheight` with
/// `white = param_area * factor_pct/100 * (units_per_em/1000)^2 * 100`, and
/// the result is `(target - twice_area/2) / (upper - lower)`.
pub fn sidebearing_value(
    factor_pct: i64,
    lower: i64,
    upper: i64,
    param_area: i64,
    twice_area: i128,
    units_per_em: i64,
    xheight: i64,
) -> (r: i128)
    requires
        sidebearing_inputs_ok(
            factor_pct,
            lower,
            upper,
            param_area,
            twice_area,
            units_per_em,
            xheight,
        ),
    ensures
        r == ceil_div(
            sidebearing_num(
                factor_pct as int,
                lower as int,
                upper as int,
                param_area as int,
                twice_area as int,
                units_per_em as int,
                xheight as int,
            ),
            sidebearing_den(lower as int, upper as int, xheight as int),
        ),
        -SIDEBEARING_LIMIT <= r <= SIDEBEARING_LIMIT,
{
    let amp: i128 = upper as i128 - lower as i128;
    let l: i128 = PARAM_LIMIT as i128;
    proof {
        let (f, pa, u) = (factor_pct as int, param_area as int, units_per_em as int);
        assert(0 <= pa * f <= l * l) by (nonlinear_arith)
            requires
                0 <= pa <= l,
                0 <= f <= l,
        ;
        assert(0 <= pa * f * u <= l * l * l) by (nonlinear_arith)
            requires
                0 <= pa * f <= l * l,
                1 <= u <= l,
        ;
        assert(0 <= pa * f * u * u <= l * l * l * l) by (nonlinear_arith)
            requires
                0 <= pa * f * u <= l * l * l,
                1 <= u <= l,
        ;
        assert(0 <= 2 * amp * (pa * f * u * u) <= 4 * ZONE_LIMIT * (l * l * l * l)) by (
        nonlinear_arith)
            requires
                0 <= pa * f * u * u <= l * l * l * l,
                1 <= amp <= 2 * ZONE_LIMIT,
        ;
        assert(0 <= 1000000 * xheight * twice_area <= 1000000 * ZONE_LIMIT * MAX_TWICE_AREA) by (
        nonlinear_arith)
            requires
                1 <= xheight <= ZONE_LIMIT,
                0 <= twice_area <= MAX_TWICE_AREA,
        ;
        assert(0 < 2000000 * xheight * amp <= 4000000 * ZONE_LIMIT * ZONE_LIMIT) by (
        nonlinear_arith)
            requires
                1 <= xheight <= ZONE_LIMIT,
                1 <= amp <= 2 * ZONE_LIMIT,
        ;
    }
    let white: i128 = param_area as i128 * factor_pct as i128 * units_per_em as i128
        * units_per_em as i128;
    let num: i128 = 2 * amp * white - 1000000 * (xheight as i128) * twice_area;
    let den: i128 = 2000000 * (xheight as i128) * amp;
    proof {
        assert(num == sidebearing_num(
            factor_pct as int,
            lower as int,
            upper as int,
            param_area as int,
            twice_area as int,
            units_per_em as int,
            xheight as int,
        )) by (nonlinear_arith)
            requires
                num == 2 * amp * white - 1000000 * (xheight as i128) * twice_area,
                white == param_area * factor_pct * units_per_em * units_per_em,
                amp == upper - lower,
        ;
    }
    let r = ceil_div_exec(num, den);
    proof {
        let n = num as int;
        let d = den as int;
        let q = (-n) / d;
        vstd::arithmetic::div_mod::lemma_fundamental_div_mod(-n, d);
        assert(-n < d * (q + 1) && d * q <= -n) by (nonlinear_arith)
            requires
                -n == d * q + ((-n) % d),
                0 <= (-n) % d < d,
                d >= 1,
        ;
        assert(-SIDEBEARING_LIMIT <= q <= SIDEBEARING_LIMIT) by (nonlinear_arith)
            requires
                -n < d * (q + 1),
                d * q <= -n,
                d >= 1,
                -SIDEBEARING_LIMIT + 1 <= n <= SIDEBEARING_LIMIT - 1,
        ;
    }
    r
}

/// The area of a polygon is never negative, whatever its winding.
pub proof fn lemma_area_non_negative(pts: Seq<PolyPoint>)
    ensures
        twice_area_of(pts) >= 0,
{
}

} // verus!
