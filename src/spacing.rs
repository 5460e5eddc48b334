//! Spacing polygons: per-scanline outline extremes, deskewed, depth-capped
//! and smoothed, closed at the reference zone's bounds.
use vstd::prelude::*;
use crate::arith::{ceil_div, floor_div};
use crate::sidebearing::{
    PolyPoint, POLY_COORD_LIMIT, PARAM_LIMIT, polygon_in_range, twice_area, twice_area_of,
    sidebearing_value, sidebearing_num, sidebearing_den,
};
use crate::smoothing::{
    smooth_left, smooth_right, admissible_below, admissible_above, below, above, SAMPLE_LIMIT,
};

verus! {

/// Largest magnitude of a scanline height, a hit, a bound or the x-height.
pub const COORD_LIMIT: i64 = 1048576;

/// Largest number of scanlines.
pub const MAX_SCANLINES: usize = 4194304;

/// The parameters of the polygon construction.
#[derive(Clone, Copy, Debug, PartialEq, Eq, Structural)]
pub struct SpacingParams {
    /// Lower bound of the reference zone.
    pub lower: i64,
    /// Upper bound of the reference zone.
    pub upper: i64,
    pub xheight: i64,
    /// Slant of the italic angle as the ratio `slant_num / slant_den`
    /// (the angle's tangent); zero for upright glyphs.
    pub slant_num: i64,
    pub slant_den: i64,
    /// Distance between scanlines.
    pub scan_step: i64,
    /// Depth cut in percent of the x-height.
    pub depth_cut: i64,
}

pub open spec fn params_ok(p: SpacingParams) -> bool {
    &&& -COORD_LIMIT <= p.lower <= p.upper <= COORD_LIMIT
    &&& 0 <= p.xheight <= COORD_LIMIT
    &&& 1 <= p.slant_den <= COORD_LIMIT
    &&& -p.slant_den <= p.slant_num <= p.slant_den
    &&& 1 <= p.scan_step <= COORD_LIMIT
    &&& 0 <= p.depth_cut <= 100
}

/// Scanline heights and, for each, the x-coordinates where it meets the
/// outline, all within the coordinate limit.
pub open spec fn scan_ok(ys: Seq<i64>, hits: Seq<Vec<i64>>) -> bool {
    &&& ys.len() == hits.len()
    &&& ys.len() <= MAX_SCANLINES
    &&& forall|i: int| 0 <= i < ys.len() ==> -COORD_LIMIT <= #[trigger] ys[i] <= COORD_LIMIT
    &&& forall|i: int, j: int|
        0 <= i < hits.len() && 0 <= j < hits[i]@.len() ==> -COORD_LIMIT <= #[trigger] hits[i]@[j]
            <= COORD_LIMIT
}

pub open spec fn in_zone(y: int, p: SpacingParams) -> bool {
    p.lower <= y <= p.upper
}

/// The italic shear at height `y`, pivoting at half the x-height, rounded
/// to the nearest unit: `(y - xheight/2) * slant`.
pub open spec fn skew_offset(y: int, p: SpacingParams) -> int {
    ((2 * y - p.xheight) * p.slant_num + p.slant_den) / (2 * p.slant_den)
}

pub open spec fn deskew(x: int, y: int, p: SpacingParams) -> int {
    x - skew_offset(y, p)
}

pub open spec fn seq_min(s: Seq<i64>) -> int
    decreases s.len(),
{
    if s.len() <= 1 {
        if s.len() == 1 { s[0] as int } else { 0 }
    } else {
        let m = seq_min(s.drop_last());
        if s.last() < m { s.last() as int } else { m }
    }
}

pub open spec fn seq_max(s: Seq<i64>) -> int
    decreases s.len(),
{
    if s.len() <= 1 {
        if s.len() == 1 { s[0] as int } else { 0 }
    } else {
        let m = seq_max(s.drop_last());
        if s.last() > m { s.last() as int } else { m }
    }
}

/// The deskewed leftmost hit of scanline `i`.
pub open spec fn left_at(ys: Seq<i64>, hits: Seq<Vec<i64>>, p: SpacingParams, i: int) -> int {
    deskew(seq_min(hits[i]@), ys[i] as int, p)
}

/// The deskewed rightmost hit of scanline `i`.
pub open spec fn right_at(ys: Seq<i64>, hits: Seq<Vec<i64>>, p: SpacingParams, i: int) -> int {
    deskew(seq_max(hits[i]@), ys[i] as int, p)
}

/// Scanline `i` meets the outline (and, when `zone_only`, lies in the zone).
pub open spec fn counts(
    ys: Seq<i64>,
    hits: Seq<Vec<i64>>,
    p: SpacingParams,
    i: int,
    zone_only: bool,
) -> bool {
    hits[i]@.len() > 0 && (!zone_only || in_zone(ys[i] as int, p))
}

/// `v` is the smallest deskewed leftmost hit among the first `n` scanlines
/// that count, or `None` when none counts.
pub open spec fn is_left_extreme(
    v: Option<i64>,
    ys: Seq<i64>,
    hits: Seq<Vec<i64>>,
    p: SpacingParams,
    n: int,
    zone_only: bool,
) -> bool {
    match v {
        None => forall|j: int| 0 <= j < n ==> !#[trigger] counts(ys, hits, p, j, zone_only),
        Some(x) => (forall|j: int|
            0 <= j < n && #[trigger] counts(ys, hits, p, j, zone_only) ==> x <= left_at(
                ys,
                hits,
                p,
                j,
            )) && exists|j: int|
            0 <= j < n && #[trigger] counts(ys, hits, p, j, zone_only) && x == left_at(
                ys,
                hits,
                p,
                j,
            ),
    }
}

/// `v` is the largest deskewed rightmost hit among the first `n` scanlines
/// that count, or `None` when none counts.
pub open spec fn is_right_extreme(
    v: Option<i64>,
    ys: Seq<i64>,
    hits: Seq<Vec<i64>>,
    p: SpacingParams,
    n: int,
    zone_only: bool,
) -> bool {
    match v {
        None => forall|j: int| 0 <= j < n ==> !#[trigger] counts(ys, hits, p, j, zone_only),
        Some(x) => (forall|j: int|
            0 <= j < n && #[trigger] counts(ys, hits, p, j, zone_only) ==> x >= right_at(
                ys,
                hits,
                p,
                j,
            )) && exists|j: int|
            0 <= j < n && #[trigger] counts(ys, hits, p, j, zone_only) && x == right_at(
                ys,
                hits,
                p,
                j,
            ),
    }
}

/// The deskewed outermost hits of one scanline.
#[derive(Clone, Copy, Debug, PartialEq, Eq, Structural)]
pub struct Ink {
    pub first: i64,
    pub last: i64,
}

/// One scanline inside the reference zone, with its deskewed outer hits or
/// `None` where it meets no ink.
#[derive(Clone, Copy, Debug, PartialEq, Eq, Structural)]
pub struct Sample {
    pub y: i64,
    pub ink: Option<Ink>,
}

/// The samples of the first `n` scanlines that lie in the reference zone.
pub open spec fn zone_samples(ys: Seq<i64>, hits: Seq<Vec<i64>>, p: SpacingParams, n: int) -> Seq<
    Sample,
>
    decreases n,
{
    if n <= 0 {
        Seq::empty()
    } else {
        let prev = zone_samples(ys, hits, p, n - 1);
        let i = n - 1;
        if in_zone(ys[i] as int, p) {
            let ink = if hits[i]@.len() > 0 {
                Some(Ink { first: left_at(ys, hits, p, i) as i64, last: right_at(ys, hits, p, i) as i64 })
            } else {
                None
            };
            prev.push(Sample { y: ys[i], ink })
        } else {
            prev
        }
    }
}

/// Every sample lies in the zone and its hits within the deskew range.
pub open spec fn samples_in_range(samples: Seq<Sample>, p: SpacingParams) -> bool {
    forall|k: int|
        0 <= k < samples.len() ==> {
            &&& p.lower <= (#[trigger] samples[k]).y <= p.upper
            &&& samples[k].ink matches Some(ink) ==> -3 * COORD_LIMIT <= ink.first <= 3
                * COORD_LIMIT && -3 * COORD_LIMIT <= ink.last <= 3 * COORD_LIMIT
        }
}

/// The outcome of the intersection pass.
#[derive(Clone, Debug)]
pub struct ScanPass {
    pub samples: Vec<Sample>,
    pub extreme_left_full: i64,
    pub extreme_left: i64,
    pub extreme_right_full: i64,
    pub extreme_right: i64,
}

proof fn lemma_seq_min_max(s: Seq<i64>)
    requires
        s.len() > 0,
    ensures
        exists|j: int| 0 <= j < s.len() && s[j] == seq_min(s),
        exists|j: int| 0 <= j < s.len() && s[j] == seq_max(s),
        seq_min(s) <= seq_max(s),
    decreases s.len(),
{
    if s.len() > 1 {
        lemma_seq_min_max(s.drop_last());
        let j1 = choose|j: int| 0 <= j < s.len() - 1 && s.drop_last()[j] == seq_min(s.drop_last());
        let j2 = choose|j: int| 0 <= j < s.len() - 1 && s.drop_last()[j] == seq_max(s.drop_last());
        assert(s[j1] == s.drop_last()[j1]);
        assert(s[j2] == s.drop_last()[j2]);
        assert(s[s.len() - 1] == s.last());
    } else {
        assert(s[0] == seq_min(s));
    }
}

/// The smallest and the largest hit of one scanline.
fn min_max(hs: &Vec<i64>) -> (r: (i64, i64))
    requires
        hs@.len() > 0,
    ensures
        r.0 == seq_min(hs@),
        r.1 == seq_max(hs@),
{
    let mut lo = hs[0];
    let mut hi = hs[0];
    let mut i: usize = 1;
    proof {
        assert(hs@.subrange(0, 1).drop_last() =~= Seq::<i64>::empty());
    }
    while i < hs.len()
        invariant
            1 <= i <= hs@.len(),
            lo == seq_min(hs@.subrange(0, i as int)),
            hi == seq_max(hs@.subrange(0, i as int)),
        decreases hs@.len() - i,
    {
        proof {
            assert(hs@.subrange(0, i + 1).drop_last() =~= hs@.subrange(0, i as int));
        }
        if hs[i] < lo {
            lo = hs[i];
        }
        if hs[i] > hi {
            hi = hs[i];
        }
        i = i + 1;
    }
    proof {
        assert(hs@.subrange(0, i as int) =~= hs@);
    }
    (lo, hi)
}

proof fn lemma_seq_min_max_range(s: Seq<i64>, lo: int, hi: int)
    requires
        s.len() > 0,
        forall|j: int| 0 <= j < s.len() ==> lo <= #[trigger] s[j] <= hi,
    ensures
        lo <= seq_min(s) <= hi,
        lo <= seq_max(s) <= hi,
{
    lemma_seq_min_max(s);
}

/// Removes the italic shear at height `y`.
fn deskew_exec(x: i64, y: i64, p: &SpacingParams) -> (r: i64)
    requires
        params_ok(*p),
        -COORD_LIMIT <= x <= COORD_LIMIT,
        -COORD_LIMIT <= y <= COORD_LIMIT,
    ensures
        r == deskew(x as int, y as int, *p),
        -3 * COORD_LIMIT <= r <= 3 * COORD_LIMIT,
{
    let t: i128 = 2 * (y as i128) - p.xheight as i128;
    proof {
        assert(-3 * COORD_LIMIT <= t <= 3 * COORD_LIMIT);
        assert(-3 * COORD_LIMIT * p.slant_den <= t * p.slant_num <= 3 * COORD_LIMIT * p.slant_den)
            by (nonlinear_arith)
            requires
                -3 * COORD_LIMIT <= t <= 3 * COORD_LIMIT,
                -p.slant_den <= p.slant_num <= p.slant_den,
                p.slant_den >= 1,
        ;
        assert(0 <= 3 * COORD_LIMIT * p.slant_den <= 3 * COORD_LIMIT * COORD_LIMIT) by (
        nonlinear_arith)
            requires
                1 <= p.slant_den <= COORD_LIMIT,
        ;
    }
    let num: i128 = p.slant_num as i128;
    proof {
        assert(-3 * COORD_LIMIT * COORD_LIMIT <= t * num <= 3 * COORD_LIMIT * COORD_LIMIT) by (
        nonlinear_arith)
            requires
                -3 * COORD_LIMIT <= t <= 3 * COORD_LIMIT,
                -COORD_LIMIT <= num <= COORD_LIMIT,
        ;
    }
    let n: i128 = t * num + p.slant_den as i128;
    let d: i128 = 2 * p.slant_den as i128;
    let off = floor_div(n, d);
    proof {
        let q = off as int;
        vstd::arithmetic::div_mod::lemma_fundamental_div_mod(n as int, d as int);
        assert(-2 * COORD_LIMIT <= q <= 2 * COORD_LIMIT) by (nonlinear_arith)
            requires
                n == d * q + (n as int % d as int),
                0 <= (n as int % d as int) < d,
                d == 2 * p.slant_den,
                p.slant_den >= 1,
                -3 * COORD_LIMIT * p.slant_den <= n <= 3 * COORD_LIMIT * p.slant_den
                    + p.slant_den,
        ;
    }
    (x as i128 - off) as i64
}

/// The intersection pass: for every scanline that meets the outline, the
/// deskewed leftmost and rightmost hits; the samples of the scanlines in the
/// reference zone (a scanline without hits there is an open strip); the
/// extremes over all scanlines and over those in the zone. `None` when no
/// scanline in the zone meets the outline.
pub fn scan_pass(ys: &Vec<i64>, hits: &Vec<Vec<i64>>, p: &SpacingParams) -> (r: Option<ScanPass>)
    requires
        params_ok(*p),
        scan_ok(ys@, hits@),
    ensures
        r is None <==> forall|j: int| 0 <= j < ys@.len() ==> !#[trigger] counts(ys@, hits@, *p, j, true),
        r matches Some(s) ==> {
            &&& s.samples@ == zone_samples(ys@, hits@, *p, ys@.len() as int)
            &&& is_left_extreme(Some(s.extreme_left_full), ys@, hits@, *p, ys@.len() as int, false)
            &&& is_left_extreme(Some(s.extreme_left), ys@, hits@, *p, ys@.len() as int, true)
            &&& is_right_extreme(Some(s.extreme_right_full), ys@, hits@, *p, ys@.len() as int, false)
            &&& is_right_extreme(Some(s.extreme_right), ys@, hits@, *p, ys@.len() as int, true)
            &&& samples_in_range(s.samples@, *p)
            &&& -3 * COORD_LIMIT <= s.extreme_left <= 3 * COORD_LIMIT
            &&& -3 * COORD_LIMIT <= s.extreme_right <= 3 * COORD_LIMIT
            &&& -3 * COORD_LIMIT <= s.extreme_left_full <= 3 * COORD_LIMIT
            &&& -3 * COORD_LIMIT <= s.extreme_right_full <= 3 * COORD_LIMIT
        },
{
    let n = ys.len();
    let mut samples: Vec<Sample> = Vec::new();
    let mut lf: Option<i64> = None;
    let mut lz: Option<i64> = None;
    let mut rf: Option<i64> = None;
    let mut rz: Option<i64> = None;
    let mut i: usize = 0;
    while i < n
        invariant
            n == ys@.len(),
            params_ok(*p),
            scan_ok(ys@, hits@),
            i <= n,
            samples@ == zone_samples(ys@, hits@, *p, i as int),
            is_left_extreme(lf, ys@, hits@, *p, i as int, false),
            is_left_extreme(lz, ys@, hits@, *p, i as int, true),
            is_right_extreme(rf, ys@, hits@, *p, i as int, false),
            is_right_extreme(rz, ys@, hits@, *p, i as int, true),
            samples_in_range(samples@, *p),
            lf matches Some(v) ==> -3 * COORD_LIMIT <= v <= 3 * COORD_LIMIT,
            lz matches Some(v) ==> -3 * COORD_LIMIT <= v <= 3 * COORD_LIMIT,
            rf matches Some(v) ==> -3 * COORD_LIMIT <= v <= 3 * COORD_LIMIT,
            rz matches Some(v) ==> -3 * COORD_LIMIT <= v <= 3 * COORD_LIMIT,
        decreases n - i,
    {
        let y = ys[i];
        let hs = &hits[i];
        let zone = p.lower <= y && y <= p.upper;
        if hs.len() == 0 {
            if zone {
                samples.push(Sample { y, ink: None });
            }
            proof {
                assert(!counts(ys@, hits@, *p, i as int, false));
                assert(!counts(ys@, hits@, *p, i as int, true));
            }
        } else {
            let (lo, hi) = min_max(hs);
            proof {
                assert(forall|j: int| 0 <= j < hs@.len() ==> -COORD_LIMIT <= #[trigger] hs@[j] <= COORD_LIMIT) by {
                    assert(forall|j: int| 0 <= j < hs@.len() ==> hs@[j] == hits@[i as int]@[j]);
                }
                lemma_seq_min_max_range(hs@, -COORD_LIMIT as int, COORD_LIMIT as int);
            }
            let first = deskew_exec(lo, y, p);
            let last = deskew_exec(hi, y, p);
            proof {
                assert(first == left_at(ys@, hits@, *p, i as int));
                assert(last == right_at(ys@, hits@, *p, i as int));
                assert(counts(ys@, hits@, *p, i as int, false));
            }
            proof {
                if zone {
                    assert(counts(ys@, hits@, *p, i as int, true));
                } else {
                    assert(!counts(ys@, hits@, *p, i as int, true));
                }
            }
            if zone {
                samples.push(Sample { y, ink: Some(Ink { first, last }) });
                lz = match lz {
                    Some(v) => if v < first { Some(v) } else { Some(first) },
                    None => Some(first),
                };
                rz = match rz {
                    Some(v) => if v > last { Some(v) } else { Some(last) },
                    None => Some(last),
                };
            }
            lf = match lf {
                Some(v) => if v < first { Some(v) } else { Some(first) },
                None => Some(first),
            };
            rf = match rf {
                Some(v) => if v > last { Some(v) } else { Some(last) },
                None => Some(last),
            };
        }
        i = i + 1;
    }
    proof {
        if lz is Some {
            let j = choose|j: int| 0 <= j < n && #[trigger] counts(ys@, hits@, *p, j, true) && lz->Some_0 == left_at(ys@, hits@, *p, j);
            assert(counts(ys@, hits@, *p, j, false));
            assert(lf is Some);
            assert(rf is Some);
            assert(rz is Some);
        }
    }
    match (lf, lz, rf, rz) {
        (Some(a), Some(b), Some(c), Some(d)) => Some(ScanPass {
            samples,
            extreme_left_full: a,
            extreme_left: b,
            extreme_right_full: c,
            extreme_right: d,
        }),
        _ => None,
    }
}

/// How far the depth cut lets a side reach in from its extreme.
pub open spec fn depth(p: SpacingParams) -> int {
    p.xheight * p.depth_cut / 100
}

/// A left sample after the depth cut: no further in than `cap`; an open
/// strip lies at `cap`.
pub open spec fn left_capped(s: Sample, cap: int) -> int {
    match s.ink {
        Some(ink) => if ink.first < cap { ink.first as int } else { cap },
        None => cap,
    }
}

/// A right sample after the depth cut: no further in than `cap`; an open
/// strip lies at `cap`.
pub open spec fn right_capped(s: Sample, cap: int) -> int {
    match s.ink {
        Some(ink) => if ink.last > cap { ink.last as int } else { cap },
        None => cap,
    }
}

pub open spec fn capped_left(samples: Seq<Sample>, cap: int) -> Seq<i64> {
    Seq::new(samples.len(), |k: int| left_capped(samples[k], cap) as i64)
}

pub open spec fn capped_right(samples: Seq<Sample>, cap: int) -> Seq<i64> {
    Seq::new(samples.len(), |k: int| right_capped(samples[k], cap) as i64)
}

/// The depth-cut pass on both sides.
fn depth_cut_pass(samples: &Vec<Sample>, left_cap: i64, right_cap: i64) -> (r: (
    Vec<i64>,
    Vec<i64>,
))
    requires
        -5 * COORD_LIMIT <= left_cap <= 5 * COORD_LIMIT,
        -5 * COORD_LIMIT <= right_cap <= 5 * COORD_LIMIT,
        forall|k: int|
            0 <= k < samples@.len() ==> ((#[trigger] samples@[k]).ink matches Some(ink) ==> -3
                * COORD_LIMIT <= ink.first <= 3 * COORD_LIMIT && -3 * COORD_LIMIT <= ink.last <= 3
                * COORD_LIMIT),
    ensures
        r.0@ == capped_left(samples@, left_cap as int),
        r.1@ == capped_right(samples@, right_cap as int),
{
    let mut left: Vec<i64> = Vec::new();
    let mut right: Vec<i64> = Vec::new();
    let mut k: usize = 0;
    while k < samples.len()
        invariant
            k <= samples@.len(),
            left@ == capped_left(samples@.subrange(0, k as int), left_cap as int),
            right@ == capped_right(samples@.subrange(0, k as int), right_cap as int),
        decreases samples@.len() - k,
    {
        let s = samples[k];
        let (l, r) = match s.ink {
            Some(ink) => (
                if ink.first < left_cap {
                    ink.first
                } else {
                    left_cap
                },
                if ink.last > right_cap {
                    ink.last
                } else {
                    right_cap
                },
            ),
            None => (left_cap, right_cap),
        };
        left.push(l);
        right.push(r);
        k = k + 1;
        proof {
            assert(left@ =~= capped_left(samples@.subrange(0, k as int), left_cap as int));
            assert(right@ =~= capped_right(samples@.subrange(0, k as int), right_cap as int));
        }
    }
    proof {
        assert(samples@.subrange(0, k as int) =~= samples@);
    }
    (left, right)
}

/// The closed spacing polygons of both sides, with the extremes they were
/// built from.
#[derive(Clone, Debug)]
pub struct SpacingPolygons {
    pub left: Vec<PolyPoint>,
    pub extreme_left_full: i64,
    pub extreme_left: i64,
    pub right: Vec<PolyPoint>,
    pub extreme_right_full: i64,
    pub extreme_right: i64,
}

/// The x-coordinates of a polygon's vertices between its two closing ones.
pub open spec fn inner_xs(poly: Seq<PolyPoint>) -> Seq<i64> {
    Seq::new((poly.len() - 2) as nat, |k: int| poly[k + 1].x)
}

/// `poly` is the closed polygon over `samples` with inner x-coordinates
/// `xs`, closed at x = `x0` on the zone's bounds.
pub open spec fn closes(poly: Seq<PolyPoint>, samples: Seq<Sample>, x0: i64, p: SpacingParams) -> bool {
    &&& poly.len() == samples.len() + 2
    &&& poly[0] == PolyPoint { x: x0, y: p.lower }
    &&& poly[poly.len() - 1] == PolyPoint { x: x0, y: p.upper }
    &&& forall|k: int| 0 <= k < samples.len() ==> (#[trigger] poly[k + 1]).y == samples[k].y
}

/// What the spacing polygons of a scan are: the intersection pass's extremes;
/// each side's samples depth-capped at its extreme plus (left) or minus
/// (right) the depth, then smoothed to the nearest sequence that moves by at
/// most one scan step between scanlines; and closed at the extreme on the
/// reference zone's bounds.
pub open spec fn polygons_valid(
    sp: SpacingPolygons,
    ys: Seq<i64>,
    hits: Seq<Vec<i64>>,
    p: SpacingParams,
) -> bool {
    let n = ys.len() as int;
    let zs = zone_samples(ys, hits, p, n);
    let lcap = sp.extreme_left + depth(p);
    let rcap = sp.extreme_right - depth(p);
    &&& is_left_extreme(Some(sp.extreme_left_full), ys, hits, p, n, false)
    &&& is_left_extreme(Some(sp.extreme_left), ys, hits, p, n, true)
    &&& is_right_extreme(Some(sp.extreme_right_full), ys, hits, p, n, false)
    &&& is_right_extreme(Some(sp.extreme_right), ys, hits, p, n, true)
    &&& closes(sp.left@, zs, sp.extreme_left, p)
    &&& closes(sp.right@, zs, sp.extreme_right, p)
    &&& admissible_below(inner_xs(sp.left@), capped_left(zs, lcap), p.scan_step as int)
    &&& forall|z: Seq<i64>|
        admissible_below(z, capped_left(zs, lcap), p.scan_step as int) ==> below(
            z,
            inner_xs(sp.left@),
        )
    &&& admissible_above(inner_xs(sp.right@), capped_right(zs, rcap), p.scan_step as int)
    &&& forall|z: Seq<i64>|
        admissible_above(z, capped_right(zs, rcap), p.scan_step as int) ==> above(
            z,
            inner_xs(sp.right@),
        )
}

/// `xs` at heights of `samples`, closed at x = `x0` on the zone's bounds.
fn close_polygon(samples: &Vec<Sample>, xs: &Vec<i64>, x0: i64, p: &SpacingParams) -> (r: Vec<
    PolyPoint,
>)
    requires
        xs@.len() == samples@.len(),
        samples@.len() <= MAX_SCANLINES,
    ensures
        closes(r@, samples@, x0, *p),
        inner_xs(r@) == xs@,
{
    let mut r: Vec<PolyPoint> = Vec::new();
    r.push(PolyPoint { x: x0, y: p.lower });
    let mut k: usize = 0;
    while k < xs.len()
        invariant
            k <= xs@.len(),
            xs@.len() == samples@.len(),
            samples@.len() <= MAX_SCANLINES,
            r@.len() == k + 1,
            r@[0] == (PolyPoint { x: x0, y: p.lower }),
            forall|j: int| 0 <= j < k ==> (#[trigger] r@[j + 1]).y == samples@[j].y && r@[j + 1].x == xs@[j],
        decreases xs@.len() - k,
    {
        r.push(PolyPoint { x: xs[k], y: samples[k].y });
        k = k + 1;
    }
    r.push(PolyPoint { x: x0, y: p.upper });
    proof {
        assert(inner_xs(r@) =~= xs@);
    }
    r
}

/// Builds the left and right spacing polygons from the scanlines `ys` and
/// the x-coordinates where each meets the outline. `None` when no scanline
/// inside the reference zone meets the outline.
pub fn spacing_polygons(ys: &Vec<i64>, hits: &Vec<Vec<i64>>, p: &SpacingParams) -> (r: Option<
    SpacingPolygons,
>)
    requires
        params_ok(*p),
        scan_ok(ys@, hits@),
    ensures
        r is None <==> forall|j: int| 0 <= j < ys@.len() ==> !#[trigger] counts(ys@, hits@, *p, j, true),
        r matches Some(sp) ==> polygons_valid(sp, ys@, hits@, *p),
        r matches Some(sp) ==> polygon_in_range(sp.left@) && polygon_in_range(sp.right@),
{
    let scan = match scan_pass(ys, hits, p) {
        None => return None,
        Some(s) => s,
    };
    let ghost zs = scan.samples@;
    proof {
        assert(0 <= p.xheight * p.depth_cut <= 100 * COORD_LIMIT) by (nonlinear_arith)
            requires
                0 <= p.xheight <= COORD_LIMIT,
                0 <= p.depth_cut <= 100,
        ;
    }
    let d: i64 = p.xheight * p.depth_cut / 100;
    proof {
        assert(d == depth(*p));
        assert(0 <= d <= COORD_LIMIT);
    }
    let lcap = scan.extreme_left + d;
    let rcap = scan.extreme_right - d;
    let (lx, rx) = depth_cut_pass(&scan.samples, lcap, rcap);
    proof {
        assert(zone_samples(ys@, hits@, *p, ys@.len() as int).len() <= ys@.len()) by {
            lemma_zone_samples_len(ys@, hits@, *p, ys@.len() as int);
        }
        assert forall|k: int| 0 <= k < lx@.len() implies -SAMPLE_LIMIT <= #[trigger] lx@[k]
            <= SAMPLE_LIMIT by {
            assert(zs[k].ink matches Some(ink) ==> -3 * COORD_LIMIT <= ink.first <= 3 * COORD_LIMIT);
        }
        assert forall|k: int| 0 <= k < rx@.len() implies -SAMPLE_LIMIT <= #[trigger] rx@[k]
            <= SAMPLE_LIMIT by {
            assert(zs[k].ink matches Some(ink) ==> -3 * COORD_LIMIT <= ink.last <= 3 * COORD_LIMIT);
        }
    }
    let ls = smooth_left(&lx, p.scan_step);
    let rs = smooth_right(&rx, p.scan_step);
    let left = close_polygon(&scan.samples, &ls, scan.extreme_left, p);
    let right = close_polygon(&scan.samples, &rs, scan.extreme_right, p);
    let sp = SpacingPolygons {
        left,
        extreme_left_full: scan.extreme_left_full,
        extreme_left: scan.extreme_left,
        right,
        extreme_right_full: scan.extreme_right_full,
        extreme_right: scan.extreme_right,
    };
    proof {
        let m = zs.len() as int;
        let c3 = 3 * COORD_LIMIT;
        let zl = Seq::new(m as nat, |k: int| (-c3) as i64);
        let zr = Seq::new(m as nat, |k: int| c3 as i64);
        assert forall|k: int| 0 <= k < m implies -c3 <= #[trigger] lx@[k] <= lcap && rcap
            <= rx@[k] <= c3 by {
            assert(lx@[k] == left_capped(zs[k], lcap as int) as i64);
            assert(rx@[k] == right_capped(zs[k], rcap as int) as i64);
        }
        assert(admissible_below(zl, lx@, p.scan_step as int));
        assert(admissible_above(zr, rx@, p.scan_step as int));
        assert(below(zl, ls@));
        assert(above(zr, rs@));
        assert forall|k: int| 0 <= k < sp.left@.len() implies -POLY_COORD_LIMIT <= (
        #[trigger] sp.left@[k]).x <= POLY_COORD_LIMIT && -POLY_COORD_LIMIT <= sp.left@[k].y
            <= POLY_COORD_LIMIT by {
            if 0 < k < sp.left@.len() - 1 {
                assert(sp.left@[(k - 1) + 1].x == inner_xs(sp.left@)[k - 1]);
                assert(zl[k - 1] <= ls@[k - 1]);
                assert(ls@[k - 1] <= lx@[k - 1]);
                assert(p.lower <= zs[k - 1].y <= p.upper);
            }
        }
        assert forall|k: int| 0 <= k < sp.right@.len() implies -POLY_COORD_LIMIT <= (
        #[trigger] sp.right@[k]).x <= POLY_COORD_LIMIT && -POLY_COORD_LIMIT <= sp.right@[k].y
            <= POLY_COORD_LIMIT by {
            if 0 < k < sp.right@.len() - 1 {
                assert(sp.right@[(k - 1) + 1].x == inner_xs(sp.right@)[k - 1]);
                assert(zr[k - 1] >= rs@[k - 1]);
                assert(rs@[k - 1] >= rx@[k - 1]);
                assert(p.lower <= zs[k - 1].y <= p.upper);
            }
        }
    }
    Some(sp)
}

proof fn lemma_zone_samples_len(ys: Seq<i64>, hits: Seq<Vec<i64>>, p: SpacingParams, n: int)
    ensures
        zone_samples(ys, hits, p, n).len() <= if n < 0 { 0 } else { n },
    decreases n,
{
    if n > 0 {
        lemma_zone_samples_len(ys, hits, p, n - 1);
    }
}

/// The measurement parameters of the white-space model.
#[derive(Clone, Copy, Debug, PartialEq, Eq, Structural)]
pub struct AreaParams {
    /// Per-glyph category factor, in percent.
    pub factor_pct: i64,
    /// Target white area per side.
    pub param_area: i64,
    pub units_per_em: i64,
}

pub open spec fn area_params_ok(a: AreaParams, p: SpacingParams) -> bool {
    &&& 0 <= a.factor_pct <= PARAM_LIMIT
    &&& 0 <= a.param_area <= PARAM_LIMIT
    &&& 1 <= a.units_per_em <= PARAM_LIMIT
    &&& p.xheight >= 1
    &&& p.lower < p.upper
}

/// The rounded-up sidebearing value of a side whose polygon has twice the
/// area `twice`.
pub open spec fn side_value(twice: int, a: AreaParams, p: SpacingParams) -> int {
    ceil_div(
        sidebearing_num(
            a.factor_pct as int,
            p.lower as int,
            p.upper as int,
            a.param_area as int,
            twice,
            a.units_per_em as int,
            p.xheight as int,
        ),
        sidebearing_den(p.lower as int, p.upper as int, p.xheight as int),
    )
}

/// The left sidebearing delta of polygons `sp`: the side's value less how far
/// the glyph reaches beyond its in-zone extreme outside the zone.
pub open spec fn left_delta(sp: SpacingPolygons, a: AreaParams, p: SpacingParams) -> int {
    side_value(twice_area_of(sp.left@), a, p) - (sp.extreme_left - sp.extreme_left_full)
}

/// The right sidebearing delta of polygons `sp`.
pub open spec fn right_delta(sp: SpacingPolygons, a: AreaParams, p: SpacingParams) -> int {
    side_value(twice_area_of(sp.right@), a, p) - (sp.extreme_right_full - sp.extreme_right)
}

/// Computes the left and right sidebearing deltas of a glyph from its scan.
/// Both are `None` when no scanline in the reference zone meets the outline
/// (a glyph without an outline); otherwise the polygons they were measured
/// on are appended to `debug`.
pub fn calculate_spacing(
    ys: &Vec<i64>,
    hits: &Vec<Vec<i64>>,
    p: &SpacingParams,
    a: &AreaParams,
    debug: &mut Vec<SpacingPolygons>,
) -> (r: (Option<i128>, Option<i128>))
    requires
        params_ok(*p),
        area_params_ok(*a, *p),
        scan_ok(ys@, hits@),
    ensures
        (r.0 is None) <==> forall|j: int|
            0 <= j < ys@.len() ==> !#[trigger] counts(ys@, hits@, *p, j, true),
        (r.0 is None) ==> r.1 is None && final(debug)@ == old(debug)@,
        r.0 is Some ==> {
            let sp = final(debug)@.last();
            &&& r.1 is Some
            &&& final(debug)@ == old(debug)@.push(sp)
            &&& polygons_valid(sp, ys@, hits@, *p)
            &&& r.0->Some_0 == left_delta(sp, *a, *p)
            &&& r.1->Some_0 == right_delta(sp, *a, *p)
        },
{
    let sp = match spacing_polygons(ys, hits, p) {
        None => return (None, None),
        Some(sp) => sp,
    };
    let la = twice_area(&sp.left);
    let ra = twice_area(&sp.right);
    let lv = sidebearing_value(
        a.factor_pct,
        p.lower,
        p.upper,
        a.param_area,
        la,
        a.units_per_em,
        p.xheight,
    );
    let rv = sidebearing_value(
        a.factor_pct,
        p.lower,
        p.upper,
        a.param_area,
        ra,
        a.units_per_em,
        p.xheight,
    );
    let new_left = lv - (sp.extreme_left as i128 - sp.extreme_left_full as i128);
    let new_right = rv - (sp.extreme_right_full as i128 - sp.extreme_right as i128);
    debug.push(sp);
    (Some(new_left), Some(new_right))
}

/// Depth cap: no vertex of the left polygon lies further in than the in-zone
/// left extreme plus the depth, and none of the right polygon further in than
/// the in-zone right extreme minus the depth.
pub proof fn lemma_depth_cap(
    sp: SpacingPolygons,
    ys: Seq<i64>,
    hits: Seq<Vec<i64>>,
    p: SpacingParams,
)
    requires
        params_ok(p),
        polygons_valid(sp, ys, hits, p),
    ensures
        forall|k: int|
            0 <= k < sp.left@.len() ==> (#[trigger] sp.left@[k]).x <= sp.extreme_left + depth(p),
        forall|k: int|
            0 <= k < sp.right@.len() ==> (#[trigger] sp.right@[k]).x >= sp.extreme_right - depth(
                p,
            ),
{
    let zs = zone_samples(ys, hits, p, ys.len() as int);
    assert(0 <= p.xheight * p.depth_cut) by (nonlinear_arith)
        requires
            0 <= p.xheight,
            0 <= p.depth_cut,
    ;
    let lcap = sp.extreme_left + depth(p);
    let rcap = sp.extreme_right - depth(p);
    assert forall|k: int| 0 <= k < sp.left@.len() implies (#[trigger] sp.left@[k]).x <= lcap by {
        if 0 < k < sp.left@.len() - 1 {
            assert(inner_xs(sp.left@)[k - 1] == sp.left@[k].x);
            assert(inner_xs(sp.left@)[k - 1] <= capped_left(zs, lcap)[k - 1]);
        }
    }
    assert forall|k: int| 0 <= k < sp.right@.len() implies (#[trigger] sp.right@[k]).x >= rcap by {
        if 0 < k < sp.right@.len() - 1 {
            assert(inner_xs(sp.right@)[k - 1] == sp.right@[k].x);
            assert(inner_xs(sp.right@)[k - 1] >= capped_right(zs, rcap)[k - 1]);
        }
    }
}

/// Smoothing bound: on each side, the x-coordinates of neighbouring
/// scanline samples differ by at most the scan step.
pub proof fn lemma_smoothing_bound(
    sp: SpacingPolygons,
    ys: Seq<i64>,
    hits: Seq<Vec<i64>>,
    p: SpacingParams,
)
    requires
        polygons_valid(sp, ys, hits, p),
    ensures
        forall|k: int|
            1 <= k < sp.left@.len() - 2 ==> -p.scan_step <= #[trigger] sp.left@[k + 1].x
                - sp.left@[k].x <= p.scan_step,
        forall|k: int|
            1 <= k < sp.right@.len() - 2 ==> -p.scan_step <= #[trigger] sp.right@[k + 1].x
                - sp.right@[k].x <= p.scan_step,
{
    assert forall|k: int| 1 <= k < sp.left@.len() - 2 implies -p.scan_step <= #[trigger] sp.left@[k
        + 1].x - sp.left@[k].x <= p.scan_step by {
        let xs = inner_xs(sp.left@);
        assert(xs[k] == sp.left@[k + 1].x);
        assert(xs[k - 1] == sp.left@[k].x);
        assert(xs[(k - 1) + 1] - xs[k - 1] <= p.scan_step);
    }
    assert forall|k: int| 1 <= k < sp.right@.len() - 2 implies -p.scan_step <= #[trigger] sp.right@[k
        + 1].x - sp.right@[k].x <= p.scan_step by {
        let xs = inner_xs(sp.right@);
        assert(xs[k] == sp.right@[k + 1].x);
        assert(xs[k - 1] == sp.right@[k].x);
        assert(xs[(k - 1) + 1] - xs[k - 1] <= p.scan_step);
    }
}

/// The heights of the scanlines: every `step` units from the lower of the
/// glyph's bottom and the zone's lower bound up to the higher of the glyph's
/// top and the zone's upper bound.
pub fn scanlines(glyph_min_y: i64, glyph_max_y: i64, lower: i64, upper: i64, step: i64) -> (r: Vec<
    i64,
>)
    requires
        -COORD_LIMIT <= glyph_min_y <= COORD_LIMIT,
        -COORD_LIMIT <= glyph_max_y <= COORD_LIMIT,
        -COORD_LIMIT <= lower <= COORD_LIMIT,
        -COORD_LIMIT <= upper <= COORD_LIMIT,
        1 <= step <= COORD_LIMIT,
    ensures
        ({
            let lo = if glyph_min_y < lower { glyph_min_y } else { lower };
            let hi = if glyph_max_y > upper { glyph_max_y } else { upper };
            &&& r@.len() == if lo <= hi { (hi - lo) / (step as int) + 1 } else { 0 }
            &&& forall|k: int| 0 <= k < r@.len() ==> #[trigger] r@[k] == lo + k * step
        }),
        forall|k: int| 0 <= k < r@.len() ==> -COORD_LIMIT <= #[trigger] r@[k] <= COORD_LIMIT,
        r@.len() <= MAX_SCANLINES,
{
    let lo = if glyph_min_y < lower { glyph_min_y } else { lower };
    let hi = if glyph_max_y > upper { glyph_max_y } else { upper };
    let mut r: Vec<i64> = Vec::new();
    if lo > hi {
        return r;
    }
    let mut y = lo;
    let ghost count: int = (hi - lo) / (step as int) + 1;
    proof {
        vstd::arithmetic::div_mod::lemma_fundamental_div_mod((hi - lo) as int, step as int);
        assert(0 <= (hi - lo) / (step as int) <= hi - lo) by (nonlinear_arith)
            requires
                hi - lo == step * ((hi - lo) / (step as int)) + ((hi - lo) % (step as int)),
                0 <= (hi - lo) % (step as int) < step,
                step >= 1,
                hi >= lo,
        ;
    }
    proof {
        assert(lo + r@.len() * step == lo) by (nonlinear_arith)
            requires
                r@.len() == 0,
        ;
    }
    while y <= hi
        invariant
            lo <= y,
            y <= hi + step,
            -COORD_LIMIT <= lo <= hi <= COORD_LIMIT,
            1 <= step <= COORD_LIMIT,
            y == lo + r@.len() * step,
            forall|k: int| 0 <= k < r@.len() ==> #[trigger] r@[k] == lo + k * step,
            forall|k: int| 0 <= k < r@.len() ==> -COORD_LIMIT <= #[trigger] r@[k] <= COORD_LIMIT,
            r@.len() <= hi - lo + 1,
            (r@.len() - 1) * step <= hi - lo,
        decreases hi + step - y,
    {
        r.push(y);
        proof {
            assert(y == lo + (r@.len() - 1) * step);
            assert((r@.len() - 1) * step <= hi - lo);
            assert(r@.len() <= hi - lo + 1) by (nonlinear_arith)
                requires
                    (r@.len() - 1) * step <= hi - lo,
                    step >= 1,
                    r@.len() >= 1,
            ;
            assert(lo + r@.len() * step == y + step) by (nonlinear_arith)
                requires
                    y == lo + (r@.len() - 1) * step,
            ;
        }
        y = y + step;
    }
    proof {
        let n = r@.len() as int;
        let q = (hi - lo) / (step as int);
        vstd::arithmetic::div_mod::lemma_fundamental_div_mod((hi - lo) as int, step as int);
        assert(n == q + 1) by (nonlinear_arith)
            requires
                lo + n * step > hi,
                (n - 1) * step <= hi - lo,
                hi - lo == step * q + ((hi - lo) % (step as int)),
                0 <= (hi - lo) % (step as int) < step,
                step >= 1,
        ;
        assert(n <= MAX_SCANLINES);
    }
    r
}

/// A glyph without outline meets no scanline, so it yields no polygons and
/// both sidebearings of `calculate_spacing` are `None`.
pub proof fn lemma_empty_outline(ys: Seq<i64>, hits: Seq<Vec<i64>>, p: SpacingParams)
    requires
        ys.len() == hits.len(),
        forall|i: int| 0 <= i < hits.len() ==> (#[trigger] hits[i])@.len() == 0,
    ensures
        forall|j: int| 0 <= j < ys.len() ==> !#[trigger] counts(ys, hits, p, j, true),
{
    assert forall|j: int| 0 <= j < ys.len() implies !#[trigger] counts(ys, hits, p, j, true) by {
        assert(hits[j]@.len() == 0);
    }
}

} // verus!
