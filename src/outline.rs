//! Decoding of one contour's point list into path segments.
use vstd::prelude::*;

verus! {

/// The role of a point in a contour.
#[derive(Clone, Copy, Debug, PartialEq, Eq, Structural)]
pub enum PointType {
    Move,
    Line,
    Curve,
    QCurve,
    OffCurve,
}

/// A point in design units.
#[derive(Clone, Copy, Debug, PartialEq, Eq, Structural)]
pub struct Point {
    pub x: i32,
    pub y: i32,
}

/// A point of a contour, with its type tag and smoothness flag.
#[derive(Clone, Copy, Debug, PartialEq, Eq, Structural)]
pub struct ContourPoint {
    pub x: i32,
    pub y: i32,
    pub typ: PointType,
    pub smooth: bool,
}

/// An ordered list of points; open when it starts with a `Move` point.
#[derive(Clone, Debug)]
pub struct Contour {
    pub points: Vec<ContourPoint>,
}

/// One element of a path.
#[derive(Clone, Copy, Debug, PartialEq, Eq, Structural)]
pub enum PathEl {
    MoveTo(Point),
    LineTo(Point),
    QuadTo(Point, Point),
    CurveTo(Point, Point, Point),
    ClosePath,
}

/// Why a contour could not be decoded.
#[derive(Clone, Copy, Debug, PartialEq, Eq, Structural)]
pub enum ContourDrawingError {
    /// An on-curve point met a control buffer of a length it cannot take.
    IllegalPointCount(PointType, usize),
    /// A `Move` point stands in the middle of a contour.
    IllegalMove,
    /// Off-curve points are left over at the end of the contour.
    TrailingOffCurves,
    /// A cubic segment with more than two control points.
    UnsupportedSegmentDegree(usize),
}

pub open spec fn pos(p: ContourPoint) -> Point {
    Point { x: p.x, y: p.y }
}

pub open spec fn is_on_curve(p: ContourPoint) -> bool {
    p.typ != PointType::OffCurve
}

/// The midpoint of two points, each coordinate rounded down.
pub open spec fn midpoint(a: Point, b: Point) -> Point {
    Point { x: ((a.x + b.x) / 2) as i32, y: ((a.y + b.y) / 2) as i32 }
}

/// TrueType implied on-curve chain: one quadratic per control point, joined
/// at the midpoints of adjacent controls, ending at `end`.
pub open spec fn quad_chain(cs: Seq<Point>, end: Point) -> Seq<PathEl>
    decreases cs.len(),
{
    if cs.len() <= 1 {
        if cs.len() == 1 {
            seq![PathEl::QuadTo(cs[0], end)]
        } else {
            Seq::empty()
        }
    } else {
        seq![PathEl::QuadTo(cs[0], midpoint(cs[0], cs[1]))] + quad_chain(cs.drop_first(), end)
    }
}

/// The segments that an on-curve point of type `typ` at `p` ends, given the
/// buffered control points `cs`.
pub open spec fn flush(typ: PointType, cs: Seq<Point>, p: Point) -> Result<
    Seq<PathEl>,
    ContourDrawingError,
> {
    match typ {
        PointType::Move => Err(ContourDrawingError::IllegalMove),
        PointType::Line => if cs.len() == 0 {
            Ok(seq![PathEl::LineTo(p)])
        } else {
            Err(ContourDrawingError::IllegalPointCount(PointType::Line, cs.len() as usize))
        },
        PointType::QCurve => if cs.len() == 0 {
            Ok(seq![PathEl::LineTo(p)])
        } else {
            Ok(quad_chain(cs, p))
        },
        PointType::Curve => if cs.len() == 0 {
            Ok(seq![PathEl::LineTo(p)])
        } else if cs.len() == 1 {
            Ok(seq![PathEl::QuadTo(cs[0], p)])
        } else if cs.len() == 2 {
            Ok(seq![PathEl::CurveTo(cs[0], cs[1], p)])
        } else {
            Err(ContourDrawingError::UnsupportedSegmentDegree(cs.len() as usize))
        },
        PointType::OffCurve => Ok(Seq::empty()),
    }
}

/// `s` in front of the segments of `r`, or the error of `r`.
pub open spec fn prepend(s: Seq<PathEl>, r: Result<Seq<PathEl>, ContourDrawingError>) -> Result<
    Seq<PathEl>,
    ContourDrawingError,
> {
    match r {
        Ok(t) => Ok(s + t),
        Err(e) => Err(e),
    }
}

/// The segments of `pts` walked forward with the control buffer `cs`:
/// off-curve points are buffered, each on-curve point flushes the buffer.
pub open spec fn walk(pts: Seq<ContourPoint>, cs: Seq<Point>) -> Result<
    Seq<PathEl>,
    ContourDrawingError,
>
    decreases pts.len(),
{
    if pts.len() == 0 {
        if cs.len() == 0 {
            Ok(Seq::empty())
        } else {
            Err(ContourDrawingError::TrailingOffCurves)
        }
    } else if !is_on_curve(pts[0]) {
        walk(pts.drop_first(), cs.push(pos(pts[0])))
    } else {
        match flush(pts[0].typ, cs, pos(pts[0])) {
            Ok(s) => prepend(s, walk(pts.drop_first(), Seq::empty())),
            Err(e) => Err(e),
        }
    }
}

/// Index of the first on-curve point, or `pts.len()` when there is none.
pub open spec fn first_on_curve(pts: Seq<ContourPoint>) -> int
    decreases pts.len(),
{
    if pts.len() == 0 {
        0
    } else if is_on_curve(pts[0]) {
        0
    } else {
        1 + first_on_curve(pts.drop_first())
    }
}

/// `pts` rotated left by `k`.
pub open spec fn rotate(pts: Seq<ContourPoint>, k: int) -> Seq<ContourPoint> {
    pts.subrange(k, pts.len() as int) + pts.subrange(0, k)
}

/// The on-curve point implied between the last and the first control point
/// of an all-off-curve contour.
pub open spec fn implied_on_curve(pts: Seq<ContourPoint>) -> ContourPoint {
    let m = midpoint(pos(pts.last()), pos(pts[0]));
    ContourPoint { x: m.x, y: m.y, typ: PointType::QCurve, smooth: false }
}

/// A result with `ClosePath` appended on success.
pub open spec fn closed(r: Result<Seq<PathEl>, ContourDrawingError>) -> Result<
    Seq<PathEl>,
    ContourDrawingError,
> {
    match r {
        Ok(t) => Ok(t.push(PathEl::ClosePath)),
        Err(e) => Err(e),
    }
}

/// The path segments of a contour.
pub open spec fn decode(pts: Seq<ContourPoint>) -> Result<Seq<PathEl>, ContourDrawingError> {
    if pts.len() == 0 {
        Ok(Seq::empty())
    } else if pts.len() == 1 {
        Ok(seq![PathEl::MoveTo(pos(pts[0]))])
    } else if pts[0].typ == PointType::Move {
        prepend(seq![PathEl::MoveTo(pos(pts[0]))], walk(pts.drop_first(), Seq::empty()))
    } else if first_on_curve(pts) < pts.len() {
        let k = first_on_curve(pts);
        closed(prepend(seq![PathEl::MoveTo(pos(pts[k]))], walk(rotate(pts, k + 1), Seq::empty())))
    } else {
        let imp = implied_on_curve(pts);
        closed(prepend(seq![PathEl::MoveTo(pos(imp))], walk(pts.push(imp), Seq::empty())))
    }
}

proof fn lemma_first_on_curve(pts: Seq<ContourPoint>)
    ensures
        0 <= first_on_curve(pts) <= pts.len(),
        forall|i: int| 0 <= i < first_on_curve(pts) ==> !is_on_curve(#[trigger] pts[i]),
        first_on_curve(pts) < pts.len() ==> is_on_curve(pts[first_on_curve(pts)]),
    decreases pts.len(),
{
    if pts.len() > 0 && !is_on_curve(pts[0]) {
        lemma_first_on_curve(pts.drop_first());
        assert forall|i: int| 0 <= i < first_on_curve(pts) implies !is_on_curve(#[trigger] pts[i]) by {
            if i > 0 {
                assert(pts[i] == pts.drop_first()[i - 1]);
            }
        }
    }
}

fn mid(a: i32, b: i32) -> (r: i32)
    ensures
        r == (a + b) / 2,
{
    let s: i64 = a as i64 + b as i64;
    if s >= 0 {
        (s / 2) as i32
    } else {
        let r: i64 = -((-s + 1) / 2);
        assert(r == s / 2) by (nonlinear_arith)
            requires
                s < 0,
                r == -((-s + 1) / 2),
        ;
        r as i32
    }
}

fn midpoint_exec(a: Point, b: Point) -> (r: Point)
    ensures
        r == midpoint(a, b),
{
    Point { x: mid(a.x, b.x), y: mid(a.y, b.y) }
}

fn point_of(p: &ContourPoint) -> (r: Point)
    ensures
        r == pos(*p),
{
    Point { x: p.x, y: p.y }
}

/// Emits the segments that the on-curve point `p` ends and empties the buffer.
fn flush_exec(
    typ: PointType,
    controls: &mut Vec<Point>,
    p: Point,
    segments: &mut Vec<PathEl>,
) -> (r: Result<(), ContourDrawingError>)
    requires
        typ != PointType::OffCurve,
    ensures
        match flush(typ, old(controls)@, p) {
            Ok(s) => r is Ok && final(segments)@ == old(segments)@ + s && final(controls)@.len()
                == 0,
            Err(e) => r == Err::<(), ContourDrawingError>(e),
        },
{
    match typ {
        PointType::Move => Err(ContourDrawingError::IllegalMove),
        PointType::Line => {
            if controls.len() != 0 {
                Err(ContourDrawingError::IllegalPointCount(PointType::Line, controls.len()))
            } else {
                segments.push(PathEl::LineTo(p));
                proof {
                    assert(final(segments)@ =~= old(segments)@ + seq![PathEl::LineTo(p)]);
                }
                Ok(())
            }
        },
        PointType::QCurve => {
            if controls.len() == 0 {
                segments.push(PathEl::LineTo(p));
                proof {
                    assert(final(segments)@ =~= old(segments)@ + seq![PathEl::LineTo(p)]);
                }
            } else {
                let n = controls.len();
                let mut i: usize = 0;
                proof {
                    assert(controls@.skip(0) =~= controls@);
                }
                while i + 1 < n
                    invariant
                        n == controls@.len(),
                        controls@ == old(controls)@,
                        n >= 1,
                        i + 1 <= n,
                        segments@ + quad_chain(controls@.skip(i as int), p) == old(segments)@
                            + quad_chain(controls@, p),
                    decreases n - i,
                {
                    let c = controls[i];
                    let cn = controls[i + 1];
                    let m = midpoint_exec(c, cn);
                    let ghost before = segments@;
                    proof {
                        let rest = controls@.skip(i as int);
                        assert(rest.drop_first() =~= controls@.skip(i + 1));
                        assert(quad_chain(rest, p) == seq![PathEl::QuadTo(c, m)] + quad_chain(
                            controls@.skip(i + 1),
                            p,
                        ));
                    }
                    segments.push(PathEl::QuadTo(c, m));
                    proof {
                        let q = quad_chain(controls@.skip(i + 1), p);
                        assert(segments@ + q =~= before + (seq![PathEl::QuadTo(c, m)] + q));
                    }
                    i = i + 1;
                }
                proof {
                    let rest = controls@.skip(n - 1);
                    assert(rest =~= seq![controls@[n - 1]]);
                }
                let last = controls[n - 1];
                segments.push(PathEl::QuadTo(last, p));
                proof {
                    assert(segments@ =~= old(segments)@ + quad_chain(old(controls)@, p));
                }
                controls.clear();
            }
            Ok(())
        },
        PointType::Curve => {
            if controls.len() == 0 {
                segments.push(PathEl::LineTo(p));
                proof {
                    assert(final(segments)@ =~= old(segments)@ + seq![PathEl::LineTo(p)]);
                }
                Ok(())
            } else if controls.len() == 1 {
                let c = controls[0];
                segments.push(PathEl::QuadTo(c, p));
                proof {
                    assert(final(segments)@ =~= old(segments)@ + seq![PathEl::QuadTo(c, p)]);
                }
                controls.clear();
                Ok(())
            } else if controls.len() == 2 {
                let c0 = controls[0];
                let c1 = controls[1];
                segments.push(PathEl::CurveTo(c0, c1, p));
                proof {
                    assert(final(segments)@ =~= old(segments)@ + seq![PathEl::CurveTo(c0, c1, p)]);
                }
                controls.clear();
                Ok(())
            } else {
                Err(ContourDrawingError::UnsupportedSegmentDegree(controls.len()))
            }
        },
        PointType::OffCurve => Ok(()),
    }
}

/// The decoded segments as a sequence, when decoding succeeded.
pub open spec fn segments_match(
    r: Result<Vec<PathEl>, ContourDrawingError>,
    spec: Result<Seq<PathEl>, ContourDrawingError>,
) -> bool {
    match spec {
        Ok(t) => r is Ok && r->Ok_0@ == t,
        Err(e) => r == Err::<Vec<PathEl>, ContourDrawingError>(e),
    }
}

pub proof fn lemma_prepend_assoc(a: Seq<PathEl>, b: Seq<PathEl>, r: Result<Seq<PathEl>, ContourDrawingError>)
    ensures
        prepend(a, prepend(b, r)) == prepend(a + b, r),
{
    if let Ok(t) = r {
        assert(a + (b + t) =~= (a + b) + t);
    }
}

/// Walks `pts` forward behind the segments already in `segments`.
fn walk_exec(pts: &Vec<ContourPoint>, segments: Vec<PathEl>) -> (r: Result<
    Vec<PathEl>,
    ContourDrawingError,
>)
    ensures
        segments_match(r, prepend(segments@, walk(pts@, Seq::empty()))),
{
    let mut segments = segments;
    let ghost init = segments@;
    let mut controls: Vec<Point> = Vec::new();
    let mut i: usize = 0;
    proof {
        assert(pts@.skip(0) =~= pts@);
    }
    while i < pts.len()
        invariant
            i <= pts@.len(),
            prepend(segments@, walk(pts@.skip(i as int), controls@)) == prepend(
                init,
                walk(pts@, Seq::empty()),
            ),
        decreases pts@.len() - i,
    {
        let pt = &pts[i];
        let p = point_of(pt);
        proof {
            assert(pts@.skip(i as int).drop_first() =~= pts@.skip(i + 1));
            assert(pts@.skip(i as int)[0] == *pt);
        }
        if pt.typ == PointType::OffCurve {
            controls.push(p);
        } else {
            let ghost before = segments@;
            let ghost cs = controls@;
            let res = flush_exec(pt.typ, &mut controls, p, &mut segments);
            match res {
                Err(e) => {
                    return Err(e);
                },
                Ok(()) => {
                    proof {
                        let s = flush(pt.typ, cs, p)->Ok_0;
                        lemma_prepend_assoc(before, s, walk(pts@.skip(i + 1), Seq::empty()));
                        assert(controls@ =~= Seq::<Point>::empty());
                    }
                },
            }
        }
        i = i + 1;
    }
    if controls.len() != 0 {
        return Err(ContourDrawingError::TrailingOffCurves);
    }
    proof {
        assert(segments@ + Seq::<PathEl>::empty() =~= segments@);
    }
    Ok(segments)
}

fn first_on_curve_exec(pts: &Vec<ContourPoint>) -> (r: usize)
    ensures
        r == first_on_curve(pts@),
{
    proof {
        lemma_first_on_curve(pts@);
    }
    let mut i: usize = 0;
    while i < pts.len()
        invariant
            i <= pts@.len(),
            i <= first_on_curve(pts@),
            0 <= first_on_curve(pts@) <= pts@.len(),
            forall|j: int| 0 <= j < first_on_curve(pts@) ==> !is_on_curve(#[trigger] pts@[j]),
            first_on_curve(pts@) < pts@.len() ==> is_on_curve(pts@[first_on_curve(pts@)]),
        decreases pts@.len() - i,
    {
        if pts[i].typ != PointType::OffCurve {
            return i;
        }
        i = i + 1;
    }
    i
}

/// The points of `pts` from index `k` on, followed by those before `k`.
fn rotate_exec(pts: &Vec<ContourPoint>, k: usize) -> (r: Vec<ContourPoint>)
    requires
        k <= pts@.len(),
    ensures
        r@ == rotate(pts@, k as int),
{
    let mut out: Vec<ContourPoint> = Vec::new();
    let mut i: usize = k;
    while i < pts.len()
        invariant
            k <= i <= pts@.len(),
            out@ == pts@.subrange(k as int, i as int),
        decreases pts@.len() - i,
    {
        out.push(pts[i]);
        i = i + 1;
        proof {
            assert(out@ =~= pts@.subrange(k as int, i as int));
        }
    }
    let mut j: usize = 0;
    while j < k
        invariant
            j <= k <= pts@.len(),
            out@ == pts@.subrange(k as int, pts@.len() as int) + pts@.subrange(0, j as int),
        decreases k - j,
    {
        out.push(pts[j]);
        j = j + 1;
        proof {
            assert(out@ =~= pts@.subrange(k as int, pts@.len() as int) + pts@.subrange(0, j as int));
        }
    }
    out
}

/// Decodes one contour into path segments.
///
/// An empty contour gives no segments and a single point gives one `MoveTo`.
/// A contour that starts with a `Move` point is open; any other is closed,
/// is walked from just after its first on-curve point round to that point,
/// and ends with `ClosePath`. A closed contour without on-curve points gets
/// one implied on-curve point between its last and first control points.
pub fn contour_segments(contour: &Contour) -> (r: Result<Vec<PathEl>, ContourDrawingError>)
    ensures
        segments_match(r, decode(contour.points@)),
{
    let pts = &contour.points;
    let n = pts.len();
    if n == 0 {
        return Ok(Vec::new());
    }
    if n == 1 {
        let mut v: Vec<PathEl> = Vec::new();
        v.push(PathEl::MoveTo(point_of(&pts[0])));
        proof {
            assert(v@ =~= seq![PathEl::MoveTo(pos(pts@[0]))]);
        }
        return Ok(v);
    }
    if pts[0].typ == PointType::Move {
        let mut start: Vec<PathEl> = Vec::new();
        start.push(PathEl::MoveTo(point_of(&pts[0])));
        let mut tail: Vec<ContourPoint> = Vec::new();
        let mut i: usize = 1;
        while i < n
            invariant
                1 <= i <= n,
                n == pts@.len(),
                tail@ == pts@.subrange(1, i as int),
            decreases n - i,
        {
            tail.push(pts[i]);
            i = i + 1;
            proof {
                assert(tail@ =~= pts@.subrange(1, i as int));
            }
        }
        proof {
            assert(tail@ =~= pts@.drop_first());
            assert(start@ =~= seq![PathEl::MoveTo(pos(pts@[0]))]);
        }
        return walk_exec(&tail, start);
    }
    let k = first_on_curve_exec(pts);
    let mut start: Vec<PathEl> = Vec::new();
    let walked;
    if k < n {
        start.push(PathEl::MoveTo(point_of(&pts[k])));
        let rotated = rotate_exec(pts, k + 1);
        proof {
            assert(start@ =~= seq![PathEl::MoveTo(pos(pts@[k as int]))]);
        }
        walked = walk_exec(&rotated, start);
    } else {
        let first = point_of(&pts[0]);
        let last = point_of(&pts[n - 1]);
        let m = midpoint_exec(last, first);
        let imp = ContourPoint { x: m.x, y: m.y, typ: PointType::QCurve, smooth: false };
        let mut all = pts.clone();
        proof {
            assert(all@ =~= pts@);
        }
        all.push(imp);
        start.push(PathEl::MoveTo(m));
        proof {
            assert(imp == implied_on_curve(pts@));
            assert(start@ =~= seq![PathEl::MoveTo(pos(imp))]);
        }
        walked = walk_exec(&all, start);
    }
    match walked {
        Ok(mut segs) => {
            segs.push(PathEl::ClosePath);
            Ok(segs)
        },
        Err(e) => Err(e),
    }
}

/// The segments of `r`, or its error, after those of `l` when `l` succeeded.
pub open spec fn combine(
    l: Result<Seq<PathEl>, ContourDrawingError>,
    r: Result<Seq<PathEl>, ContourDrawingError>,
) -> Result<Seq<PathEl>, ContourDrawingError> {
    match l {
        Ok(s) => prepend(s, r),
        Err(e) => Err(e),
    }
}

/// A walk splits after any on-curve point: the control buffer is empty there.
pub proof fn lemma_walk_split(x: Seq<ContourPoint>, y: Seq<ContourPoint>, cs: Seq<Point>)
    requires
        x.len() > 0,
        is_on_curve(x.last()),
    ensures
        walk(x + y, cs) == combine(walk(x, cs), walk(y, Seq::empty())),
    decreases x.len(),
{
    assert((x + y)[0] == x[0]);
    assert((x + y).drop_first() =~= x.drop_first() + y);
    if !is_on_curve(x[0]) {
        assert(x.drop_first().last() == x.last());
        lemma_walk_split(x.drop_first(), y, cs.push(pos(x[0])));
    } else {
        match flush(x[0].typ, cs, pos(x[0])) {
            Ok(s) => {
                if x.len() == 1 {
                    assert(x.drop_first() + y =~= y);
                    assert(s + Seq::<PathEl>::empty() =~= s);
                } else {
                    assert(x.drop_first().last() == x.last());
                    lemma_walk_split(x.drop_first(), y, Seq::empty());
                    let a = walk(x.drop_first(), Seq::empty());
                    if let Ok(t) = a {
                        lemma_prepend_assoc(s, t, walk(y, Seq::empty()));
                    }
                }
            },
            Err(e) => {},
        }
    }
}

/// Swapping two pieces that each end on an on-curve point rotates the segments.
proof fn lemma_walk_swap(x: Seq<ContourPoint>, z: Seq<ContourPoint>)
    requires
        x.len() > 0,
        z.len() > 0,
        is_on_curve(x.last()),
        is_on_curve(z.last()),
    ensures
        walk(x + z, Seq::empty()) is Ok <==> walk(z + x, Seq::empty()) is Ok,
        walk(x + z, Seq::empty()) is Ok ==> walk(z + x, Seq::empty())->Ok_0 == rotate_segments(
            walk(x + z, Seq::empty())->Ok_0,
            walk(x, Seq::empty())->Ok_0.len() as int,
        ),
{
    lemma_walk_split(x, z, Seq::empty());
    lemma_walk_split(z, x, Seq::empty());
    let a = walk(x, Seq::empty());
    let b = walk(z, Seq::empty());
    if let (Ok(s), Ok(t)) = (a, b) {
        assert((s + t).subrange(s.len() as int, (s + t).len() as int) =~= t);
        assert((s + t).subrange(0, s.len() as int) =~= s);
    }
}

/// `s` rotated left by `k`.
pub open spec fn rotate_segments(s: Seq<PathEl>, k: int) -> Seq<PathEl> {
    s.subrange(k, s.len() as int) + s.subrange(0, k)
}

/// The segments of a closed contour between its `MoveTo` and its `ClosePath`.
pub open spec fn body(s: Seq<PathEl>) -> Seq<PathEl> {
    s.subrange(1, s.len() - 1)
}

/// Decoding is a function of the points alone: decoding the same contour
/// twice gives the same result.
pub proof fn lemma_decode_idempotent(c1: Seq<ContourPoint>, c2: Seq<ContourPoint>)
    requires
        c1 == c2,
    ensures
        decode(c1) == decode(c2),
{
}

/// Rotation invariance: a closed contour stored as `x + z` and the same
/// contour stored from another point, as `z + x`, where each piece ends on
/// an on-curve point, decode alike: both fail or both succeed, and then their
/// segments between `MoveTo` and `ClosePath` are cyclic rotations of each
/// other.
pub proof fn lemma_rotation_invariance(x: Seq<ContourPoint>, z: Seq<ContourPoint>)
    requires
        x.len() > 0,
        z.len() > 0,
        is_on_curve(x.last()),
        is_on_curve(z.last()),
        x[0].typ != PointType::Move,
        z[0].typ != PointType::Move,
    ensures
        decode(x + z) is Ok <==> decode(z + x) is Ok,
        decode(x + z) is Ok ==> exists|k: int|
            0 <= k <= body(decode(x + z)->Ok_0).len() && body(decode(z + x)->Ok_0)
                == rotate_segments(body(decode(x + z)->Ok_0), k),
{
    let xz = x + z;
    let zx = z + x;
    lemma_first_on_curve(xz);
    lemma_first_on_curve(zx);
    lemma_first_on_curve(x);
    lemma_first_on_curve(z);
    let k1 = first_on_curve(xz);
    let k2 = first_on_curve(zx);
    // The first on-curve point of `x + z` lies in `x`, that of `z + x` in `z`.
    assert(xz[x.len() - 1] == x.last());
    assert(zx[z.len() - 1] == z.last());
    assert(k1 < x.len());
    assert(k2 < z.len());
    assert(xz[0] == x[0]);
    assert(zx[0] == z[0]);
    let u = x.subrange(0, k1 + 1);
    let v = x.subrange(k1 + 1, x.len() as int);
    let pp = z.subrange(0, k2 + 1);
    let q = z.subrange(k2 + 1, z.len() as int);
    assert(rotate(xz, k1 + 1) =~= (v + pp) + (q + u));
    assert(rotate(zx, k2 + 1) =~= (q + u) + (v + pp));
    assert(xz[k1] == x[k1]);
    assert(zx[k2] == z[k2]);
    assert((v + pp).last() == pp.last());
    assert(pp.last() == z[k2]);
    assert((q + u).last() == u.last());
    assert(u.last() == x[k1]);
    lemma_walk_swap(v + pp, q + u);
    let w1 = walk(rotate(xz, k1 + 1), Seq::empty());
    let w2 = walk(rotate(zx, k2 + 1), Seq::empty());
    if let Ok(t1) = w1 {
        let k = walk(v + pp, Seq::empty())->Ok_0.len() as int;
        let d1 = decode(xz)->Ok_0;
        let d2 = decode(zx)->Ok_0;
        assert(d1 == (seq![PathEl::MoveTo(pos(xz[k1]))] + t1).push(PathEl::ClosePath));
        assert(body(d1) =~= t1);
        assert(body(d2) =~= w2->Ok_0);
        lemma_walk_split(v + pp, q + u, Seq::empty());
        assert(0 <= k <= t1.len());
    }
}

/// An all-off-curve quadratic contour of three control points decodes to a
/// closed chain of quadratics from and to the implied on-curve point midway
/// between the last and the first control point, with one more implied point
/// midway between each pair of neighbouring controls.
pub proof fn lemma_implied_on_curve(c0: ContourPoint, c1: ContourPoint, c2: ContourPoint)
    requires
        c0.typ == PointType::OffCurve,
        c1.typ == PointType::OffCurve,
        c2.typ == PointType::OffCurve,
    ensures
        ({
            let (p0, p1, p2) = (pos(c0), pos(c1), pos(c2));
            let m = midpoint(p2, p0);
            decode(seq![c0, c1, c2]) == Ok::<Seq<PathEl>, ContourDrawingError>(
                seq![
                    PathEl::MoveTo(m),
                    PathEl::QuadTo(p0, midpoint(p0, p1)),
                    PathEl::QuadTo(p1, midpoint(p1, p2)),
                    PathEl::QuadTo(p2, m),
                    PathEl::ClosePath,
                ],
            )
        }),
{
    let pts = seq![c0, c1, c2];
    let (p0, p1, p2) = (pos(c0), pos(c1), pos(c2));
    let m = midpoint(p2, p0);
    let imp = implied_on_curve(pts);
    assert(pts.drop_first() =~= seq![c1, c2]);
    assert(seq![c1, c2].drop_first() =~= seq![c2]);
    assert(seq![c2].drop_first() =~= Seq::<ContourPoint>::empty());
    assert(first_on_curve(Seq::<ContourPoint>::empty()) == 0);
    assert(first_on_curve(seq![c2]) == 1);
    assert(first_on_curve(seq![c1, c2]) == 2);
    assert(first_on_curve(pts) == 3);
    assert(pos(imp) == m);
    let all = pts.push(imp);
    let cs = seq![p0, p1, p2];
    assert(all.drop_first() =~= seq![c1, c2, imp]);
    assert(seq![c1, c2, imp].drop_first() =~= seq![c2, imp]);
    assert(seq![c2, imp].drop_first() =~= seq![imp]);
    assert(seq![imp].drop_first() =~= Seq::<ContourPoint>::empty());
    assert(Seq::<Point>::empty().push(p0) =~= seq![p0]);
    assert(seq![p0].push(p1) =~= seq![p0, p1]);
    assert(seq![p0, p1].push(p2) =~= cs);
    assert(cs.drop_first() =~= seq![p1, p2]);
    assert(seq![p1, p2].drop_first() =~= seq![p2]);
    let q0 = PathEl::QuadTo(p0, midpoint(p0, p1));
    let q1 = PathEl::QuadTo(p1, midpoint(p1, p2));
    let q2 = PathEl::QuadTo(p2, m);
    assert(quad_chain(seq![p2], m) == seq![q2]);
    assert(quad_chain(seq![p1, p2], m) == seq![q1] + seq![q2]);
    assert(seq![q1] + seq![q2] =~= seq![q1, q2]);
    assert(quad_chain(cs, m) == seq![q0] + seq![q1, q2]);
    assert(seq![q0] + seq![q1, q2] =~= seq![q0, q1, q2]);
    let chain = seq![q0, q1, q2];
    assert(walk(Seq::<ContourPoint>::empty(), Seq::empty()) == Ok::<Seq<PathEl>, ContourDrawingError>(Seq::empty()));
    assert(chain + Seq::<PathEl>::empty() =~= chain);
    assert(walk(seq![imp], cs) == Ok::<Seq<PathEl>, ContourDrawingError>(chain));
    assert(walk(seq![c2, imp], seq![p0, p1]) == walk(seq![imp], cs));
    assert(walk(seq![c1, c2, imp], seq![p0]) == walk(seq![c2, imp], seq![p0, p1]));
    assert(walk(all, Seq::empty()) == walk(seq![c1, c2, imp], seq![p0]));
    assert((seq![PathEl::MoveTo(m)] + chain).push(PathEl::ClosePath) =~= seq![
        PathEl::MoveTo(m),
        q0,
        q1,
        q2,
        PathEl::ClosePath,
    ]);
}

/// A `Line` point right after a buffered off-curve point makes an open
/// contour fail with `IllegalPointCount`, whatever follows.
pub proof fn lemma_line_after_off_curve(
    start: ContourPoint,
    control: ContourPoint,
    line: ContourPoint,
    rest: Seq<ContourPoint>,
)
    requires
        start.typ == PointType::Move,
        control.typ == PointType::OffCurve,
        line.typ == PointType::Line,
    ensures
        decode(seq![start, control, line] + rest) == Err::<Seq<PathEl>, ContourDrawingError>(
            ContourDrawingError::IllegalPointCount(PointType::Line, 1),
        ),
{
    let pts = seq![start, control, line] + rest;
    let tail = seq![line] + rest;
    let cs = Seq::<Point>::empty().push(pos(control));
    assert(pts[0] == start);
    assert(pts.drop_first() =~= seq![control, line] + rest);
    assert((seq![control, line] + rest).drop_first() =~= tail);
    assert((seq![control, line] + rest)[0] == control);
    assert(tail[0] == line);
    assert(cs.len() == 1);
    let e = ContourDrawingError::IllegalPointCount(PointType::Line, 1);
    assert(flush(PointType::Line, cs, pos(line)) == Err::<Seq<PathEl>, ContourDrawingError>(e));
    assert(walk(tail, cs) == Err::<Seq<PathEl>, ContourDrawingError>(e));
    assert(walk(seq![control, line] + rest, Seq::empty()) == walk(tail, cs));
}

} // verus!
