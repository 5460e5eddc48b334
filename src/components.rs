//! Composite glyphs: components resolved to absolute contours, and the
//! assembly of a glyph's path.
use vstd::prelude::*;
use crate::arith::floor_div;
use crate::outline::{
    Contour, ContourPoint, ContourDrawingError, PathEl, contour_segments, decode, combine, prepend,
    segments_match, lemma_prepend_assoc,
};

verus! {

/// One in fixed point: transform coefficients are in units of 1/16384.
pub const TRANSFORM_ONE: i64 = 16384;

/// Largest magnitude of a transform coefficient or offset.
pub const TRANSFORM_LIMIT: i64 = 16777216;

/// Deepest nesting of component references that is followed; deeper ones,
/// as in a reference cycle, contribute nothing.
pub const MAX_COMPONENT_DEPTH: usize = 64;

/// A 2D affine transform: `x' = xx*x + yx*y + dx`, `y' = xy*x + yy*y + dy`,
/// with the matrix in units of `1/TRANSFORM_ONE` and the offsets in design
/// units.
#[derive(Clone, Copy, Debug, PartialEq, Eq, Structural)]
pub struct Transform {
    pub xx: i64,
    pub xy: i64,
    pub yx: i64,
    pub yy: i64,
    pub dx: i64,
    pub dy: i64,
}

/// A reference to the glyph at index `base` of the layer, placed by
/// `transform`. An index outside the layer is a dangling reference.
#[derive(Clone, Copy, Debug, PartialEq, Eq, Structural)]
pub struct Component {
    pub base: usize,
    pub transform: Transform,
}

/// A glyph's outline: its own contours and its component references.
#[derive(Clone, Debug)]
pub struct Outline {
    pub contours: Vec<Contour>,
    pub components: Vec<Component>,
}

/// A glyph of a layer; `None` for a glyph without outline, such as a space.
#[derive(Clone, Debug)]
pub struct Glyph {
    pub outline: Option<Outline>,
}

pub open spec fn in_limit(v: int) -> bool {
    -TRANSFORM_LIMIT <= v <= TRANSFORM_LIMIT
}

pub open spec fn transform_ok(t: Transform) -> bool {
    in_limit(t.xx as int) && in_limit(t.xy as int) && in_limit(t.yx as int) && in_limit(
        t.yy as int,
    ) && in_limit(t.dx as int) && in_limit(t.dy as int)
}

/// Every component of every glyph of the layer has a transform in range.
pub open spec fn layer_ok(layer: Seq<Glyph>) -> bool {
    forall|g: int, k: int|
        0 <= g < layer.len() && layer[g].outline is Some && 0 <= k
            < layer[g].outline->Some_0.components@.len() ==> transform_ok(
            #[trigger] layer[g].outline->Some_0.components@[k].transform,
        )
}

pub open spec fn fx(v: int) -> int {
    v / (TRANSFORM_ONE as int)
}

/// `a` after `b`: `b` applied first. `None` when a coefficient leaves the
/// range.
pub open spec fn compose(a: Transform, b: Transform) -> Option<Transform> {
    let xx = fx(a.xx * b.xx + a.yx * b.xy);
    let xy = fx(a.xy * b.xx + a.yy * b.xy);
    let yx = fx(a.xx * b.yx + a.yx * b.yy);
    let yy = fx(a.xy * b.yx + a.yy * b.yy);
    let dx = fx(a.xx * b.dx + a.yx * b.dy) + a.dx;
    let dy = fx(a.xy * b.dx + a.yy * b.dy) + a.dy;
    if in_limit(xx) && in_limit(xy) && in_limit(yx) && in_limit(yy) && in_limit(dx) && in_limit(
        dy,
    ) {
        Some(
            Transform {
                xx: xx as i64,
                xy: xy as i64,
                yx: yx as i64,
                yy: yy as i64,
                dx: dx as i64,
                dy: dy as i64,
            },
        )
    } else {
        None
    }
}

pub open spec fn fits_i32(v: int) -> bool {
    i32::MIN <= v <= i32::MAX
}

/// A point moved by `t`, or `None` when it leaves the coordinate range.
pub open spec fn apply(t: Transform, p: ContourPoint) -> Option<ContourPoint> {
    let x = fx(t.xx * p.x + t.yx * p.y) + t.dx;
    let y = fx(t.xy * p.x + t.yy * p.y) + t.dy;
    if fits_i32(x) && fits_i32(y) {
        Some(ContourPoint { x: x as i32, y: y as i32, typ: p.typ, smooth: p.smooth })
    } else {
        None
    }
}

/// The contours `cs` moved by `t`; a contour with a point out of range is left out.
pub open spec fn moved_contours(t: Transform, cs: Seq<Seq<ContourPoint>>) -> Seq<
    Seq<ContourPoint>,
>
    decreases cs.len(),
{
    if cs.len() == 0 {
        Seq::empty()
    } else {
        let c = cs[0];
        let rest = moved_contours(t, cs.drop_first());
        if forall|i: int| 0 <= i < c.len() ==> (#[trigger] apply(t, c[i])) is Some {
            seq![Seq::new(c.len(), |i: int| apply(t, c[i])->Some_0)] + rest
        } else {
            rest
        }
    }
}

pub open spec fn points_of(cs: Seq<Contour>) -> Seq<Seq<ContourPoint>> {
    cs.map_values(|c: Contour| c.points@)
}

/// The contours that the glyph at `base`, placed by `t`, contributes, with
/// `fuel` more levels of nesting followed.
pub open spec fn flat(layer: Seq<Glyph>, base: int, t: Transform, fuel: nat) -> Seq<
    Seq<ContourPoint>,
>
    decreases fuel, 0nat,
{
    if 0 <= base < layer.len() && layer[base].outline is Some {
        let o = layer[base].outline->Some_0;
        moved_contours(t, points_of(o.contours@)) + if fuel == 0 {
            Seq::empty()
        } else {
            flat_list(layer, o.components@, t, (fuel - 1) as nat)
        }
    } else {
        Seq::empty()
    }
}

/// The contours that the references `comps` of a glyph placed by `t`
/// contribute, in order.
pub open spec fn flat_list(layer: Seq<Glyph>, comps: Seq<Component>, t: Transform, fuel: nat) -> Seq<
    Seq<ContourPoint>,
>
    decreases fuel, comps.len() + 1,
{
    if comps.len() == 0 {
        Seq::empty()
    } else {
        let first = match compose(t, comps[0].transform) {
            Some(t2) => flat(layer, comps[0].base as int, t2, fuel),
            None => Seq::empty(),
        };
        first + flat_list(layer, comps.drop_first(), t, fuel)
    }
}

pub open spec fn identity() -> Transform {
    Transform { xx: TRANSFORM_ONE, xy: 0, yx: 0, yy: TRANSFORM_ONE, dx: 0, dy: 0 }
}

/// The contours of a glyph's components, resolved to absolute coordinates.
pub open spec fn decomposed(glyph: Glyph, layer: Seq<Glyph>) -> Seq<Seq<ContourPoint>> {
    match glyph.outline {
        Some(o) => flat_list(layer, o.components@, identity(), MAX_COMPONENT_DEPTH as nat),
        None => Seq::empty(),
    }
}

proof fn lemma_product_bound(a: int, b: int)
    requires
        in_limit(a),
        in_limit(b),
    ensures
        -TRANSFORM_LIMIT * TRANSFORM_LIMIT <= a * b <= TRANSFORM_LIMIT * TRANSFORM_LIMIT,
{
    let l = TRANSFORM_LIMIT as int;
    assert(-l * l <= a * b <= l * l) by (nonlinear_arith)
        requires
            -l <= a <= l,
            -l <= b <= l,
    ;
}

/// `fx(a * b + c * d)` for coefficients in range.
fn mix(a: i64, b: i64, c: i64, d: i64) -> (r: i128)
    requires
        in_limit(a as int),
        in_limit(b as int),
        in_limit(c as int),
        in_limit(d as int),
    ensures
        r == fx(a * b + c * d),
        -2 * TRANSFORM_LIMIT * TRANSFORM_LIMIT <= r <= 2 * TRANSFORM_LIMIT * TRANSFORM_LIMIT,
{
    proof {
        lemma_product_bound(a as int, b as int);
        lemma_product_bound(c as int, d as int);
    }
    let s: i128 = a as i128 * b as i128 + c as i128 * d as i128;
    floor_div(s, TRANSFORM_ONE as i128)
}

fn limited(v: i128) -> (r: bool)
    ensures
        r == in_limit(v as int),
{
    -(TRANSFORM_LIMIT as i128) <= v && v <= TRANSFORM_LIMIT as i128
}

/// `a` after `b`, or `None` when a coefficient leaves the range.
pub fn compose_transforms(a: &Transform, b: &Transform) -> (r: Option<Transform>)
    requires
        transform_ok(*a),
        transform_ok(*b),
    ensures
        r == compose(*a, *b),
        r matches Some(t) ==> transform_ok(t),
{
    let xx = mix(a.xx, b.xx, a.yx, b.xy);
    let xy = mix(a.xy, b.xx, a.yy, b.xy);
    let yx = mix(a.xx, b.yx, a.yx, b.yy);
    let yy = mix(a.xy, b.yx, a.yy, b.yy);
    let mx = mix(a.xx, b.dx, a.yx, b.dy);
    let my = mix(a.xy, b.dx, a.yy, b.dy);
    proof {
        let l = TRANSFORM_LIMIT as int;
        lemma_product_bound(a.xx as int, b.dx as int);
        lemma_product_bound(a.yx as int, b.dy as int);
        lemma_product_bound(a.xy as int, b.dx as int);
        lemma_product_bound(a.yy as int, b.dy as int);
    }
    let dx = mx + a.dx as i128;
    let dy = my + a.dy as i128;
    if limited(xx) && limited(xy) && limited(yx) && limited(yy) && limited(dx) && limited(dy) {
        Some(
            Transform {
                xx: xx as i64,
                xy: xy as i64,
                yx: yx as i64,
                yy: yy as i64,
                dx: dx as i64,
                dy: dy as i64,
            },
        )
    } else {
        proof {
            assert(compose(*a, *b) is None);
        }
        None
    }
}

/// A point moved by `t`, or `None` when it leaves the coordinate range.
fn apply_exec(t: &Transform, p: &ContourPoint) -> (r: Option<ContourPoint>)
    requires
        transform_ok(*t),
    ensures
        r == apply(*t, *p),
{
    let l = TRANSFORM_LIMIT as i128;
    let m = (i32::MAX as i128) + 1;
    proof {
        let (x, y) = (p.x as int, p.y as int);
        assert(-l * m <= t.xx * x <= l * m) by (nonlinear_arith)
            requires
                in_limit(t.xx as int),
                -m <= x <= m,
                l == TRANSFORM_LIMIT,
        ;
        assert(-l * m <= t.yx * y <= l * m) by (nonlinear_arith)
            requires
                in_limit(t.yx as int),
                -m <= y <= m,
                l == TRANSFORM_LIMIT,
        ;
        assert(-l * m <= t.xy * x <= l * m) by (nonlinear_arith)
            requires
                in_limit(t.xy as int),
                -m <= x <= m,
                l == TRANSFORM_LIMIT,
        ;
        assert(-l * m <= t.yy * y <= l * m) by (nonlinear_arith)
            requires
                in_limit(t.yy as int),
                -m <= y <= m,
                l == TRANSFORM_LIMIT,
        ;
    }
    let sx: i128 = t.xx as i128 * p.x as i128 + t.yx as i128 * p.y as i128;
    let sy: i128 = t.xy as i128 * p.x as i128 + t.yy as i128 * p.y as i128;
    let qx = floor_div(sx, TRANSFORM_ONE as i128);
    let qy = floor_div(sy, TRANSFORM_ONE as i128);
    let x = qx + t.dx as i128;
    let y = qy + t.dy as i128;
    if i32::MIN as i128 <= x && x <= i32::MAX as i128 && i32::MIN as i128 <= y && y
        <= i32::MAX as i128 {
        Some(ContourPoint { x: x as i32, y: y as i32, typ: p.typ, smooth: p.smooth })
    } else {
        None
    }
}

/// A contour moved by `t`, or `None` when one of its points leaves the range.
fn move_contour(t: &Transform, c: &Contour) -> (r: Option<Contour>)
    requires
        transform_ok(*t),
    ensures
        (forall|i: int| 0 <= i < c.points@.len() ==> (#[trigger] apply(*t, c.points@[i])) is Some)
            ==> (r matches Some(m) && m.points@ == Seq::new(
            c.points@.len(),
            |i: int| apply(*t, c.points@[i])->Some_0,
        )),
        !(forall|i: int| 0 <= i < c.points@.len() ==> (#[trigger] apply(*t, c.points@[i])) is Some)
            ==> r is None,
{
    let mut pts: Vec<ContourPoint> = Vec::new();
    let mut i: usize = 0;
    while i < c.points.len()
        invariant
            transform_ok(*t),
            i <= c.points@.len(),
            pts@.len() == i,
            forall|j: int| 0 <= j < i ==> (#[trigger] apply(*t, c.points@[j])) is Some,
            forall|j: int| 0 <= j < i ==> pts@[j] == apply(*t, c.points@[j])->Some_0,
        decreases c.points@.len() - i,
    {
        match apply_exec(t, &c.points[i]) {
            Some(q) => pts.push(q),
            None => return None,
        }
        i = i + 1;
    }
    proof {
        assert(pts@ =~= Seq::new(c.points@.len(), |i: int| apply(*t, c.points@[i])->Some_0));
    }
    Some(Contour { points: pts })
}

/// Appends the contours `cs` moved by `t` to `out`.
fn push_moved(t: &Transform, cs: &Vec<Contour>, out: &mut Vec<Contour>)
    requires
        transform_ok(*t),
    ensures
        points_of(final(out)@) == points_of(old(out)@) + moved_contours(*t, points_of(cs@)),
{
    let ghost start = points_of(out@);
    let ghost all = points_of(cs@);
    let mut i: usize = 0;
    proof {
        assert(all.skip(0) =~= all);
    }
    while i < cs.len()
        invariant
            transform_ok(*t),
            i <= cs@.len(),
            all == points_of(cs@),
            points_of(out@) + moved_contours(*t, all.skip(i as int)) == start + moved_contours(
                *t,
                all,
            ),
        decreases cs@.len() - i,
    {
        let ghost before = points_of(out@);
        let m = move_contour(t, &cs[i]);
        proof {
            assert(all.skip(i as int).drop_first() =~= all.skip(i + 1));
            assert(all.skip(i as int)[0] == cs@[i as int].points@);
        }
        match m {
            Some(c) => {
                out.push(c);
                proof {
                    let rest = moved_contours(*t, all.skip(i + 1));
                    assert(points_of(out@) =~= before.push(c.points@));
                    assert(points_of(out@) + rest =~= before + (seq![c.points@] + rest));
                }
            },
            None => {
                proof {
                    let rest = moved_contours(*t, all.skip(i + 1));
                    assert(points_of(out@) =~= before);
                }
            },
        }
        i = i + 1;
    }
    proof {
        assert(all.skip(i as int) =~= Seq::<Seq<ContourPoint>>::empty());
        assert(points_of(out@) + Seq::<Seq<ContourPoint>>::empty() =~= points_of(out@));
    }
}

/// A reference waiting on the work stack: the glyph at `base`, placed by the
/// composed `transform`, with `fuel` more levels of nesting to follow.
struct Pending {
    base: usize,
    transform: Transform,
    fuel: usize,
}

/// What the stack `st` still contributes, its top (last entry) first.
spec fn stack_flat(layer: Seq<Glyph>, st: Seq<Pending>) -> Seq<Seq<ContourPoint>>
    decreases st.len(),
{
    if st.len() == 0 {
        Seq::empty()
    } else {
        let e = st.last();
        flat(layer, e.base as int, e.transform, e.fuel as nat) + stack_flat(layer, st.drop_last())
    }
}

/// The number of references that resolving the glyph at `base` visits.
spec fn size(layer: Seq<Glyph>, base: int, t: Transform, fuel: nat) -> nat
    decreases fuel, 0nat,
{
    1 + if 0 <= base < layer.len() && layer[base].outline is Some && fuel > 0 {
        size_list(layer, layer[base].outline->Some_0.components@, t, (fuel - 1) as nat)
    } else {
        0
    }
}

spec fn size_list(layer: Seq<Glyph>, comps: Seq<Component>, t: Transform, fuel: nat) -> nat
    decreases fuel, comps.len() + 1,
{
    if comps.len() == 0 {
        0
    } else {
        let first = match compose(t, comps[0].transform) {
            Some(t2) => size(layer, comps[0].base as int, t2, fuel),
            None => 0,
        };
        first + size_list(layer, comps.drop_first(), t, fuel)
    }
}

spec fn stack_size(layer: Seq<Glyph>, st: Seq<Pending>) -> nat
    decreases st.len(),
{
    if st.len() == 0 {
        0
    } else {
        let e = st.last();
        size(layer, e.base as int, e.transform, e.fuel as nat) + stack_size(layer, st.drop_last())
    }
}

spec fn stack_ok(st: Seq<Pending>) -> bool {
    forall|i: int| 0 <= i < st.len() ==> transform_ok(#[trigger] st[i].transform)
}

pub open spec fn components_ok(comps: Seq<Component>) -> bool {
    forall|k: int| 0 <= k < comps.len() ==> transform_ok(#[trigger] comps[k].transform)
}

/// Pushes the references `comps` of a glyph placed by `t` so that the first
/// is on top.
fn push_children(
    comps: &Vec<Component>,
    t: &Transform,
    fuel: usize,
    stack: &mut Vec<Pending>,
    Ghost(layer): Ghost<Seq<Glyph>>,
)
    requires
        transform_ok(*t),
        components_ok(comps@),
        stack_ok(old(stack)@),
    ensures
        stack_ok(final(stack)@),
        stack_flat(layer, final(stack)@) == flat_list(layer, comps@, *t, fuel as nat) + stack_flat(
            layer,
            old(stack)@,
        ),
        stack_size(layer, final(stack)@) == size_list(layer, comps@, *t, fuel as nat) + stack_size(
            layer,
            old(stack)@,
        ),
{
    let ghost below = old(stack)@;
    let mut i: usize = comps.len();
    proof {
        assert(comps@.skip(comps@.len() as int) =~= Seq::<Component>::empty());
        assert(Seq::<Seq<ContourPoint>>::empty() + stack_flat(layer, below) =~= stack_flat(
            layer,
            below,
        ));
    }
    while i > 0
        invariant
            transform_ok(*t),
            components_ok(comps@),
            i <= comps@.len(),
            stack_ok(stack@),
            stack_flat(layer, stack@) == flat_list(layer, comps@.skip(i as int), *t, fuel as nat)
                + stack_flat(layer, below),
            stack_size(layer, stack@) == size_list(layer, comps@.skip(i as int), *t, fuel as nat)
                + stack_size(layer, below),
        decreases i,
    {
        let c = comps[i - 1];
        let ghost prev = stack@;
        proof {
            assert(comps@.skip(i - 1).drop_first() =~= comps@.skip(i as int));
            assert(comps@.skip(i - 1)[0] == c);
            assert(transform_ok(comps@[i - 1].transform));
        }
        match compose_transforms(t, &c.transform) {
            Some(t2) => {
                stack.push(Pending { base: c.base, transform: t2, fuel });
                proof {
                    assert(stack@.drop_last() =~= prev);
                    let f = flat(layer, c.base as int, t2, fuel as nat);
                    let rest = flat_list(layer, comps@.skip(i as int), *t, fuel as nat);
                    assert(f + (rest + stack_flat(layer, below)) =~= (f + rest) + stack_flat(
                        layer,
                        below,
                    ));
                }
            },
            None => {
                proof {
                    let rest = flat_list(layer, comps@.skip(i as int), *t, fuel as nat);
                    assert(Seq::<Seq<ContourPoint>>::empty() + rest =~= rest);
                }
            },
        }
        i = i - 1;
    }
    proof {
        assert(comps@.skip(0) =~= comps@);
    }
}

/// The contours of a glyph's components, resolved to absolute coordinates:
/// each reference's base glyph contributes its contours moved by the
/// composed transforms of the references that lead to it, outer transform
/// applied after inner. Dangling references and base glyphs without outline
/// contribute nothing.
pub fn decomposed_components(glyph: &Glyph, layer: &Vec<Glyph>) -> (r: Vec<Contour>)
    requires
        layer_ok(layer@),
        glyph.outline matches Some(o) ==> components_ok(o.components@),
    ensures
        points_of(r@) == decomposed(*glyph, layer@),
{
    let mut out: Vec<Contour> = Vec::new();
    let o = match &glyph.outline {
        None => {
            proof {
                assert(points_of(out@) =~= Seq::<Seq<ContourPoint>>::empty());
            }
            return out;
        },
        Some(o) => o,
    };
    let ghost lay = layer@;
    let id = Transform { xx: TRANSFORM_ONE, xy: 0, yx: 0, yy: TRANSFORM_ONE, dx: 0, dy: 0 };
    let mut stack: Vec<Pending> = Vec::new();
    proof {
        assert(stack_flat(lay, stack@) =~= Seq::<Seq<ContourPoint>>::empty());
        assert(stack_ok(stack@));
    }
    push_children(&o.components, &id, MAX_COMPONENT_DEPTH, &mut stack, Ghost(lay));
    let ghost target = decomposed(*glyph, lay);
    proof {
        assert(stack_flat(lay, stack@) =~= target);
        assert(points_of(out@) =~= Seq::<Seq<ContourPoint>>::empty());
        assert(points_of(out@) + stack_flat(lay, stack@) =~= target);
    }
    while stack.len() > 0
        invariant
            lay == layer@,
            layer_ok(lay),
            stack_ok(stack@),
            points_of(out@) + stack_flat(lay, stack@) == target,
        decreases stack_size(lay, stack@),
    {
        let ghost before = stack@;
        let ghost done = points_of(out@);
        let e = stack.pop().unwrap();
        proof {
            assert(stack@ == before.drop_last());
            assert(e == before.last());
            assert(transform_ok(before[before.len() - 1].transform));
        }
        if e.base < layer.len() {
            match &layer[e.base].outline {
                Some(bo) => {
                    push_moved(&e.transform, &bo.contours, &mut out);
                    let ghost moved = moved_contours(e.transform, points_of(bo.contours@));
                    if e.fuel > 0 {
                        proof {
                            assert forall|k: int| 0 <= k < bo.components@.len() implies transform_ok(
                                #[trigger] bo.components@[k].transform,
                            ) by {
                                assert(lay[e.base as int].outline->Some_0.components@[k]
                                    == bo.components@[k]);
                            }
                        }
                        push_children(&bo.components, &e.transform, e.fuel - 1, &mut stack, Ghost(lay));
                        proof {
                            let fl = flat_list(lay, bo.components@, e.transform, (e.fuel - 1) as nat);
                            let rest = stack_flat(lay, before.drop_last());
                            assert(points_of(out@) + stack_flat(lay, stack@) =~= done + ((moved + fl)
                                + rest));
                        }
                    } else {
                        proof {
                            let rest = stack_flat(lay, before.drop_last());
                            assert(moved + Seq::<Seq<ContourPoint>>::empty() =~= moved);
                            assert(points_of(out@) + stack_flat(lay, stack@) =~= done + (moved
                                + rest));
                        }
                    }
                },
                None => {
                    proof {
                        assert(Seq::<Seq<ContourPoint>>::empty() + stack_flat(lay, stack@) =~= stack_flat(lay, stack@));
                    }
                },
            }
        } else {
            proof {
                assert(Seq::<Seq<ContourPoint>>::empty() + stack_flat(lay, stack@) =~= stack_flat(lay, stack@));
            }
        }
    }
    proof {
        assert(points_of(out@) + Seq::<Seq<ContourPoint>>::empty() =~= points_of(out@));
    }
    out
}

/// The segments of the contours `cs` one after another, or the error of the
/// first contour that fails to decode.
pub open spec fn path_of(cs: Seq<Seq<ContourPoint>>) -> Result<Seq<PathEl>, ContourDrawingError>
    decreases cs.len(),
{
    if cs.len() == 0 {
        Ok(Seq::empty())
    } else {
        combine(decode(cs[0]), path_of(cs.drop_first()))
    }
}

/// The path of a glyph: its own contours, then those of its components;
/// `None` for a glyph without outline.
pub open spec fn glyph_path(glyph: Glyph, layer: Seq<Glyph>) -> Option<
    Result<Seq<PathEl>, ContourDrawingError>,
> {
    match glyph.outline {
        Some(o) => Some(path_of(points_of(o.contours@) + decomposed(glyph, layer))),
        None => None,
    }
}

proof fn lemma_combine_assoc(
    a: Result<Seq<PathEl>, ContourDrawingError>,
    b: Result<Seq<PathEl>, ContourDrawingError>,
    c: Result<Seq<PathEl>, ContourDrawingError>,
)
    ensures
        combine(a, combine(b, c)) == combine(combine(a, b), c),
{
    if let Ok(s) = a {
        if let Ok(t) = b {
            lemma_prepend_assoc(s, t, c);
        }
    }
}

proof fn lemma_path_of_append(a: Seq<Seq<ContourPoint>>, b: Seq<Seq<ContourPoint>>)
    ensures
        path_of(a + b) == combine(path_of(a), path_of(b)),
    decreases a.len(),
{
    if a.len() == 0 {
        assert(a + b =~= b);
        if let Ok(t) = path_of(b) {
            assert(Seq::<PathEl>::empty() + t =~= t);
        }
    } else {
        assert((a + b).drop_first() =~= a.drop_first() + b);
        assert((a + b)[0] == a[0]);
        lemma_path_of_append(a.drop_first(), b);
        lemma_combine_assoc(decode(a[0]), path_of(a.drop_first()), path_of(b));
    }
}

/// Appends the segments of the contours `cs` to `path`.
fn append_paths(cs: &Vec<Contour>, path: Vec<PathEl>) -> (r: Result<
    Vec<PathEl>,
    ContourDrawingError,
>)
    ensures
        segments_match(r, prepend(path@, path_of(points_of(cs@)))),
{
    let mut path = path;
    let ghost init = path@;
    let ghost all = points_of(cs@);
    let mut i: usize = 0;
    proof {
        assert(all.skip(0) =~= all);
    }
    while i < cs.len()
        invariant
            i <= cs@.len(),
            all == points_of(cs@),
            prepend(path@, path_of(all.skip(i as int))) == prepend(init, path_of(all)),
        decreases cs@.len() - i,
    {
        proof {
            assert(all.skip(i as int).drop_first() =~= all.skip(i + 1));
            assert(all.skip(i as int)[0] == cs@[i as int].points@);
        }
        match contour_segments(&cs[i]) {
            Err(e) => {
                return Err(e);
            },
            Ok(seg) => {
                let ghost before = path@;
                let mut seg = seg;
                proof {
                    lemma_prepend_assoc(before, seg@, path_of(all.skip(i + 1)));
                }
                path.append(&mut seg);
            },
        }
        i = i + 1;
    }
    proof {
        assert(all.skip(i as int) =~= Seq::<Seq<ContourPoint>>::empty());
        assert(path@ + Seq::<PathEl>::empty() =~= path@);
    }
    Ok(path)
}

/// The path of a glyph: its own contours decoded, then those of its
/// components. `Ok(None)` for a glyph without outline; the error of the first
/// contour that cannot be decoded.
pub fn path_for_glyph(glyph: &Glyph, layer: &Vec<Glyph>) -> (r: Result<
    Option<Vec<PathEl>>,
    ContourDrawingError,
>)
    requires
        layer_ok(layer@),
        glyph.outline matches Some(o) ==> components_ok(o.components@),
    ensures
        glyph_path(*glyph, layer@) is None ==> r == Ok::<Option<Vec<PathEl>>, ContourDrawingError>(
            None,
        ),
        glyph_path(*glyph, layer@) matches Some(res) ==> match res {
            Ok(s) => r matches Ok(Some(v)) && v@ == s,
            Err(e) => r == Err::<Option<Vec<PathEl>>, ContourDrawingError>(e),
        },
{
    let o = match &glyph.outline {
        None => return Ok(None),
        Some(o) => o,
    };
    let parts = decomposed_components(glyph, layer);
    let own = append_paths(&o.contours, Vec::new());
    proof {
        lemma_path_of_append(points_of(o.contours@), points_of(parts@));
        if let Ok(t) = path_of(points_of(o.contours@)) {
            assert(Seq::<PathEl>::empty() + t =~= t);
        }
    }
    match own {
        Err(e) => Err(e),
        Ok(v) => match append_paths(&parts, v) {
            Err(e) => Err(e),
            Ok(w) => Ok(Some(w)),
        },
    }
}

} // verus!
