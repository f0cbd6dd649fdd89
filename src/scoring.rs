use crate::raster::{Raster, Rgb};
use crate::shapes::Point;
use vstd::prelude::*;

verus! {

pub open spec fn channel_diff(a: u8, b: u8) -> int {
    if a >= b { a - b } else { b - a }
}

/// Sum of absolute channel differences.
pub open spec fn l1(a: Rgb, b: Rgb) -> int {
    channel_diff(a.r, b.r) + channel_diff(a.g, b.g) + channel_diff(a.b, b.b)
}

pub open spec fn on_raster(r: &Raster, p: Point) -> bool {
    r.contains(p.0 as int, p.1 as int)
}

/// Σ over the on-raster cells of `fp` of the distance from `r`'s color to `c`.
pub open spec fn color_error(r: &Raster, fp: Seq<Point>, c: Rgb) -> int
    decreases fp.len(),
{
    if fp.len() == 0 {
        0
    } else {
        let p = fp.last();
        color_error(r, fp.drop_last(), c) + if on_raster(r, p) {
            l1(r.at(p.0 as int, p.1 as int), c)
        } else {
            0
        }
    }
}

/// Σ over the on-raster cells of `fp` of the distance between target and canvas.
pub open spec fn canvas_error(target: &Raster, canvas: &Raster, fp: Seq<Point>) -> int
    decreases fp.len(),
{
    if fp.len() == 0 {
        0
    } else {
        let p = fp.last();
        canvas_error(target, canvas, fp.drop_last()) + if on_raster(target, p) {
            l1(target.at(p.0 as int, p.1 as int), canvas.at(p.0 as int, p.1 as int))
        } else {
            0
        }
    }
}

/// A proposal is kept exactly when painting it would fit the target strictly
/// better, over its own footprint, than the canvas does now.
pub open spec fn accepts(target: &Raster, canvas: &Raster, fp: Seq<Point>, c: Rgb) -> bool {
    color_error(target, fp, c) < canvas_error(target, canvas, fp)
}

/// Whether `fp` covers the cell (x, y).
pub open spec fn covers(fp: Seq<Point>, x: int, y: int) -> bool {
    fp.contains((x as u32, y as u32))
}

fn channel_dist(a: u8, b: u8) -> (d: u128)
    ensures
        d as int == channel_diff(a, b),
{
    if a >= b {
        (a - b) as u128
    } else {
        (b - a) as u128
    }
}

fn l1_dist(a: Rgb, b: Rgb) -> (d: u128)
    ensures
        d as int == l1(a, b),
        d <= 765,
{
    channel_dist(a.r, b.r) + channel_dist(a.g, b.g) + channel_dist(a.b, b.b)
}

/// Both error sums over `fp`: (canvas against target, candidate color against target).
pub fn error_sums(target: &Raster, canvas: &Raster, fp: &Vec<Point>, c: Rgb) -> (r: (
    u128,
    u128,
))
    requires
        target.wf(),
        canvas.wf(),
        canvas.same_shape(target),
    ensures
        r.0 as int == canvas_error(target, canvas, fp@),
        r.1 as int == color_error(target, fp@, c),
{
    let mut cur: u128 = 0;
    let mut cand: u128 = 0;
    let mut i: usize = 0;
    while i < fp.len()
        invariant
            target.wf(),
            canvas.wf(),
            canvas.same_shape(target),
            i <= fp@.len(),
            cur as int == canvas_error(target, canvas, fp@.take(i as int)),
            cand as int == color_error(target, fp@.take(i as int), c),
            cur <= 765 * i,
            cand <= 765 * i,
        decreases fp@.len() - i,
    {
        let (x, y) = fp[i];
        proof {
            assert(fp@.take(i + 1).drop_last() =~= fp@.take(i as int));
        }
        if target.in_bounds(x, y) {
            let t = target.get(x, y);
            cur = cur + l1_dist(t, canvas.get(x, y));
            cand = cand + l1_dist(t, c);
        }
        i = i + 1;
    }
    proof {
        assert(fp@.take(i as int) =~= fp@);
    }
    (cur, cand)
}

/// Decides whether the proposal of color `c` over `fp` is kept.
pub fn accept(target: &Raster, canvas: &Raster, fp: &Vec<Point>, c: Rgb) -> (r: bool)
    requires
        target.wf(),
        canvas.wf(),
        canvas.same_shape(target),
    ensures
        r == accepts(target, canvas, fp@, c),
{
    let (cur, cand) = error_sums(target, canvas, fp, c);
    cand < cur
}

/// Paints every on-canvas cell of `points` with `color`.
pub fn draw(canvas: &mut Raster, points: &Vec<Point>, color: Rgb)
    requires
        old(canvas).wf(),
    ensures
        final(canvas).wf(),
        final(canvas).same_shape(old(canvas)),
        forall|x: int, y: int|
            #![trigger final(canvas).at(x, y)]
            final(canvas).contains(x, y) ==> final(canvas).at(x, y) == if covers(points@, x, y) {
                color
            } else {
                old(canvas).at(x, y)
            },
{
    let mut i: usize = 0;
    while i < points.len()
        invariant
            canvas.wf(),
            canvas.same_shape(old(canvas)),
            i <= points@.len(),
            forall|x: int, y: int|
                #![trigger canvas.at(x, y)]
                canvas.contains(x, y) ==> canvas.at(x, y) == if covers(points@.take(i as int), x, y) {
                    color
                } else {
                    old(canvas).at(x, y)
                },
        decreases points@.len() - i,
    {
        let (x, y) = points[i];
        let ghost prev = *canvas;
        proof {
            assert(points@.take(i + 1) =~= points@.take(i as int).push((x, y)));
        }
        if canvas.in_bounds(x, y) {
            canvas.set(x, y, color);
        }
        proof {
            assert forall|u: int, v: int|
                #![trigger canvas.at(u, v)]
                canvas.contains(u, v) implies canvas.at(u, v) == if covers(
                    points@.take(i + 1),
                    u,
                    v,
                ) {
                    color
                } else {
                    old(canvas).at(u, v)
                } by {
                assert(prev.contains(u, v));
                let t = points@.take(i as int);
                if u == x && v == y {
                    assert(points@.take(i + 1)[i as int] == (u as u32, v as u32));
                } else {
                    assert((u as u32, v as u32) != (x, y));
                    if covers(t, u, v) {
                        let k = choose|k: int| 0 <= k < t.len() && t[k] == (u as u32, v as u32);
                        assert(points@.take(i + 1)[k] == (u as u32, v as u32));
                    }
                    if covers(points@.take(i + 1), u, v) {
                        let s1 = points@.take(i + 1);
                        let k = choose|k: int| 0 <= k < s1.len() && s1[k] == (u as u32, v as u32);
                        assert(k != i);
                        assert(t[k] == (u as u32, v as u32));
                    }
                }
            }
        }
        i = i + 1;
    }
    proof {
        assert(points@.take(i as int) =~= points@);
    }
}

/// Once every on-raster cell of `fp` holds `c`, the color error of `c` over
/// `fp` against that raster is zero.
proof fn lemma_painted_error_zero(r: &Raster, fp: Seq<Point>, c: Rgb)
    requires
        forall|x: int, y: int| r.contains(x, y) && covers(fp, x, y) ==> r.at(x, y) == c,
    ensures
        color_error(r, fp, c) == 0,
    decreases fp.len(),
{
    if fp.len() > 0 {
        let q = fp.drop_last();
        assert forall|x: int, y: int| r.contains(x, y) && covers(q, x, y) implies r.at(x, y)
            == c by {
            let k = choose|k: int| 0 <= k < q.len() && q[k] == (x as u32, y as u32);
            assert(fp[k] == (x as u32, y as u32));
        }
        lemma_painted_error_zero(r, q, c);
        let p = fp.last();
        if on_raster(r, p) {
            assert(fp[fp.len() - 1] == (p.0 as int as u32, p.1 as int as u32));
            assert(covers(fp, p.0 as int, p.1 as int));
        }
    }
}

/// After a commit of `c` over `fp` (the canvas `after` is `before` with `c`
/// written at every covered cell), recomputing the candidate error of `c`
/// over `fp` against the updated canvas gives zero.
pub proof fn lemma_commit_fits_color(before: &Raster, after: &Raster, fp: Seq<Point>, c: Rgb)
    requires
        after.wf(),
        after.same_shape(before),
        forall|x: int, y: int|
            #![trigger after.at(x, y)]
            after.contains(x, y) ==> after.at(x, y) == if covers(fp, x, y) {
                c
            } else {
                before.at(x, y)
            },
    ensures
        color_error(after, fp, c) == 0,
{
    assert forall|x: int, y: int| after.contains(x, y) && covers(fp, x, y) implies after.at(x, y)
        == c by {
        assert(after.at(x, y) == c);
    }
    lemma_painted_error_zero(after, fp, c);
}

/// Acceptance depends on nothing but the target, the canvas, the footprint
/// and the color: two decisions on equal inputs agree.
pub proof fn lemma_accept_deterministic(
    t1: &Raster,
    c1: &Raster,
    f1: Seq<Point>,
    k1: Rgb,
    t2: &Raster,
    c2: &Raster,
    f2: Seq<Point>,
    k2: Rgb,
)
    requires
        *t1 == *t2,
        *c1 == *c2,
        f1 == f2,
        k1 == k2,
    ensures
        accepts(t1, c1, f1, k1) == accepts(t2, c2, f2, k2),
{
}

} // verus!
