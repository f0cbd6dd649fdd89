use crate::raster::Rgb;
use crate::shapes::{gen_line, gen_rect, line_points, rect_points, Point, ShapeKind};
use rand::rngs::StdRng;
use rand::Rng;
use vstd::prelude::*;

verus! {

#[verifier::external_type_specification]
#[verifier::external_body]
pub struct ExStdRng(StdRng);

/// Sub-pixel resolution of the drawn offsets: an offset `o` stands for `o / OFFSET_SCALE` cells.
pub const OFFSET_SCALE: u64 = 65536;

/// Relies on rand's `Rng::gen_range` over `0..n`: a value in that range,
/// drawn from the generator's stream; it panics only on an empty range.
#[verifier::external_body]
pub(crate) fn draw_below(rng: &mut StdRng, n: u64) -> (r: u64)
    requires
        n > 0,
    ensures
        r < n,
{
    rng.gen_range(0..n)
}

/// A shape kind, two anchors and a color, not yet committed.
#[derive(Clone, Copy, Debug, PartialEq, Eq, Structural)]
pub struct Proposal {
    pub kind: ShapeKind,
    pub x0: u32,
    pub y0: u32,
    pub x1: u32,
    pub y1: u32,
    pub color: Rgb,
}

/// The cells a shape of the given kind covers.
pub open spec fn footprint(kind: ShapeKind, x0: u32, y0: u32, x1: u32, y1: u32) -> Seq<Point> {
    match kind {
        ShapeKind::Line => line_points(x0, y0, x1, y1),
        ShapeKind::Rectangle => rect_points(x0, y0, x1, y1),
    }
}

/// Rasterizes a shape of the given kind.
pub fn rasterize(kind: ShapeKind, x0: u32, y0: u32, x1: u32, y1: u32) -> (r: Vec<Point>)
    ensures
        r@ == footprint(kind, x0, y0, x1, y1),
{
    match kind {
        ShapeKind::Line => gen_line(x0, y0, x1, y1),
        ShapeKind::Rectangle => gen_rect(x0, y0, x1, y1),
    }
}

/// Clamps a coordinate into `u32`.
pub open spec fn sat(v: int) -> u32 {
    if v > u32::MAX { u32::MAX } else { v as u32 }
}

/// The second anchor, for offsets `ox`, `oy` (in 1/OFFSET_SCALE cells) from
/// (x0, y0). Down goes along +y. Unless `leftward`, x grows by `ox`. When
/// `leftward` and the walk left would cross x = 0, the anchor stops where the
/// segment meets x = 0; that crossing never lies above y0, so it always exists.
pub open spec fn second_anchor_spec(x0: u32, y0: u32, ox: u64, oy: u64, leftward: bool) -> (u32, u32) {
    let s = OFFSET_SCALE as int;
    if !leftward {
        (sat(x0 + (ox as int) / s), sat(y0 + (oy as int) / s))
    } else if ox > x0 * s {
        (0, sat(y0 + (x0 * oy) / (ox as int)))
    } else {
        (((x0 * s - ox) / s) as u32, sat(y0 + (oy as int) / s))
    }
}

fn saturate(v: u128) -> (r: u32)
    ensures
        r == sat(v as int),
{
    if v > u32::MAX as u128 {
        u32::MAX
    } else {
        v as u32
    }
}

/// Computes the second anchor of a proposal; see `second_anchor_spec`.
pub fn second_anchor(x0: u32, y0: u32, ox: u64, oy: u64, leftward: bool) -> (r: (u32, u32))
    ensures
        r == second_anchor_spec(x0, y0, ox, oy, leftward),
{
    let s = OFFSET_SCALE as u128;
    let y_down = saturate(y0 as u128 + (oy as u128) / s);
    if !leftward {
        (saturate(x0 as u128 + (ox as u128) / s), y_down)
    } else if (ox as u128) > (x0 as u128) * s {
        assert((x0 as u128) * (oy as u128) <= 0xFFFF_FFFFu128 * 0xFFFF_FFFF_FFFF_FFFFu128)
            by (nonlinear_arith)
            requires
                x0 <= 0xFFFF_FFFFu32,
                oy <= 0xFFFF_FFFF_FFFF_FFFFu64,
        ;
        (0, saturate(y0 as u128 + ((x0 as u128) * (oy as u128)) / (ox as u128)))
    } else {
        let left = ((x0 as u128) * s - (ox as u128)) / s;
        proof {
            let si = OFFSET_SCALE as int;
            let d = x0 as int * si - ox as int;
            vstd::arithmetic::div_mod::lemma_div_is_ordered(d, x0 as int * si, si);
            vstd::arithmetic::div_mod::lemma_div_multiples_vanish(x0 as int, si);
            assert(d / si <= x0);
        }
        (left as u32, y_down)
    }
}

} // verus!
