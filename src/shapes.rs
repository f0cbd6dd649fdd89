use vstd::arithmetic::div_mod::lemma_fundamental_div_mod_converse;
use vstd::prelude::*;

verus! {

/// A raster cell, as (x, y).
pub type Point = (u32, u32);

/// The shape kinds a proposal can take.
#[derive(Clone, Copy, Debug, PartialEq, Eq, Structural)]
pub enum ShapeKind {
    Line,
    Rectangle,
}

pub open spec fn abs_diff(a: int, b: int) -> int {
    if a >= b { a - b } else { b - a }
}

/// Direction of travel from `a` towards `b` along one axis.
pub open spec fn step_sign(a: int, b: int) -> int {
    if a < b { 1 } else { -1 }
}

/// Starting value of the line walker's error term.
pub open spec fn line_err0(dx: int, dy: int) -> int {
    if dx > dy { dx / 2 } else { -(dy / 2) }
}

/// The fixed quantities of one line walk: target and per-axis distances and directions.
pub struct LineParams {
    pub x1: int,
    pub y1: int,
    pub dx: int,
    pub dy: int,
    pub sx: int,
    pub sy: int,
}

pub open spec fn line_params(x0: u32, y0: u32, x1: u32, y1: u32) -> LineParams {
    LineParams {
        x1: x1 as int,
        y1: y1 as int,
        dx: abs_diff(x0 as int, x1 as int),
        dy: abs_diff(y0 as int, y1 as int),
        sx: step_sign(x0 as int, x1 as int),
        sy: step_sign(y0 as int, y1 as int),
    }
}

/// One step of the walker: the error term, compared against half of each
/// axis distance, decides which coordinates advance.
pub open spec fn line_step(p: LineParams, x: int, y: int, err: int) -> (int, int, int) {
    let e2 = 2 * err;
    let (x2, err2) = if e2 > -p.dx { (x + p.sx, err - p.dy) } else { (x, err) };
    if e2 < p.dy { (x2, y + p.sy, err2 + p.dx) } else { (x2, y, err2) }
}

/// The cells visited after (x, y) until the walker reaches the target, within `fuel` steps.
pub open spec fn line_walk(p: LineParams, x: int, y: int, err: int, fuel: nat) -> Seq<Point>
    decreases fuel,
{
    if fuel == 0 || (x == p.x1 && y == p.y1) {
        seq![]
    } else {
        let (nx, ny, ne) = line_step(p, x, y, err);
        seq![(nx as u32, ny as u32)] + line_walk(p, nx, ny, ne, (fuel - 1) as nat)
    }
}

/// The cells of the line from (x0, y0) to (x1, y1), both ends included.
pub open spec fn line_points(x0: u32, y0: u32, x1: u32, y1: u32) -> Seq<Point> {
    let p = line_params(x0, y0, x1, y1);
    seq![(x0, y0)] + line_walk(
        p,
        x0 as int,
        y0 as int,
        line_err0(p.dx, p.dy),
        (p.dx + p.dy) as nat,
    )
}

/// Two cells are equal or neighbours, sideways or diagonally.
pub open spec fn touches(a: Point, b: Point) -> bool {
    abs_diff(a.0 as int, b.0 as int) <= 1 && abs_diff(a.1 as int, b.1 as int) <= 1
}

/// Consecutive cells touch.
pub open spec fn eight_connected(s: Seq<Point>) -> bool {
    forall|i: int| 0 <= i < s.len() - 1 ==> #[trigger] touches(s[i], s[i + 1])
}

/// What the walker knows after `a` steps along x and `b` along y.
proof fn lemma_line_step(dx: int, dy: int, e0: int, a: int, b: int, err: int)
    requires
        0 <= a <= dx,
        0 <= b <= dy,
        -dy <= 2 * e0 <= dx,
        err == e0 - a * dy + b * dx,
        -dy <= err <= dx,
        !(a == dx && b == dy),
    ensures
        2 * err > -dx ==> a < dx,
        2 * err < dy ==> b < dy,
        2 * err > -dx || 2 * err < dy,
{
    if a == dx && b < dy {
        assert(b * dx <= (dy - 1) * dx) by (nonlinear_arith)
            requires
                b <= dy - 1,
                0 <= dx,
        ;
        assert((dy - 1) * dx == dy * dx - dx) by (nonlinear_arith);
        assert(a * dy == dx * dy) by (nonlinear_arith)
            requires
                a == dx,
        ;
        assert(dx * dy == dy * dx) by (nonlinear_arith);
    }
    if b == dy && a < dx {
        assert(a * dy <= (dx - 1) * dy) by (nonlinear_arith)
            requires
                a <= dx - 1,
                0 <= dy,
        ;
        assert((dx - 1) * dy == dx * dy - dy) by (nonlinear_arith);
        assert(b * dx == dy * dx) by (nonlinear_arith)
            requires
                b == dy,
        ;
        assert(dx * dy == dy * dx) by (nonlinear_arith);
    }
}

/// Rasterizes the line from (x0, y0) to (x1, y1) with an integer-only
/// incremental walk that handles every octant.
pub fn gen_line(x0: u32, y0: u32, x1: u32, y1: u32) -> (line: Vec<Point>)
    ensures
        line@ == line_points(x0, y0, x1, y1),
        line@.len() >= 1,
        line@[0] == (x0, y0),
        line@.last() == (x1, y1),
        eight_connected(line@),
{
    let ghost p = line_params(x0, y0, x1, y1);
    let mut line: Vec<Point> = Vec::new();
    let mut x: i64 = x0 as i64;
    let mut y: i64 = y0 as i64;
    let tx: i64 = x1 as i64;
    let ty: i64 = y1 as i64;
    let dx: i64 = if x >= tx { x - tx } else { tx - x };
    let dy: i64 = if y >= ty { y - ty } else { ty - y };
    let sx: i64 = if x < tx { 1 } else { -1 };
    let sy: i64 = if y < ty { 1 } else { -1 };
    let mut err: i64 = if dx > dy { dx / 2 } else { -(dy / 2) };
    let ghost e0 = err as int;
    let ghost mut fuel: nat = (dx + dy) as nat;
    line.push((x0, y0));
    proof {
        assert(e0 == line_err0(p.dx, p.dy));
        assert(err == e0 - 0 * dy + 0 * dx);
    }
    while !(x == tx && y == ty)
        invariant
            p == line_params(x0, y0, x1, y1),
            dx == p.dx,
            dy == p.dy,
            sx == p.sx,
            sy == p.sy,
            tx == p.x1,
            ty == p.y1,
            0 <= dx <= u32::MAX,
            0 <= dy <= u32::MAX,
            -dy <= 2 * e0 <= dx,
            0 <= (x - x0) * sx <= dx,
            0 <= (y - y0) * sy <= dy,
            err == e0 - ((x - x0) * sx) * dy + ((y - y0) * sy) * dx,
            -dy <= err <= dx,
            fuel >= (dx - (x - x0) * sx) + (dy - (y - y0) * sy),
            line@.len() >= 1,
            line@[0] == (x0, y0),
            line@.last() == (x as u32, y as u32),
            0 <= x <= u32::MAX,
            0 <= y <= u32::MAX,
            eight_connected(line@),
            line@ + line_walk(p, x as int, y as int, err as int, fuel) == line_points(x0, y0, x1, y1),
        decreases (dx - (x - x0) * sx) + (dy - (y - y0) * sy),
    {
        let ghost a = (x - x0) * sx;
        let ghost b = (y - y0) * sy;
        proof {
            lemma_line_step(dx as int, dy as int, e0, a, b, err as int);
            assert(fuel > 0);
        }
        let ghost old_line = line@;
        let ghost (xo, yo, eo) = (x as int, y as int, err as int);
        let ghost (nx, ny, ne) = line_step(p, x as int, y as int, err as int);
        let e2: i64 = 2 * err;
        if e2 > -dx {
            err = err - dy;
            x = x + sx;
        }
        if e2 < dy {
            err = err + dx;
            y = y + sy;
        }
        line.push((x as u32, y as u32));
        proof {
            assert(x == nx && y == ny && err == ne);
            let a2 = (x - x0) * sx;
            let b2 = (y - y0) * sy;
            let xs: int = if e2 > -dx { 1 } else { 0 };
            let ys: int = if e2 < dy { 1 } else { 0 };
            assert(x == xo + xs * sx);
            assert(y == yo + ys * sy);
            assert(a2 == a + xs) by (nonlinear_arith)
                requires
                    a2 == (x - x0) * sx,
                    a == (xo - x0) * sx,
                    x == xo + xs * sx,
                    sx == 1 || sx == -1,
            ;
            assert(b2 == b + ys) by (nonlinear_arith)
                requires
                    b2 == (y - y0) * sy,
                    b == (yo - y0) * sy,
                    y == yo + ys * sy,
                    sy == 1 || sy == -1,
            ;
            assert(err == eo - xs * dy + ys * dx);
            assert(err == e0 - a2 * dy + b2 * dx) by (nonlinear_arith)
                requires
                    err == eo - xs * dy + ys * dx,
                    eo == e0 - a * dy + b * dx,
                    a2 == a + xs,
                    b2 == b + ys,
            ;
            assert(line_walk(p, xo, yo, eo, fuel) == seq![(nx as u32, ny as u32)] + line_walk(
                p,
                nx,
                ny,
                ne,
                (fuel - 1) as nat,
            ));
            assert(line@ + line_walk(p, x as int, y as int, err as int, (fuel - 1) as nat)
                =~= old_line + line_walk(p, xo, yo, eo, fuel));
            fuel = (fuel - 1) as nat;
        }
    }
    line
}

/// Length of the half-open range [a, b), zero when b <= a.
pub open spec fn span(a: u32, b: u32) -> int {
    if a < b { b - a } else { 0 }
}

/// The cells of [x0, x1) × [y0, y1), column by column; empty when either
/// range is empty or reversed.
pub open spec fn rect_points(x0: u32, y0: u32, x1: u32, y1: u32) -> Seq<Point> {
    let h = span(y0, y1);
    Seq::new(
        (span(x0, x1) * h) as nat,
        |i: int| ((x0 + i / h) as u32, (y0 + i % h) as u32),
    )
}

/// Rasterizes the axis-aligned rectangle [x0, x1) × [y0, y1). A reversed
/// range gives no cells; the corners are never swapped.
pub fn gen_rect(x0: u32, y0: u32, x1: u32, y1: u32) -> (rect: Vec<Point>)
    ensures
        rect@ == rect_points(x0, y0, x1, y1),
        rect@.len() == span(x0, x1) * span(y0, y1),
        forall|i: int|
            0 <= i < rect@.len() ==> x0 <= #[trigger] rect@[i].0 < x1 && y0 <= rect@[i].1 < y1,
{
    let ghost h = span(y0, y1);
    let mut rect: Vec<Point> = Vec::new();
    let mut x: u32 = x0;
    while x < x1
        invariant
            x0 <= x,
            x0 < x1 ==> x <= x1,
            x0 >= x1 ==> x == x0,
            h == span(y0, y1),
            rect@.len() == (x - x0) * h,
            forall|i: int|
                0 <= i < rect@.len() ==> #[trigger] rect@[i] == ((x0 + i / h) as u32, (y0 + i
                    % h) as u32),
        decreases x1 - x,
    {
        let mut y: u32 = y0;
        while y < y1
            invariant
                x0 <= x < x1,
                y0 <= y,
                y0 < y1 ==> y <= y1,
                y0 >= y1 ==> y == y0,
                h == span(y0, y1),
                rect@.len() == (x - x0) * h + (y - y0),
                forall|i: int|
                    0 <= i < rect@.len() ==> #[trigger] rect@[i] == ((x0 + i / h) as u32, (y0
                        + i % h) as u32),
            decreases y1 - y,
        {
            proof {
                lemma_fundamental_div_mod_converse(
                    rect@.len() as int,
                    h,
                    x - x0,
                    y - y0,
                );
            }
            rect.push((x, y));
            y = y + 1;
        }
        proof {
            assert((x + 1 - x0) * h == (x - x0) * h + h) by (nonlinear_arith);
        }
        x = x + 1;
    }
    proof {
        assert(rect@ =~= rect_points(x0, y0, x1, y1));
        assert forall|i: int| 0 <= i < rect@.len() implies x0 <= #[trigger] rect@[i].0 < x1
            && y0 <= rect@[i].1 < y1 by {
            let w = span(x0, x1);
            vstd::arithmetic::div_mod::lemma_fundamental_div_mod(i, h);
            vstd::arithmetic::div_mod::lemma_mod_pos_bound(i, h);
            let q = i / h;
            let r = i % h;
            assert(0 <= q < w) by (nonlinear_arith)
                requires
                    i == h * q + r,
                    0 <= r < h,
                    0 <= i < w * h,
            ;
        }
    }
    rect
}

} // verus!
