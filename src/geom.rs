//! Exact integer geometry: rounding, aspect-preserving fits and rectangle
//! intersection.
use vstd::prelude::*;

verus! {

/// Integer width and height.
pub type WHi = (u32, u32);

/// Integer point or offset.
pub type XYi = (i64, i64);

/// An axis-aligned rectangle in pixel units. Its frame (cell-local,
/// canvas-absolute or image-local) is given by the context that uses it.
#[derive(Clone, Copy, Debug, PartialEq, Eq, Structural)]
pub struct Rect {
    pub x: i64,
    pub y: i64,
    pub width: u32,
    pub height: u32,
}

/// `n / d` rounded to the nearest integer, halves away from zero.
pub open spec fn round_div(n: int, d: int) -> int
    recommends
        d > 0,
{
    if n >= 0 {
        (2 * n + d) / (2 * d)
    } else {
        -((-2 * n + d) / (2 * d))
    }
}

/// Floor division brackets its dividend.
pub proof fn lemma_floor_bounds(n: int, d: int)
    requires
        d > 0,
    ensures
        d * (n / d) <= n < d * (n / d) + d,
{
    vstd::arithmetic::div_mod::lemma_fundamental_div_mod(n, d);
    vstd::arithmetic::div_mod::lemma_mod_bound(n, d);
}

/// The product of two `u32` values fits in a `u64`.
pub proof fn lemma_mul_u32(a: u32, b: u32)
    ensures
        0 <= a * b <= 0xFFFF_FFFE_0000_0001,
{
    assert(0 <= a * b <= 0xFFFF_FFFF * 0xFFFF_FFFF) by (nonlinear_arith)
        requires
            a <= 0xFFFF_FFFF,
            b <= 0xFFFF_FFFF,
    ;
}

/// The rounded quotient is within half a unit of the exact one:
/// `|2 * (n - d * round_div(n, d))| <= d`.
pub proof fn lemma_round_div_error(n: int, d: int)
    requires
        d > 0,
    ensures
        -d <= 2 * n - 2 * d * round_div(n, d) <= d,
        n >= 0 ==> round_div(n, d) >= 0,
{
    if n >= 0 {
        let q = (2 * n + d) / (2 * d);
        vstd::arithmetic::div_mod::lemma_div_pos_is_pos(2 * n + d, 2 * d);
        lemma_floor_bounds(2 * n + d, 2 * d);
        assert(2 * d * q == (2 * d) * q) by (nonlinear_arith);
    } else {
        let q = (-2 * n + d) / (2 * d);
        lemma_floor_bounds(-2 * n + d, 2 * d);
        assert(2 * d * q == (2 * d) * q) by (nonlinear_arith);
        assert(2 * d * (-q) == -(2 * d * q)) by (nonlinear_arith);
    }
}

/// A rounded quotient is no larger than any integer bound on the exact one.
pub proof fn lemma_round_div_le(n: int, d: int, b: int)
    requires
        d > 0,
        n >= 0,
        n <= d * b,
    ensures
        0 <= round_div(n, d) <= b,
{
    lemma_round_div_error(n, d);
    lemma_floor_bounds(2 * n + d, 2 * d);
    assert(d * round_div(n, d) < d * (b + 1)) by (nonlinear_arith)
        requires
            2 * n - 2 * d * round_div(n, d) >= -d,
            n <= d * b,
            d > 0,
    ;
    assert(round_div(n, d) <= b) by (nonlinear_arith)
        requires
            d * round_div(n, d) < d * (b + 1),
            d > 0,
    ;
    assert(0 <= round_div(n, d)) by (nonlinear_arith)
        requires
            2 * n - 2 * d * round_div(n, d) <= d,
            n >= 0,
            d > 0,
    ;
}

/// Magnitude below which `round_div_i128` computes without overflow.
pub const ROUND_BOUND: i128 = 0x1_0000_0000_0000_0000_0000_0000_0000;

/// Executable rounding of `n / d`, halves away from zero.
pub fn round_div_i128(n: i128, d: i128) -> (r: i128)
    requires
        d > 0,
        -ROUND_BOUND < n < ROUND_BOUND,
        d < ROUND_BOUND,
    ensures
        r == round_div(n as int, d as int),
{
    if n >= 0 {
        (2 * n + d) / (2 * d)
    } else {
        let m: i128 = -n;
        -((2 * m + d) / (2 * d))
    }
}

/// Whether the content's width, rather than its height, binds when it is
/// scaled to fit the container: `cw / w <= ch / h`.
pub open spec fn width_binds(container: WHi, content: WHi) -> bool {
    container.0 * content.1 <= container.1 * content.0
}

/// The scale factor, as `(numerator, denominator)`, of the largest copy of
/// `content` that fits inside `container`: `min(cw / w, ch / h)`.
pub open spec fn spec_fit_scale(container: WHi, content: WHi) -> (u32, u32) {
    if width_binds(container, content) {
        (container.0, content.0)
    } else {
        (container.1, content.1)
    }
}

/// The largest dimension with the aspect ratio of `content` that fits inside
/// `container`: exact on the binding axis, rounded on the other.
pub open spec fn spec_fit_inside(container: WHi, content: WHi) -> WHi {
    if width_binds(container, content) {
        (container.0, round_div(content.1 * container.0, content.0 as int) as u32)
    } else {
        (round_div(content.0 * container.1, content.1 as int) as u32, container.1)
    }
}

/// Scale factor that fits `content` inside `container`, preserving its
/// aspect ratio.
pub fn fit_scale(container: WHi, content: WHi) -> (r: (u32, u32))
    requires
        content.0 > 0,
        content.1 > 0,
    ensures
        r == spec_fit_scale(container, content),
        r.1 > 0,
        r.0 * content.0 <= container.0 * r.1,
        r.0 * content.1 <= container.1 * r.1,
{
    proof {
        lemma_mul_u32(container.0, content.1);
        lemma_mul_u32(container.1, content.0);
    }
    let lhs: u64 = container.0 as u64 * content.1 as u64;
    let rhs: u64 = container.1 as u64 * content.0 as u64;
    if lhs <= rhs {
        proof {
            assert(container.0 * content.1 <= container.1 * content.0);
        }
        (container.0, content.0)
    } else {
        (container.1, content.1)
    }
}

/// Largest dimension with the aspect ratio of `content` that fits inside
/// `container`. Both axes stay within the container, one axis matches it
/// exactly, and the aspect ratio is kept up to the rounding of the other
/// axis to whole pixels.
pub fn fit_inside(container: WHi, content: WHi) -> (r: WHi)
    requires
        content.0 > 0,
        content.1 > 0,
    ensures
        r == spec_fit_inside(container, content),
        r.0 <= container.0,
        r.1 <= container.1,
        r.0 == container.0 || r.1 == container.1,
        width_binds(container, content) ==> -(content.0 as int) <= 2 * (r.0 * content.1 - r.1
            * content.0) <= content.0 as int,
        !width_binds(container, content) ==> -(content.1 as int) <= 2 * (r.1 * content.0 - r.0
            * content.1) <= content.1 as int,
{
    proof {
        lemma_mul_u32(container.0, content.1);
        lemma_mul_u32(container.1, content.0);
    }
    let lhs: u64 = container.0 as u64 * content.1 as u64;
    let rhs: u64 = container.1 as u64 * content.0 as u64;
    if lhs <= rhs {
        let n: i128 = content.1 as i128 * container.0 as i128;
        let h = round_div_i128(n, content.0 as i128);
        proof {
            lemma_round_div_le(n as int, content.0 as int, container.1 as int);
            lemma_round_div_error(n as int, content.0 as int);
            assert(n == container.0 * content.1) by (nonlinear_arith)
                requires n == content.1 * container.0;
            assert(-(content.0 as int) <= 2 * (container.0 * content.1 - h * content.0)
                <= content.0 as int) by (nonlinear_arith)
                requires
                    n == container.0 * content.1,
                    -(content.0 as int) <= 2 * n - 2 * content.0 * h <= content.0 as int,
            ;
        }
        (container.0, h as u32)
    } else {
        let n: i128 = content.0 as i128 * container.1 as i128;
        let w = round_div_i128(n, content.1 as i128);
        proof {
            lemma_round_div_le(n as int, content.1 as int, container.0 as int);
            lemma_round_div_error(n as int, content.1 as int);
            assert(n == container.1 * content.0) by (nonlinear_arith)
                requires n == content.0 * container.1;
            assert(-(content.1 as int) <= 2 * (container.1 * content.0 - w * content.1)
                <= content.1 as int) by (nonlinear_arith)
                requires
                    n == container.1 * content.0,
                    -(content.1 as int) <= 2 * n - 2 * content.1 * w <= content.1 as int,
            ;
        }
        (w as u32, container.1)
    }
}

/// The overlap of `a` and `b` (both in one frame), expressed in `a`'s frame,
/// or `None` when the ranges are disjoint or touch only at an edge on
/// either axis.
pub open spec fn overlap(a: Rect, b: Rect) -> Option<Rect> {
    let x1 = if a.x >= b.x { a.x as int } else { b.x as int };
    let y1 = if a.y >= b.y { a.y as int } else { b.y as int };
    let x2 = if a.x + a.width <= b.x + b.width { a.x + a.width } else { b.x + b.width };
    let y2 = if a.y + a.height <= b.y + b.height { a.y + a.height } else { b.y + b.height };
    if x2 <= x1 || y2 <= y1 {
        None
    } else {
        Some(
            Rect {
                x: (x1 - a.x) as i64,
                y: (y1 - a.y) as i64,
                width: (x2 - x1) as u32,
                height: (y2 - y1) as u32,
            },
        )
    }
}

/// Length of the overlap of the ranges `[lo1, lo1 + len1)` and
/// `[lo2, lo2 + len2)`; zero or negative when they do not overlap.
pub open spec fn range_overlap(lo1: int, len1: int, lo2: int, len2: int) -> int {
    let lo = if lo1 >= lo2 { lo1 } else { lo2 };
    let hi = if lo1 + len1 <= lo2 + len2 { lo1 + len1 } else { lo2 + len2 };
    hi - lo
}

/// Overlap of two rectangles given in one frame, expressed relative to `a`'s
/// top-left corner.
pub fn intersect(a: Rect, b: Rect) -> (r: Option<Rect>)
    ensures
        r == overlap(a, b),
        r is None <==> (range_overlap(a.x as int, a.width as int, b.x as int, b.width as int) <= 0
            || range_overlap(a.y as int, a.height as int, b.y as int, b.height as int) <= 0),
        r matches Some(o) ==> {
            &&& o.width == range_overlap(a.x as int, a.width as int, b.x as int, b.width as int)
            &&& o.height == range_overlap(a.y as int, a.height as int, b.y as int, b.height as int)
            &&& o.width * o.height == range_overlap(
                a.x as int,
                a.width as int,
                b.x as int,
                b.width as int,
            ) * range_overlap(a.y as int, a.height as int, b.y as int, b.height as int)
            &&& a.x + o.x == if a.x >= b.x { a.x } else { b.x }
            &&& a.y + o.y == if a.y >= b.y { a.y } else { b.y }
            &&& 0 <= o.x && o.x + o.width <= a.width
            &&& 0 <= o.y && o.y + o.height <= a.height
        },
{
    let ax2: i128 = a.x as i128 + a.width as i128;
    let ay2: i128 = a.y as i128 + a.height as i128;
    let bx2: i128 = b.x as i128 + b.width as i128;
    let by2: i128 = b.y as i128 + b.height as i128;
    let x1: i128 = if a.x >= b.x { a.x as i128 } else { b.x as i128 };
    let y1: i128 = if a.y >= b.y { a.y as i128 } else { b.y as i128 };
    let x2: i128 = if ax2 <= bx2 { ax2 } else { bx2 };
    let y2: i128 = if ay2 <= by2 { ay2 } else { by2 };
    if x2 <= x1 || y2 <= y1 {
        None
    } else {
        Some(
            Rect {
                x: (x1 - a.x as i128) as i64,
                y: (y1 - a.y as i128) as i64,
                width: (x2 - x1) as u32,
                height: (y2 - y1) as u32,
            },
        )
    }
}

} // verus!
