//! The compositing pass: every aligned image pasted into its row-major cell
//! of one transparent canvas.
use vstd::prelude::*;
use crate::align::AlignedImage;
use crate::geom::{lemma_floor_bounds, Rect};
use crate::layout::{cell_rect, spec_cell_rect, GridLayout};
use crate::raster::{copy_image, opaque, paste_region, CompositeError, RgbaCanvas};

verus! {

/// Row-major index of the cell that holds canvas pixel `(x, y)`.
pub open spec fn cell_index(g: GridLayout, x: int, y: int) -> int {
    (y / g.cell_height as int) * g.columns + x / g.cell_width as int
}

/// The value that pasting `a` into `cell` of a transparent canvas gives
/// pixel `(x, y)`.
pub open spec fn pasted_on_blank(a: AlignedImage, cell: Rect, x: int, y: int) -> (u8, u8, u8, u8) {
    match paste_region(&a.pixels, a.offset, cell) {
        Some(o) => if cell.x + o.x <= x < cell.x + o.x + o.width && cell.y + o.y <= y < cell.y + o.y
            + o.height {
            opaque(a.pixels.rgb_at(x - cell.x - a.offset.0, y - cell.y - a.offset.1))
        } else {
            (0u8, 0u8, 0u8, 0u8)
        },
        None => (0u8, 0u8, 0u8, 0u8),
    }
}

/// Canvas pixel `(x, y)` once the first `k` images are pasted: the pixel
/// that its cell's image gives it, or transparent when its cell holds none
/// of them.
pub open spec fn grid_pixel(images: Seq<AlignedImage>, g: GridLayout, k: int, x: int, y: int) -> (
    u8,
    u8,
    u8,
    u8,
) {
    let i = cell_index(g, x, y);
    if i < k {
        pasted_on_blank(images[i], spec_cell_rect(g, i), x, y)
    } else {
        (0u8, 0u8, 0u8, 0u8)
    }
}

/// A quotient is pinned down by the interval that its dividend lies in.
proof fn lemma_div_unique(x: int, d: int, q: int)
    requires
        d > 0,
        q * d <= x < q * d + d,
    ensures
        x / d == q,
{
    lemma_floor_bounds(x, d);
    let r = x / d;
    assert(r == q) by (nonlinear_arith)
        requires
            d * r <= x < d * r + d,
            q * d <= x < q * d + d,
            d > 0,
    ;
}

/// Every pixel of cell `i` has cell index `i`.
proof fn lemma_cell_index(g: GridLayout, i: int, x: int, y: int)
    requires
        g.wf(),
        0 <= i < g.columns * g.rows,
        spec_cell_rect(g, i).x <= x < spec_cell_rect(g, i).x + g.cell_width,
        spec_cell_rect(g, i).y <= y < spec_cell_rect(g, i).y + g.cell_height,
    ensures
        cell_index(g, x, y) == i,
{
    let c = g.columns as int;
    assert(c > 0) by (nonlinear_arith)
        requires
            0 <= i < c * g.rows,
            c >= 0,
    ;
    lemma_floor_bounds(i, c);
    vstd::arithmetic::div_mod::lemma_fundamental_div_mod(i, c);
    vstd::arithmetic::div_mod::lemma_mod_bound(i, c);
    let col = i % c;
    let row = i / c;
    assert(0 <= row < g.rows) by (nonlinear_arith)
        requires
            c * row <= i < c * row + c,
            i < c * g.rows,
            i >= 0,
            c > 0,
    ;
    assert(col * g.cell_width <= c * g.cell_width) by (nonlinear_arith)
        requires
            0 <= col < c,
    ;
    assert(row * g.cell_height <= g.rows * g.cell_height) by (nonlinear_arith)
        requires
            0 <= row < g.rows,
    ;
    assert(col * g.cell_width >= 0) by (nonlinear_arith)
        requires
            col >= 0,
    ;
    assert(row * g.cell_height >= 0) by (nonlinear_arith)
        requires
            row >= 0,
    ;
    lemma_div_unique(x, g.cell_width as int, col);
    lemma_div_unique(y, g.cell_height as int, row);
    assert(row * c == c * row) by (nonlinear_arith);
}

/// Pastes every aligned image, in order, into its row-major cell of a
/// transparent canvas of the layout's size. Pixels that no image reaches
/// stay transparent. Fails when an image does not overlap its cell.
pub fn compose_grid(images: &Vec<AlignedImage>, g: &GridLayout) -> (r: Result<
    RgbaCanvas,
    CompositeError,
>)
    requires
        g.wf(),
        images@.len() <= g.columns * g.rows,
        g.canvas_width * g.canvas_height * 4 <= usize::MAX,
        forall|i: int| 0 <= i < images@.len() ==> (#[trigger] images@[i]).pixels.wf(),
    ensures
        r is Err <==> exists|i: int|
            0 <= i < images@.len() && (#[trigger] paste_region(
                &images@[i].pixels,
                images@[i].offset,
                spec_cell_rect(*g, i),
            )) is None,
        r matches Ok(c) ==> {
            &&& c.wf()
            &&& c.width == g.canvas_width
            &&& c.height == g.canvas_height
            &&& forall|x: int, y: int|
                0 <= x < c.width && 0 <= y < c.height ==> #[trigger] c.rgba_at(x, y) == grid_pixel(
                    images@,
                    *g,
                    images@.len() as int,
                    x,
                    y,
                )
        },
{
    let mut canvas = RgbaCanvas::new(g.canvas_width, g.canvas_height);
    let n = images.len();
    let mut k: usize = 0;
    while k < n
        invariant
            n == images@.len(),
            k <= n,
            g.wf(),
            n <= g.columns * g.rows,
            forall|i: int| 0 <= i < images@.len() ==> (#[trigger] images@[i]).pixels.wf(),
            canvas.wf(),
            canvas.width == g.canvas_width,
            canvas.height == g.canvas_height,
            forall|i: int|
                0 <= i < k ==> (#[trigger] paste_region(
                    &images@[i].pixels,
                    images@[i].offset,
                    spec_cell_rect(*g, i),
                )) is Some,
            forall|x: int, y: int|
                0 <= x < canvas.width && 0 <= y < canvas.height ==> #[trigger] canvas.rgba_at(x, y)
                    == grid_pixel(images@, *g, k as int, x, y),
        decreases n - k,
    {
        let cell = cell_rect(g, k);
        let ghost before = canvas;
        match copy_image(&mut canvas, &images[k].pixels, images[k].offset, cell) {
            Ok(()) => {},
            Err(e) => {
                assert(paste_region(&images@[k as int].pixels, images@[k as int].offset, spec_cell_rect(*g, k as int)) is None);
                return Err(e);
            },
        }
        proof {
            let a = images@[k as int];
            assert forall|x: int, y: int|
                0 <= x < canvas.width && 0 <= y < canvas.height implies #[trigger] canvas.rgba_at(
                x,
                y,
            ) == grid_pixel(images@, *g, k + 1, x, y) by {
                let o = paste_region(&a.pixels, a.offset, cell)->0;
                let inside = cell.x + o.x <= x < cell.x + o.x + o.width && cell.y + o.y <= y < cell.y
                    + o.y + o.height;
                if inside {
                    lemma_cell_index(*g, k as int, x, y);
                } else if cell_index(*g, x, y) == k {
                } else {
                }
            }
        }
        k = k + 1;
    }
    Ok(canvas)
}

/// Whether collection stops: a positive `max_images` has been reached.
pub fn limit_reached(collected: usize, max_images: u32) -> (r: bool)
    ensures
        r == (max_images > 0 && collected >= max_images),
{
    max_images > 0 && collected >= max_images as usize
}

} // verus!
