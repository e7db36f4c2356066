//! Pixel buffers and the compositor that pastes a rescaled image into a cell
//! of the canvas.
use vstd::prelude::*;
use crate::geom::{intersect, overlap, Rect, XYi};

verus! {

/// An RGB image: `width * height` pixels, row-major, three bytes each.
pub struct RgbBuffer {
    pub width: u32,
    pub height: u32,
    pub data: Vec<u8>,
}

/// An RGBA canvas: `width * height` pixels, row-major, four bytes each.
pub struct RgbaCanvas {
    pub width: u32,
    pub height: u32,
    pub data: Vec<u8>,
}

/// The compositor's failure: the image placed at its offset does not overlap
/// its cell, so alignment and layout disagree on the geometry.
#[derive(Clone, Copy, Debug, PartialEq, Eq, Structural)]
pub enum CompositeError {
    NoOverlap,
}

/// Position of pixel `(x, y)` in row-major order.
pub open spec fn pixel_index(width: int, x: int, y: int) -> int {
    y * width + x
}

/// A pixel inside the image has its `channels` bytes inside the buffer.
pub proof fn lemma_pixel_index_bound(width: int, height: int, x: int, y: int, channels: int)
    requires
        0 <= x < width,
        0 <= y < height,
        channels > 0,
    ensures
        0 <= y * width <= pixel_index(width, x, y) < width * height,
        0 <= pixel_index(width, x, y) * channels,
        pixel_index(width, x, y) * channels + channels <= width * height * channels,
{
    assert(0 <= y * width <= y * width + x < width * height) by (nonlinear_arith)
        requires
            0 <= x < width,
            0 <= y < height,
    ;
    assert((y * width + x) * channels + channels <= width * height * channels) by (nonlinear_arith)
        requires
            y * width + x + 1 <= width * height,
            channels > 0,
    ;
    assert(0 <= (y * width + x) * channels) by (nonlinear_arith)
        requires
            y * width + x >= 0,
            channels > 0,
    ;
}

/// Distinct pixels of one row width have distinct indices.
pub proof fn lemma_pixel_index_injective(width: int, x1: int, y1: int, x2: int, y2: int)
    requires
        0 <= x1 < width,
        0 <= x2 < width,
        (x1, y1) != (x2, y2),
    ensures
        pixel_index(width, x1, y1) != pixel_index(width, x2, y2),
{
    if y1 == y2 {
    } else if y1 < y2 {
        assert(y1 * width + width <= y2 * width) by (nonlinear_arith)
            requires
                y1 < y2,
                width > 0,
        ;
    } else {
        assert(y2 * width + width <= y1 * width) by (nonlinear_arith)
            requires
                y2 < y1,
                width > 0,
        ;
    }
}

/// The colour written to the canvas for a source pixel: its channels, fully
/// opaque.
pub open spec fn opaque(p: (u8, u8, u8)) -> (u8, u8, u8, u8) {
    (p.0, p.1, p.2, 255u8)
}

impl RgbBuffer {
    /// The buffer holds exactly three bytes per pixel.
    pub open spec fn wf(&self) -> bool {
        self.data@.len() == self.width * self.height * 3
    }

    /// The pixel at column `x`, row `y`.
    pub open spec fn rgb_at(&self, x: int, y: int) -> (u8, u8, u8) {
        let i = pixel_index(self.width as int, x, y) * 3;
        (self.data@[i], self.data@[i + 1], self.data@[i + 2])
    }

    /// An image from its row-major RGB bytes; `None` when their number is
    /// not three per pixel.
    pub fn from_raw(width: u32, height: u32, data: Vec<u8>) -> (r: Option<RgbBuffer>)
        ensures
            r is Some <==> data@.len() == width * height * 3,
            r matches Some(b) ==> b.wf() && b.width == width && b.height == height && b.data@
                == data@,
    {
        let n = data.len();
        let w: usize = width as usize;
        let h: usize = height as usize;
        if w != 0 && h > n / w {
            proof {
                assert(w * h > n) by (nonlinear_arith)
                    requires
                        w > 0,
                        h > n / w,
                ;
            }
            return None;
        }
        proof {
            if w != 0 {
                assert(w * h <= n) by (nonlinear_arith)
                    requires
                        w > 0,
                        h <= n / w,
                ;
            }
        }
        let pixels: usize = w * h;
        if pixels > n / 3 || pixels * 3 != n {
            return None;
        }
        Some(RgbBuffer { width, height, data })
    }

    /// The pixel at column `x`, row `y`.
    pub fn get_pixel(&self, x: u32, y: u32) -> (r: (u8, u8, u8))
        requires
            self.wf(),
            x < self.width,
            y < self.height,
        ensures
            r == self.rgb_at(x as int, y as int),
    {
        proof {
            lemma_pixel_index_bound(self.width as int, self.height as int, x as int, y as int, 3);
        }
        // Reading the length brings its `usize` bound into the proof.
        let _len = self.data.len();
        let i: usize = (y as usize * self.width as usize + x as usize) * 3;
        (self.data[i], self.data[i + 1], self.data[i + 2])
    }
}

impl RgbaCanvas {
    /// The canvas holds exactly four bytes per pixel.
    pub open spec fn wf(&self) -> bool {
        self.data@.len() == self.width * self.height * 4
    }

    /// The pixel at column `x`, row `y`.
    pub open spec fn rgba_at(&self, x: int, y: int) -> (u8, u8, u8, u8) {
        let i = pixel_index(self.width as int, x, y) * 4;
        (self.data@[i], self.data@[i + 1], self.data@[i + 2], self.data@[i + 3])
    }

    /// A fully transparent canvas of the given size.
    pub fn new(width: u32, height: u32) -> (r: RgbaCanvas)
        requires
            width * height * 4 <= usize::MAX,
        ensures
            r.wf(),
            r.width == width,
            r.height == height,
            forall|x: int, y: int|
                0 <= x < width && 0 <= y < height ==> #[trigger] r.rgba_at(x, y) == (
                0u8,
                0u8,
                0u8,
                0u8,
            ),
    {
        let n: usize = width as usize * height as usize * 4;
        let mut data: Vec<u8> = Vec::new();
        while data.len() < n
            invariant
                data.len() <= n,
                forall|i: int| 0 <= i < data.len() ==> data@[i] == 0u8,
            decreases n - data.len(),
        {
            data.push(0u8);
        }
        let r = RgbaCanvas { width, height, data };
        assert forall|x: int, y: int| 0 <= x < width && 0 <= y < height implies #[trigger] r.rgba_at(
            x,
            y,
        ) == (0u8, 0u8, 0u8, 0u8) by {
            lemma_pixel_index_bound(width as int, height as int, x, y, 4);
        }
        r
    }

    /// The pixel at column `x`, row `y`.
    pub fn get_pixel(&self, x: u32, y: u32) -> (r: (u8, u8, u8, u8))
        requires
            self.wf(),
            x < self.width,
            y < self.height,
        ensures
            r == self.rgba_at(x as int, y as int),
    {
        proof {
            lemma_pixel_index_bound(self.width as int, self.height as int, x as int, y as int, 4);
        }
        // Reading the length brings its `usize` bound into the proof.
        let _len = self.data.len();
        let i: usize = (y as usize * self.width as usize + x as usize) * 4;
        (self.data[i], self.data[i + 1], self.data[i + 2], self.data[i + 3])
    }

    /// Overwrites the pixel at column `x`, row `y`; every other pixel keeps
    /// its value.
    pub fn put_pixel(&mut self, x: u32, y: u32, p: (u8, u8, u8, u8))
        requires
            old(self).wf(),
            x < old(self).width,
            y < old(self).height,
        ensures
            final(self).wf(),
            final(self).width == old(self).width,
            final(self).height == old(self).height,
            final(self).rgba_at(x as int, y as int) == p,
            forall|i: int, j: int|
                0 <= i < old(self).width && 0 <= j < old(self).height && (i, j) != (x as int, y as int)
                    ==> #[trigger] final(self).rgba_at(i, j) == old(self).rgba_at(i, j),
    {
        proof {
            lemma_pixel_index_bound(self.width as int, self.height as int, x as int, y as int, 4);
        }
        // Reading the length brings its `usize` bound into the proof.
        let _len = self.data.len();
        let ghost before = *self;
        let i: usize = (y as usize * self.width as usize + x as usize) * 4;
        self.data.set(i, p.0);
        self.data.set(i + 1, p.1);
        self.data.set(i + 2, p.2);
        self.data.set(i + 3, p.3);
        assert forall|a: int, b: int|
            0 <= a < before.width && 0 <= b < before.height && (a, b) != (x as int, y as int)
                implies #[trigger] self.rgba_at(a, b) == before.rgba_at(a, b) by {
            lemma_pixel_index_bound(before.width as int, before.height as int, a, b, 4);
            lemma_pixel_index_injective(before.width as int, a, b, x as int, y as int);
        }
    }
}

/// Where an image placed at `offset` (relative to the cell's top-left) meets
/// its cell, in the cell's frame.
pub open spec fn paste_region(top: &RgbBuffer, offset: XYi, cell: Rect) -> Option<Rect> {
    overlap(
        Rect { x: 0, y: 0, width: cell.width, height: cell.height },
        Rect { x: offset.0, y: offset.1, width: top.width, height: top.height },
    )
}

/// An image that lies wholly inside its cell is pasted whole: the region
/// where image and cell meet is the image's own rectangle, so every source
/// pixel reaches the canvas.
pub proof fn lemma_full_containment(top: &RgbBuffer, offset: XYi, cell: Rect)
    requires
        top.width > 0,
        top.height > 0,
        0 <= offset.0,
        0 <= offset.1,
        offset.0 + top.width <= cell.width,
        offset.1 + top.height <= cell.height,
    ensures
        paste_region(top, offset, cell) == Some(
            Rect { x: offset.0, y: offset.1, width: top.width, height: top.height },
        ),
{
}

/// The value of canvas pixel `(x, y)` after `top` is pasted at `offset`
/// into `cell` (given in canvas coordinates) of `before`: inside the region
/// where image and cell meet, the corresponding source pixel made opaque;
/// elsewhere, the pixel of `before`.
pub open spec fn composited(
    before: &RgbaCanvas,
    top: &RgbBuffer,
    offset: XYi,
    cell: Rect,
    x: int,
    y: int,
) -> (u8, u8, u8, u8) {
    match paste_region(top, offset, cell) {
        Some(o) => if cell.x + o.x <= x < cell.x + o.x + o.width && cell.y + o.y <= y < cell.y + o.y
            + o.height {
            opaque(top.rgb_at(x - cell.x - offset.0, y - cell.y - offset.1))
        } else {
            before.rgba_at(x, y)
        },
        None => before.rgba_at(x, y),
    }
}

/// Pastes `top` into `cell` of `canvas`, its top-left corner at `offset`
/// from the cell's top-left corner, clipped to the cell. Pasted pixels are
/// overwritten with the source's channels and made opaque; all others are
/// left as they were. Fails, leaving the canvas untouched, when the image
/// does not overlap the cell.
pub fn copy_image(canvas: &mut RgbaCanvas, top: &RgbBuffer, offset: XYi, cell: Rect) -> (r: Result<
    (),
    CompositeError,
>)
    requires
        old(canvas).wf(),
        top.wf(),
        cell.x >= 0,
        cell.y >= 0,
        cell.x + cell.width <= old(canvas).width,
        cell.y + cell.height <= old(canvas).height,
    ensures
        final(canvas).wf(),
        final(canvas).width == old(canvas).width,
        final(canvas).height == old(canvas).height,
        r is Err <==> paste_region(top, offset, cell) is None,
        r is Err ==> *final(canvas) == *old(canvas),
        forall|x: int, y: int|
            0 <= x < old(canvas).width && 0 <= y < old(canvas).height ==> #[trigger] final(canvas).rgba_at(x, y)
                == composited(old(canvas), top, offset, cell, x, y),
{
    let cell_rect = Rect { x: 0, y: 0, width: cell.width, height: cell.height };
    let top_rect = Rect { x: offset.0, y: offset.1, width: top.width, height: top.height };
    let o = match intersect(cell_rect, top_rect) {
        Some(o) => o,
        None => {
            return Err(CompositeError::NoOverlap);
        },
    };
    let ghost before = *canvas;
    let x1: u32 = (cell.x + o.x) as u32;
    let y1: u32 = (cell.y + o.y) as u32;
    let x2: u32 = (cell.x + o.x + o.width as i64) as u32;
    let y2: u32 = (cell.y + o.y + o.height as i64) as u32;
    let mut dy: u32 = y1;
    while dy < y2
        invariant
            canvas.wf(),
            canvas.width == before.width,
            canvas.height == before.height,
            top.wf(),
            cell.x >= 0,
            cell.y >= 0,
            y1 <= dy <= y2,
            x2 <= before.width,
            y2 <= before.height,
            x1 == cell.x + o.x,
            x2 == cell.x + o.x + o.width,
            y1 == cell.y + o.y,
            y2 == cell.y + o.y + o.height,
            0 <= x1 - cell.x - offset.0,
            x2 - cell.x - offset.0 <= top.width,
            0 <= y1 - cell.y - offset.1,
            y2 - cell.y - offset.1 <= top.height,
            forall|x: int, y: int|
                0 <= x < before.width && 0 <= y < before.height ==> #[trigger] canvas.rgba_at(x, y)
                    == if x1 <= x < x2 && y1 <= y < dy {
                    opaque(top.rgb_at(x - cell.x - offset.0, y - cell.y - offset.1))
                } else {
                    before.rgba_at(x, y)
                },
        decreases y2 - dy,
    {
        let src_y: u32 = (dy as i64 - cell.y - offset.1) as u32;
        let mut dx: u32 = x1;
        while dx < x2
            invariant
                canvas.wf(),
                canvas.width == before.width,
                canvas.height == before.height,
                top.wf(),
                cell.x >= 0,
                cell.y >= 0,
                y1 <= dy < y2,
                x1 <= dx <= x2,
                x2 <= before.width,
                y2 <= before.height,
                x1 == cell.x + o.x,
                x2 == cell.x + o.x + o.width,
                y1 == cell.y + o.y,
                y2 == cell.y + o.y + o.height,
                0 <= x1 - cell.x - offset.0,
                x2 - cell.x - offset.0 <= top.width,
                src_y == dy - cell.y - offset.1,
                src_y < top.height,
                forall|x: int, y: int|
                    0 <= x < before.width && 0 <= y < before.height ==> #[trigger] canvas.rgba_at(
                        x,
                        y,
                    ) == if (x1 <= x < x2 && y1 <= y < dy) || (y == dy && x1 <= x < dx) {
                        opaque(top.rgb_at(x - cell.x - offset.0, y - cell.y - offset.1))
                    } else {
                        before.rgba_at(x, y)
                    },
            decreases x2 - dx,
        {
            let src_x: u32 = (dx as i64 - cell.x - offset.0) as u32;
            let p = top.get_pixel(src_x, src_y);
            canvas.put_pixel(dx, dy, (p.0, p.1, p.2, 255u8));
            dx = dx + 1;
        }
        dy = dy + 1;
    }
    Ok(())
}

} // verus!
