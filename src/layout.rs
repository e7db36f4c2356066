//! Grid planning: how many columns and rows the cells take, and the size of
//! the canvas that holds them.
use vstd::prelude::*;
use crate::geom::{Rect, WHi};

verus! {

/// The grid of cells and the canvas that it fills.
#[derive(Clone, Copy, Debug, PartialEq, Eq, Structural)]
pub struct GridLayout {
    pub columns: u32,
    pub rows: u32,
    pub cell_width: u32,
    pub cell_height: u32,
    pub canvas_width: u32,
    pub canvas_height: u32,
}

/// The smallest `c >= start` with `c * c >= n` (searching no further than
/// `n`).
pub open spec fn ceil_sqrt_from(n: nat, start: nat) -> nat
    decreases n - start,
{
    if start >= n || start * start >= n {
        start
    } else {
        ceil_sqrt_from(n, start + 1)
    }
}

/// The smallest natural number whose square is at least `n`.
pub open spec fn ceil_sqrt(n: nat) -> nat {
    ceil_sqrt_from(n, 0)
}

/// `a / b` rounded up; zero when `b` is zero.
pub open spec fn ceil_div(a: nat, b: nat) -> nat {
    if b == 0 {
        0
    } else {
        ((a + b - 1) / (b as int)) as nat
    }
}

/// The number of columns: the preferred count, or when that is zero the
/// smallest that makes a grid at least as tall as it is wide.
pub open spec fn grid_columns(count: nat, preferred_columns: nat) -> nat {
    if preferred_columns == 0 {
        ceil_sqrt(count)
    } else {
        preferred_columns
    }
}

/// The number of rows that `count` cells take in `columns` columns.
pub open spec fn grid_rows(count: nat, preferred_columns: nat) -> nat {
    ceil_div(count, grid_columns(count, preferred_columns))
}

impl GridLayout {
    /// The canvas is exactly the cells laid side by side.
    pub open spec fn wf(&self) -> bool {
        &&& self.canvas_width == self.columns * self.cell_width
        &&& self.canvas_height == self.rows * self.cell_height
    }
}

/// Below the square root, the search for the ceiling square root goes on.
proof fn lemma_ceil_sqrt_step(n: nat, c: nat)
    requires
        c * c < n,
    ensures
        ceil_sqrt_from(n, c) == ceil_sqrt_from(n, c + 1),
{
    assert(c < n) by (nonlinear_arith)
        requires
            c * c < n,
    ;
}

/// The rounded-up quotient gives enough rows and no more than needed.
pub proof fn lemma_ceil_div(a: nat, b: nat)
    requires
        b > 0,
    ensures
        ceil_div(a, b) * b >= a,
        ceil_div(a, b) == 0 || (ceil_div(a, b) - 1) * b < a,
{
    let q = ceil_div(a, b);
    crate::geom::lemma_floor_bounds(a + b - 1, b as int);
    assert(q * b == b * q) by (nonlinear_arith);
    assert(q == 0 || (q - 1) * b == b * q - b) by (nonlinear_arith);
}

/// Plans the grid for `count` cells of size `cell`. With
/// `preferred_columns == 0` the column count is the ceiling of the square
/// root of `count`; rows are the ceiling of `count / columns`. `None` when a
/// side of the canvas would not fit in a `u32`.
pub fn plan(count: u32, preferred_columns: u32, cell: WHi) -> (r: Option<GridLayout>)
    ensures
        r is None <==> grid_columns(count as nat, preferred_columns as nat) * cell.0 > u32::MAX
            || grid_rows(count as nat, preferred_columns as nat) * cell.1 > u32::MAX,
        r matches Some(g) ==> {
            &&& g.wf()
            &&& g.columns == grid_columns(count as nat, preferred_columns as nat)
            &&& g.rows == grid_rows(count as nat, preferred_columns as nat)
            &&& g.cell_width == cell.0
            &&& g.cell_height == cell.1
            &&& g.columns * g.rows >= count
            &&& g.columns > 0 ==> (g.rows == 0 || (g.rows - 1) * g.columns < count)
            &&& preferred_columns == 0 ==> g.columns * g.columns >= count && (g.columns == 0 || (
            g.columns - 1) * (g.columns - 1) < count)
        },
{
    let columns: u32 = if preferred_columns == 0 {
        let mut c: u32 = 0;
        while (c as u64) * (c as u64) < count as u64
            invariant
                c <= 0x1_0000,
                c * c <= 0x1_0000_0000,
                c == 0 || (c - 1) * (c - 1) < count,
                ceil_sqrt_from(count as nat, c as nat) == ceil_sqrt(count as nat),
            decreases count - c,
        {
            proof {
                lemma_ceil_sqrt_step(count as nat, c as nat);
                assert(c < 0x1_0000) by (nonlinear_arith)
                    requires
                        c * c < count,
                        count <= 0xFFFF_FFFF,
                ;
                assert(c < count) by (nonlinear_arith)
                    requires
                        c * c < count,
                ;
                assert((c + 1) * (c + 1) <= 0x1_0000_0000) by (nonlinear_arith)
                    requires
                        c < 0x1_0000,
                ;
            }
            c = c + 1;
        }
        c
    } else {
        preferred_columns
    };
    let rows: u32 = if columns == 0 {
        0
    } else {
        let q: u64 = (count as u64 + columns as u64 - 1) / columns as u64;
        proof {
            lemma_ceil_div(count as nat, columns as nat);
            assert(q <= count) by (nonlinear_arith)
                requires
                    q * columns >= count,
                    q == 0 || (q - 1) * columns < count,
                    columns >= 1,
            ;
        }
        q as u32
    };
    proof {
        if columns > 0 {
            lemma_ceil_div(count as nat, columns as nat);
        }
        assert(columns * rows >= count) by (nonlinear_arith)
            requires
                columns > 0 ==> rows * columns >= count,
                columns == 0 ==> count == 0,
                rows >= 0,
        ;
        crate::geom::lemma_mul_u32(columns, cell.0);
        crate::geom::lemma_mul_u32(rows, cell.1);
    }
    let width: u64 = columns as u64 * cell.0 as u64;
    let height: u64 = rows as u64 * cell.1 as u64;
    if width > u32::MAX as u64 || height > u32::MAX as u64 {
        return None;
    }
    Some(
        GridLayout {
            columns,
            rows,
            cell_width: cell.0,
            cell_height: cell.1,
            canvas_width: width as u32,
            canvas_height: height as u32,
        },
    )
}

/// The cell at `index` in row-major order, in canvas coordinates.
pub open spec fn spec_cell_rect(g: GridLayout, index: int) -> Rect {
    Rect {
        x: ((index % g.columns as int) * g.cell_width) as i64,
        y: ((index / g.columns as int) * g.cell_height) as i64,
        width: g.cell_width,
        height: g.cell_height,
    }
}

/// The cell that holds the `index`-th image, in row-major order, in canvas
/// coordinates; it lies inside the canvas.
pub fn cell_rect(g: &GridLayout, index: usize) -> (r: Rect)
    requires
        g.wf(),
        index < g.columns * g.rows,
    ensures
        r == spec_cell_rect(*g, index as int),
        r.x + r.width <= g.columns * g.cell_width,
        r.x >= 0,
        r.y >= 0,
        r.x + r.width <= g.canvas_width,
        r.y + r.height <= g.canvas_height,
{
    proof {
        assert(g.columns > 0) by (nonlinear_arith)
            requires
                0 <= index < g.columns * g.rows,
        ;
    }
    let col: u64 = index as u64 % g.columns as u64;
    let row: u64 = index as u64 / g.columns as u64;
    proof {
        crate::geom::lemma_floor_bounds(index as int, g.columns as int);
        assert(row < g.rows) by (nonlinear_arith)
            requires
                g.columns * row <= index,
                index < g.columns * g.rows,
                g.columns > 0,
        ;
        assert(col * g.cell_width + g.cell_width <= g.columns * g.cell_width) by (nonlinear_arith)
            requires
                col < g.columns,
        ;
        assert(row * g.cell_height + g.cell_height <= g.rows * g.cell_height) by (nonlinear_arith)
            requires
                row < g.rows,
        ;
        crate::geom::lemma_mul_u32(col as u32, g.cell_width);
        crate::geom::lemma_mul_u32(row as u32, g.cell_height);
    }
    Rect {
        x: (col * g.cell_width as u64) as i64,
        y: (row * g.cell_height as u64) as i64,
        width: g.cell_width,
        height: g.cell_height,
    }
}

} // verus!
