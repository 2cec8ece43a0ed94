//! Rasterisation of the ants' grids into a square framebuffer of packed
//! `0x00RRGGBB` pixels.
//!
//! The framebuffer is stored row by row: the pixel in column `px`, row `py`
//! of a framebuffer `side` pixels wide is the word at index `py * side + px`.
//! At zoom `z` the logical cell `(x, y)` covers the pixels whose column lies
//! in `x * z .. x * z + z` and whose row lies in `y * z .. y * z + z`; what
//! falls outside the framebuffer is clipped.

use vstd::prelude::*;
use vstd::arithmetic::div_mod::{
    lemma_div_pos_is_pos,
    lemma_fundamental_div_mod,
    lemma_fundamental_div_mod_converse,
    lemma_mod_bound,
};
use crate::ant::{AntState, LangtonsAnt};
use crate::simulation::{share_size, states};

verus! {

/// Side of the grid, in cells.
pub const GRID_SIZE: usize = 101;

/// Side of a cell at zoom 1 of a full window, in pixels.
pub const CELL_SIZE: usize = 5;

/// Width of the framebuffer, in pixels.
pub const WIDTH: usize = GRID_SIZE * CELL_SIZE;

/// Height of the framebuffer, in pixels.
pub const HEIGHT: usize = GRID_SIZE * CELL_SIZE;

/// Colour of a cell that is off in every grid.
pub const BACKGROUND: u32 = 0x000000;

/// Colour of a cell that is on in some grid.
pub const CELL_ON: u32 = 0xFFFFFF;

/// Colour of a cell that an ant stands on, where the overlay is drawn.
pub const ANT_MARK: u32 = 0xFF0000;

/// Whether the cell `(x, y)` is on in the grid of at least one ant.
pub open spec fn lit(ants: Seq<AntState>, x: int, y: int) -> bool {
    exists|i: int| 0 <= i < ants.len() && #[trigger] ants[i].cell(x, y)
}

/// Whether at least one ant stands on the cell `(x, y)`.
pub open spec fn occupied(ants: Seq<AntState>, x: int, y: int) -> bool {
    exists|i: int| 0 <= i < ants.len() && (#[trigger] ants[i]).x == x && ants[i].y == y
}

/// Colour of the logical cell `(x, y)`: the ant mark if the overlay is drawn
/// and an ant stands there, else white if any grid has the cell on, else the
/// background.
pub open spec fn cell_color(ants: Seq<AntState>, x: int, y: int, overlay: bool) -> u32 {
    if overlay && occupied(ants, x, y) {
        ANT_MARK
    } else if lit(ants, x, y) {
        CELL_ON
    } else {
        BACKGROUND
    }
}

/// Column of the logical cell that covers the pixel at `index`.
pub open spec fn cell_x(index: int, side: int, zoom: int) -> int {
    (index % side) / zoom
}

/// Row of the logical cell that covers the pixel at `index`.
pub open spec fn cell_y(index: int, side: int, zoom: int) -> int {
    (index / side) / zoom
}

/// Whether the pixel at `index` is covered by a cell of a grid of side
/// `grid_size` drawn at `zoom`. At zoom 0 nothing is drawn.
pub open spec fn covered(index: int, side: int, grid_size: int, zoom: int) -> bool {
    zoom > 0 && cell_x(index, side, zoom) < grid_size && cell_y(index, side, zoom) < grid_size
}

/// The pixel at `index` after the grid has been drawn over the frame `prev`:
/// the colour of the cell that covers it, or what it held before where no
/// cell covers it.
pub open spec fn painted_pixel(
    prev: Seq<u32>,
    ants: Seq<AntState>,
    grid_size: int,
    side: int,
    zoom: int,
    overlay: bool,
    index: int,
) -> u32 {
    if covered(index, side, grid_size, zoom) {
        cell_color(ants, cell_x(index, side, zoom), cell_y(index, side, zoom), overlay)
    } else {
        prev[index]
    }
}

/// The frame after the grid has been drawn over the frame `prev`.
pub open spec fn painted(
    prev: Seq<u32>,
    ants: Seq<AntState>,
    grid_size: int,
    side: int,
    zoom: int,
    overlay: bool,
) -> Seq<u32> {
    Seq::new(prev.len(), |index: int| painted_pixel(prev, ants, grid_size, side, zoom, overlay, index))
}

/// A frame of `len` background pixels.
pub open spec fn blank(len: nat) -> Seq<u32> {
    Seq::new(len, |index: int| BACKGROUND)
}

/// Painting by blocks: the pixel `dx` columns and `dy` rows into the block
/// of the cell `(x, y)`, whose origin is `(x * zoom, y * zoom)`, takes the
/// colour of that cell if it lies inside the frame.
pub proof fn lemma_block_takes_cell_color(
    prev: Seq<u32>,
    ants: Seq<AntState>,
    grid_size: int,
    side: int,
    zoom: int,
    overlay: bool,
    x: int,
    y: int,
    dx: int,
    dy: int,
)
    requires
        prev.len() == side * side,
        0 <= x < grid_size,
        0 <= y < grid_size,
        0 <= dx < zoom,
        0 <= dy < zoom,
        x * zoom + dx < side,
        y * zoom + dy < side,
    ensures
        0 <= (y * zoom + dy) * side + (x * zoom + dx) < prev.len(),
        painted(prev, ants, grid_size, side, zoom, overlay)[(y * zoom + dy) * side + (x * zoom + dx)]
            == cell_color(ants, x, y, overlay),
{
    let px = x * zoom + dx;
    let py = y * zoom + dy;
    assert(0 <= x * zoom && 0 <= y * zoom) by (nonlinear_arith)
        requires
            0 <= x,
            0 <= y,
            0 < zoom,
    ;
    lemma_pixel_index(px, py, side);
    lemma_cell_span(px, zoom, x);
    lemma_cell_span(py, zoom, y);
}

/// Clipping: a pixel to the right of or below the last block keeps what it
/// held, and so does every pixel at zoom 0.
pub proof fn lemma_uncovered_pixel_is_kept(
    prev: Seq<u32>,
    ants: Seq<AntState>,
    grid_size: int,
    side: int,
    zoom: int,
    overlay: bool,
    px: int,
    py: int,
)
    requires
        prev.len() == side * side,
        0 <= grid_size,
        0 <= zoom,
        0 <= px < side,
        0 <= py < side,
        px >= grid_size * zoom || py >= grid_size * zoom,
    ensures
        0 <= py * side + px < prev.len(),
        painted(prev, ants, grid_size, side, zoom, overlay)[py * side + px] == prev[py * side + px],
{
    lemma_pixel_index(px, py, side);
    if zoom > 0 {
        lemma_cell_span(px, zoom, px / zoom);
        lemma_cell_span(py, zoom, py / zoom);
        if px >= grid_size * zoom && px / zoom < grid_size {
            assert((px / zoom) * zoom + zoom <= grid_size * zoom) by (nonlinear_arith)
                requires
                    px / zoom < grid_size,
                    zoom > 0,
            ;
        }
        if py >= grid_size * zoom && py / zoom < grid_size {
            assert((py / zoom) * zoom + zoom <= grid_size * zoom) by (nonlinear_arith)
                requires
                    py / zoom < grid_size,
                    zoom > 0,
            ;
        }
    }
}

/// The blocks cover the whole frame exactly when `zoom * grid_size` reaches
/// the side of the frame; the painted frame then owes nothing to the frame
/// before it.
pub proof fn lemma_full_coverage(side: int, grid_size: int, zoom: int)
    requires
        0 < side,
        0 <= grid_size,
        0 <= zoom,
    ensures
        (forall|index: int| 0 <= index < side * side ==> covered(index, side, grid_size, zoom)) <==> zoom
            * grid_size >= side,
{
    if zoom * grid_size >= side {
        assert(zoom > 0) by (nonlinear_arith)
            requires
                zoom * grid_size >= side,
                side > 0,
                zoom >= 0,
        ;
        assert forall|index: int| 0 <= index < side * side implies covered(index, side, grid_size, zoom) by {
            lemma_pixel_coords(index, side);
            lemma_cell_nonnegative(index, side, zoom);
            let px = index % side;
            let py = index / side;
            lemma_cell_span(px, zoom, px / zoom);
            lemma_cell_span(py, zoom, py / zoom);
            if px / zoom >= grid_size {
                assert((px / zoom) * zoom >= zoom * grid_size) by (nonlinear_arith)
                    requires
                        px / zoom >= grid_size,
                        zoom > 0,
                ;
            }
            if py / zoom >= grid_size {
                assert((py / zoom) * zoom >= zoom * grid_size) by (nonlinear_arith)
                    requires
                        py / zoom >= grid_size,
                        zoom > 0,
                ;
            }
        }
    } else {
        let last = (side - 1) * side + (side - 1);
        lemma_pixel_index(side - 1, side - 1, side);
        if covered(last, side, grid_size, zoom) {
            let c = (side - 1) / zoom;
            lemma_cell_span(side - 1, zoom, c);
            assert(c * zoom + zoom <= zoom * grid_size) by (nonlinear_arith)
                requires
                    c < grid_size,
                    zoom > 0,
            ;
        }
    }
}

/// Whether the pixel at `index` lies in columns `left..right` and rows
/// `top..bottom`.
spec fn in_rect(index: int, side: int, left: int, right: int, top: int, bottom: int) -> bool {
    left <= index % side < right && top <= index / side < bottom
}

/// Whether the pixel at `index` is covered by a cell that comes before
/// `(x, y)` in row-major order.
spec fn drawn_before(index: int, side: int, grid_size: int, zoom: int, x: int, y: int) -> bool {
    &&& covered(index, side, grid_size, zoom)
    &&& (cell_y(index, side, zoom) < y || (cell_y(index, side, zoom) == y && cell_x(index, side, zoom)
        < x))
}

/// Column and row of a pixel, from its index.
proof fn lemma_pixel_coords(index: int, side: int)
    requires
        0 <= side,
        0 <= index < side * side,
    ensures
        side > 0,
        0 <= index % side < side,
        0 <= index / side < side,
        index == (index / side) * side + index % side,
{
    lemma_fundamental_div_mod(index, side);
    lemma_mod_bound(index, side);
    lemma_div_pos_is_pos(index, side);
    let q = index / side;
    assert(side * q == q * side) by (nonlinear_arith);
    if q >= side {
        assert(q * side >= side * side) by (nonlinear_arith)
            requires
                q >= side,
                side > 0,
        ;
    }
}

/// Index of a pixel, from its column and row.
proof fn lemma_pixel_index(px: int, py: int, side: int)
    requires
        0 <= px < side,
        0 <= py < side,
    ensures
        0 <= py * side + px < side * side,
        (py * side + px) % side == px,
        (py * side + px) / side == py,
{
    assert(0 <= py * side + px < side * side) by (nonlinear_arith)
        requires
            0 <= px < side,
            0 <= py < side,
    ;
    lemma_fundamental_div_mod_converse(py * side + px, side, py, px);
}

/// The pixels of one axis that a cell covers: coordinate `p` belongs to
/// cell `c` exactly when it lies in `c * zoom .. c * zoom + zoom`.
proof fn lemma_cell_span(p: int, zoom: int, c: int)
    requires
        zoom > 0,
    ensures
        p / zoom == c <==> c * zoom <= p < c * zoom + zoom,
{
    lemma_fundamental_div_mod(p, zoom);
    lemma_mod_bound(p, zoom);
    assert(zoom * (p / zoom) == (p / zoom) * zoom) by (nonlinear_arith);
    if c * zoom <= p < c * zoom + zoom {
        lemma_fundamental_div_mod_converse(p, zoom, c, p - c * zoom);
    }
}

/// Whether any ant has the cell `(x, y)` on.
fn any_lit(ants: &[LangtonsAnt], x: usize, y: usize, Ghost(grid_size): Ghost<int>) -> (on: bool)
    requires
        share_size(states(ants@), grid_size),
        x < grid_size,
        y < grid_size,
    ensures
        on == lit(states(ants@), x as int, y as int),
{
    let mut i: usize = 0;
    while i < ants.len()
        invariant
            i <= ants@.len(),
            share_size(states(ants@), grid_size),
            x < grid_size,
            y < grid_size,
            forall|k: int| 0 <= k < i ==> !(#[trigger] states(ants@)[k]).cell(x as int, y as int),
        decreases ants@.len() - i,
    {
        assert(states(ants@)[i as int].size() == grid_size);
        if ants[i].cell(x, y) {
            assert(states(ants@)[i as int].cell(x as int, y as int));
            return true;
        }
        i += 1;
    }
    false
}

/// Whether any ant stands on the cell `(x, y)`.
fn any_at(ants: &[LangtonsAnt], x: usize, y: usize) -> (found: bool)
    ensures
        found == occupied(states(ants@), x as int, y as int),
{
    let mut i: usize = 0;
    while i < ants.len()
        invariant
            i <= ants@.len(),
            forall|k: int|
                0 <= k < i ==> !((#[trigger] states(ants@)[k]).x == x && states(ants@)[k].y == y),
        decreases ants@.len() - i,
    {
        if ants[i].x() == x && ants[i].y() == y {
            assert(states(ants@)[i as int].x == x && states(ants@)[i as int].y == y);
            return true;
        }
        i += 1;
    }
    false
}

/// Writes `color` to the pixels in columns `left..right` of rows
/// `top..bottom`.
fn fill_rect(
    buffer: &mut [u32],
    side: usize,
    left: usize,
    right: usize,
    top: usize,
    bottom: usize,
    color: u32,
)
    requires
        old(buffer)@.len() == side * side,
        left <= right <= side,
        top <= bottom <= side,
    ensures
        final(buffer)@.len() == old(buffer)@.len(),
        forall|i: int|
            0 <= i < old(buffer)@.len() ==> #[trigger] final(buffer)@[i] == if in_rect(
                i,
                side as int,
                left as int,
                right as int,
                top as int,
                bottom as int,
            ) {
                color
            } else {
                old(buffer)@[i]
            },
{
    assert(side * side <= usize::MAX) by {
        assert(buffer@.len() == buffer.len());
    }
    let mut py = top;
    while py < bottom
        invariant
            side * side <= usize::MAX,
            buffer@.len() == old(buffer)@.len() == side * side,
            left <= right <= side,
            top <= py <= bottom <= side,
            forall|i: int|
                0 <= i < buffer@.len() ==> #[trigger] buffer@[i] == if in_rect(
                    i,
                    side as int,
                    left as int,
                    right as int,
                    top as int,
                    py as int,
                ) {
                    color
                } else {
                    old(buffer)@[i]
                },
        decreases bottom - py,
    {
        proof {
            lemma_pixel_index(0, py as int, side as int);
        }
        let row = py * side;
        let mut px = left;
        while px < right
            invariant
                side * side <= usize::MAX,
                buffer@.len() == old(buffer)@.len() == side * side,
                left <= px <= right <= side,
                top <= py < bottom <= side,
                row == py * side,
                forall|i: int|
                    0 <= i < buffer@.len() ==> #[trigger] buffer@[i] == if in_rect(
                        i,
                        side as int,
                        left as int,
                        right as int,
                        top as int,
                        py as int,
                    ) || in_rect(i, side as int, left as int, px as int, py as int, py + 1) {
                        color
                    } else {
                        old(buffer)@[i]
                    },
            decreases right - px,
        {
            let ghost before = buffer@;
            proof {
                lemma_pixel_index(px as int, py as int, side as int);
            }
            buffer[row + px] = color;
            px += 1;
            assert forall|i: int| 0 <= i < buffer@.len() implies #[trigger] buffer@[i] == if in_rect(
                i,
                side as int,
                left as int,
                right as int,
                top as int,
                py as int,
            ) || in_rect(i, side as int, left as int, px as int, py as int, py + 1) {
                color
            } else {
                old(buffer)@[i]
            } by {
                lemma_pixel_coords(i, side as int);
                assert(buffer@[i] == if i == row + px - 1 {
                    color
                } else {
                    before[i]
                });
            }
        }
        py += 1;
    }
}

/// Writes `color` to the pixels that the logical cell `(x, y)` covers at
/// `zoom`, as far as they lie inside the framebuffer.
fn fill_block(buffer: &mut [u32], side: usize, x: usize, y: usize, zoom: usize, color: u32)
    requires
        old(buffer)@.len() == side * side,
    ensures
        final(buffer)@.len() == old(buffer)@.len(),
        forall|i: int|
            0 <= i < old(buffer)@.len() ==> #[trigger] final(buffer)@[i] == if zoom > 0 && cell_x(
                i,
                side as int,
                zoom as int,
            ) == x && cell_y(i, side as int, zoom as int) == y {
                color
            } else {
                old(buffer)@[i]
            },
{
    if zoom == 0 {
        return ;
    }
    let (left, right) = span(x, zoom, side);
    let (top, bottom) = span(y, zoom, side);
    fill_rect(buffer, side, left, right, top, bottom, color);
    assert forall|i: int| 0 <= i < old(buffer)@.len() implies #[trigger] buffer@[i] == if cell_x(
        i,
        side as int,
        zoom as int,
    ) == x && cell_y(i, side as int, zoom as int) == y {
        color
    } else {
        old(buffer)@[i]
    } by {
        lemma_pixel_coords(i, side as int);
    }
}

/// The pixels of one axis of length `side` that the cell `c` covers at
/// `zoom`, as a half-open range; empty where the cell lies outside.
fn span(c: usize, zoom: usize, side: usize) -> (ends: (usize, usize))
    requires
        zoom > 0,
    ensures
        ends.0 <= ends.1 <= side,
        forall|p: int| 0 <= p < side ==> (ends.0 <= p < ends.1 <==> #[trigger] (p / (zoom as int)) == c),
{
    let start = match c.checked_mul(zoom) {
        Some(start) => start,
        None => side,
    };
    let ends = if start >= side {
        (side, side)
    } else if zoom < side - start {
        (start, start + zoom)
    } else {
        (start, side)
    };
    assert forall|p: int| 0 <= p < side implies (ends.0 <= p < ends.1 <==> #[trigger] (p / (zoom as int))
        == c) by {
        lemma_cell_span(p, zoom as int, c as int);
    }
    ends
}

/// Colour of the logical cell `(x, y)`.
fn color_at(ants: &[LangtonsAnt], x: usize, y: usize, overlay: bool, Ghost(grid_size): Ghost<int>) -> (color: u32)
    requires
        share_size(states(ants@), grid_size),
        x < grid_size,
        y < grid_size,
    ensures
        color == cell_color(states(ants@), x as int, y as int, overlay),
{
    if overlay && any_at(ants, x, y) {
        ANT_MARK
    } else if any_lit(ants, x, y, Ghost(grid_size)) {
        CELL_ON
    } else {
        BACKGROUND
    }
}

/// Draws the ants' grids into a square framebuffer of side
/// `grid_size * cell_size` at `zoom_level`.
///
/// Every logical cell is drawn as a square block of `zoom_level` pixels a
/// side, clipped to the framebuffer: white where the cell is on in the grid
/// of any ant, background where it is on in none, and, where `overlay` is
/// set, the ant mark where an ant stands. Pixels that no block covers keep
/// what they held.
pub fn rasterize(
    buffer: &mut [u32],
    ants: &[LangtonsAnt],
    grid_size: usize,
    cell_size: usize,
    zoom_level: usize,
    overlay: bool,
)
    requires
        old(buffer)@.len() == (grid_size * cell_size) * (grid_size * cell_size),
        share_size(states(ants@), grid_size as int),
    ensures
        final(buffer)@ == painted(
            old(buffer)@,
            states(ants@),
            grid_size as int,
            grid_size * cell_size,
            zoom_level as int,
            overlay,
        ),
{
    assert((grid_size * cell_size) * (grid_size * cell_size) <= usize::MAX) by {
        assert(buffer@.len() == buffer.len());
    }
    assert(grid_size * cell_size <= usize::MAX) by (nonlinear_arith)
        requires
            (grid_size * cell_size) * (grid_size * cell_size) <= usize::MAX,
    ;
    let side = grid_size * cell_size;
    assert forall|i: int| 0 <= i < buffer@.len() implies !drawn_before(
        i,
        side as int,
        grid_size as int,
        zoom_level as int,
        0,
        0,
    ) by {
        if zoom_level > 0 {
            lemma_cell_nonnegative(i, side as int, zoom_level as int);
        }
    }
    let mut y: usize = 0;
    while y < grid_size
        invariant
            y <= grid_size,
            side == grid_size * cell_size,
            buffer@.len() == old(buffer)@.len() == side * side,
            share_size(states(ants@), grid_size as int),
            forall|i: int|
                0 <= i < buffer@.len() ==> #[trigger] buffer@[i] == if drawn_before(
                    i,
                    side as int,
                    grid_size as int,
                    zoom_level as int,
                    0,
                    y as int,
                ) {
                    cell_color(
                        states(ants@),
                        cell_x(i, side as int, zoom_level as int),
                        cell_y(i, side as int, zoom_level as int),
                        overlay,
                    )
                } else {
                    old(buffer)@[i]
                },
        decreases grid_size - y,
    {
        let mut x: usize = 0;
        while x < grid_size
            invariant
                x <= grid_size,
                y < grid_size,
                side == grid_size * cell_size,
                buffer@.len() == old(buffer)@.len() == side * side,
                share_size(states(ants@), grid_size as int),
                forall|i: int|
                    0 <= i < buffer@.len() ==> #[trigger] buffer@[i] == if drawn_before(
                        i,
                        side as int,
                        grid_size as int,
                        zoom_level as int,
                        x as int,
                        y as int,
                    ) {
                        cell_color(
                            states(ants@),
                            cell_x(i, side as int, zoom_level as int),
                            cell_y(i, side as int, zoom_level as int),
                            overlay,
                        )
                    } else {
                        old(buffer)@[i]
                    },
            decreases grid_size - x,
        {
            let color = color_at(ants, x, y, overlay, Ghost(grid_size as int));
            fill_block(buffer, side, x, y, zoom_level, color);
            x += 1;
        }
        y += 1;
        assert forall|i: int| 0 <= i < buffer@.len() implies (drawn_before(
            i,
            side as int,
            grid_size as int,
            zoom_level as int,
            0,
            y as int,
        ) <==> drawn_before(i, side as int, grid_size as int, zoom_level as int, grid_size as int, y - 1)) by {
            if zoom_level > 0 {
                lemma_cell_nonnegative(i, side as int, zoom_level as int);
            }
        }
    }
    assert(buffer@ =~= painted(
        old(buffer)@,
        states(ants@),
        grid_size as int,
        side as int,
        zoom_level as int,
        overlay,
    ));
}

/// Draws the ants' grids into the framebuffer of the window, `WIDTH` by
/// `HEIGHT` pixels, for a grid of side `GRID_SIZE`. The position of the ant
/// is marked when there is exactly one ant. Pixels that no cell covers at
/// this zoom keep what they held.
pub fn draw_grid(buffer: &mut [u32], ants: &[LangtonsAnt], zoom_level: usize)
    requires
        old(buffer)@.len() == WIDTH * HEIGHT,
        share_size(states(ants@), GRID_SIZE as int),
    ensures
        final(buffer)@ == painted(
            old(buffer)@,
            states(ants@),
            GRID_SIZE as int,
            WIDTH as int,
            zoom_level as int,
            ants@.len() == 1,
        ),
{
    rasterize(buffer, ants, GRID_SIZE, CELL_SIZE, zoom_level, ants.len() == 1);
}

/// Sets every pixel of the framebuffer to the background colour.
pub fn clear_frame(buffer: &mut [u32])
    ensures
        final(buffer)@ == blank(old(buffer)@.len()),
{
    let mut i: usize = 0;
    while i < buffer.len()
        invariant
            i <= buffer@.len(),
            buffer@.len() == old(buffer)@.len(),
            forall|k: int| 0 <= k < i ==> #[trigger] buffer@[k] == BACKGROUND,
        decreases buffer@.len() - i,
    {
        buffer[i] = BACKGROUND;
        i += 1;
    }
    assert(buffer@ =~= blank(old(buffer)@.len()));
}

/// The cell that covers a pixel of the framebuffer has a column and a row
/// that are not negative.
proof fn lemma_cell_nonnegative(index: int, side: int, zoom: int)
    requires
        0 <= side,
        0 <= index < side * side,
        zoom > 0,
    ensures
        0 <= cell_x(index, side, zoom),
        0 <= cell_y(index, side, zoom),
{
    lemma_pixel_coords(index, side);
    lemma_div_pos_is_pos(index % side, zoom);
    lemma_div_pos_is_pos(index / side, zoom);
}

} // verus!
