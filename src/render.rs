use vstd::prelude::*;
use vstd::arithmetic::div_mod::{
    lemma_div_pos_is_pos, lemma_fundamental_div_mod, lemma_fundamental_div_mod_converse,
    lemma_mod_bound, lemma_multiply_divide_lt,
};
use vstd::arithmetic::mul::{lemma_mul_inequality, lemma_mul_is_commutative};
use crate::cell::{Cell, Config, cells};
use crate::life::fits;

verus! {

/// A colour channel: `v` clamped to `0..=255`.
pub open spec fn channel(v: int) -> u32 {
    if v < 0 {
        0
    } else if v > 255 {
        255
    } else {
        v as u32
    }
}

/// The 0xRRGGBB colour with the given channels.
pub open spec fn rgb(r: u32, g: u32, b: u32) -> u32 {
    (r << 16) | (g << 8) | b
}

/// The colour of a cell: black when dead; when alive, white, or in colour
/// mode a colour whose red and blue grow and whose green fades with age.
pub open spec fn color_of(c: Cell, color_mode: bool) -> u32 {
    match c {
        Cell::Dead => 0,
        Cell::Alive(age) => if color_mode {
            rgb(channel(50 + 20 * age), channel(255 - 15 * age), channel(50 + 5 * age))
        } else {
            0xFFFFFF
        },
    }
}

/// The number of pixels in one row of the rendered board.
pub open spec fn stride(config: &Config) -> int {
    config.width * config.scale
}

/// The number of pixels of the rendered board.
pub open spec fn pixel_count(config: &Config) -> int {
    (config.height * config.scale) * stride(config)
}

/// The column, in cells, of the pixel at buffer index `i`.
pub open spec fn cell_x(config: &Config, i: int) -> int {
    (i % stride(config)) / (config.scale as int)
}

/// The row, in cells, of the pixel at buffer index `i`.
pub open spec fn cell_y(config: &Config, i: int) -> int {
    (i / stride(config)) / (config.scale as int)
}

/// The pixel at buffer index `i` belongs to cell `(x, y)`.
pub open spec fn in_cell(config: &Config, i: int, x: int, y: int) -> bool {
    cell_x(config, i) == x && cell_y(config, i) == y
}

/// Dimensions under which a board can be rendered into a buffer whose
/// indices fit in `usize`.
pub open spec fn renderable(config: &Config) -> bool {
    &&& config.width > 0
    &&& config.height > 0
    &&& config.scale > 0
    &&& pixel_count(config) <= usize::MAX
}

/// A channel value clamped to at most 255.
fn clamp_channel(v: u32) -> (r: u32)
    ensures
        r == channel(v as int),
{
    if v > 255 {
        255
    } else {
        v
    }
}

/// The colour in which a cell is drawn.
pub fn get_color(cell: Cell, color_mode: bool) -> (r: u32)
    ensures
        r == color_of(cell, color_mode),
{
    match cell {
        Cell::Dead => 0x000000,
        Cell::Alive(age) => {
            if color_mode {
                let age = age as u32;
                let r = 50 + 20 * age;
                let g = 255u32.saturating_sub(15 * age);
                let b = 50 + 5 * age;
                (clamp_channel(r) << 16) | (clamp_channel(g) << 8) | clamp_channel(b)
            } else {
                0xFFFFFF
            }
        },
    }
}

/// Pixel `(px, py)` lies at index `py * stride + px`, and that index gives
/// back the pixel.
proof fn lemma_pixel_index(stride: int, px: int, py: int)
    requires
        0 <= px < stride,
        0 <= py,
    ensures
        (py * stride + px) / stride == py,
        (py * stride + px) % stride == px,
{
    lemma_fundamental_div_mod_converse(py * stride + px, stride, py, px);
}

/// `a / s == q` exactly when `a` lies in `q * s .. q * s + s`.
proof fn lemma_div_block(a: int, s: int, q: int)
    requires
        s > 0,
        0 <= a,
    ensures
        (a / s == q) <==> (q * s <= a < q * s + s),
{
    lemma_fundamental_div_mod(a, s);
    lemma_mul_is_commutative(s, a / s);
    if q * s <= a < q * s + s {
        lemma_fundamental_div_mod_converse(a, s, q, a - q * s);
    }
}

/// Buffer index `i` of the rendered board splits into a pixel row and
/// column, and lies in a cell of the board.
proof fn lemma_pixel_cell_in_board(config: &Config, i: int)
    requires
        renderable(config),
        0 <= i < pixel_count(config),
    ensures
        0 <= i % stride(config) < stride(config),
        0 <= i / stride(config) < config.height * config.scale,
        i == (i / stride(config)) * stride(config) + i % stride(config),
        0 <= cell_x(config, i) < config.width,
        0 <= cell_y(config, i) < config.height,
{
    let s = config.scale as int;
    let w = config.width as int;
    let hs = config.height * s;
    let row = stride(config);
    lemma_mul_inequality(1, w, s);
    lemma_fundamental_div_mod(i, row);
    lemma_mul_is_commutative(row, i / row);
    lemma_mul_is_commutative(hs, row);
    lemma_multiply_divide_lt(i, row, hs);
    lemma_div_pos_is_pos(i, row);
    lemma_mod_bound(i, row);
    lemma_div_pos_is_pos(i % row, s);
    lemma_div_pos_is_pos(i / row, s);
    lemma_mul_is_commutative(w, s);
    lemma_multiply_divide_lt(i % row, s, w);
    lemma_mul_is_commutative(config.height as int, s);
    lemma_multiply_divide_lt(i / row, s, config.height as int);
}

/// Each cell owns a whole `scale` by `scale` block: pixel `(dx, dy)` of the
/// block of cell `(cx, cy)` lies in the buffer, and the cell that the buffer
/// index of that pixel maps back to is `(cx, cy)`. With `render`'s contract
/// this makes every block one colour, the colour of its cell.
pub proof fn lemma_block_pixels_belong_to_cell(config: &Config, cx: int, cy: int, dx: int, dy: int)
    requires
        renderable(config),
        0 <= cx < config.width,
        0 <= cy < config.height,
        0 <= dx < config.scale,
        0 <= dy < config.scale,
    ensures
        0 <= (cy * config.scale + dy) * stride(config) + cx * config.scale + dx < pixel_count(
            config,
        ),
        cell_x(config, (cy * config.scale + dy) * stride(config) + cx * config.scale + dx) == cx,
        cell_y(config, (cy * config.scale + dy) * stride(config) + cx * config.scale + dx) == cy,
{
    let s = config.scale as int;
    let row = stride(config);
    let hs = config.height * s;
    let px = cx * s + dx;
    let py = cy * s + dy;
    lemma_mul_inequality(cx + 1, config.width as int, s);
    lemma_mul_inequality(cy + 1, config.height as int, s);
    assert((cx + 1) * s == cx * s + s) by (nonlinear_arith);
    assert((cy + 1) * s == cy * s + s) by (nonlinear_arith);
    lemma_mul_inequality(0, cx, s);
    lemma_mul_inequality(0, cy, s);
    lemma_mul_inequality(py + 1, hs, row);
    assert((py + 1) * row == py * row + row) by (nonlinear_arith);
    lemma_mul_inequality(0, py, row);
    lemma_mul_is_commutative(hs, row);
    lemma_pixel_index(row, px, py);
    lemma_div_block(px, s, cx);
    lemma_div_block(py, s, cy);
}

/// Pixel `i` lies in the block of `s` by `s` pixels at `(x0, y0)` of rows
/// `row` pixels long, in one of its first `dy` rows or in the first `dx`
/// pixels of row `dy`.
spec fn block_done(i: int, row: int, x0: int, y0: int, s: int, dy: int, dx: int) -> bool {
    let px = i % row;
    let py = i / row;
    &&& x0 <= px
    &&& px < x0 + s
    &&& ((y0 <= py && py < y0 + dy) || (py == y0 + dy && px < x0 + dx))
}

/// Fills the `scale` by `scale` block of pixels of cell `(x, y)` with
/// `color`, leaving every other pixel as it was.
pub fn point(buffer: &mut Vec<u32>, config: &Config, x: usize, y: usize, color: u32)
    requires
        renderable(config),
        old(buffer)@.len() == pixel_count(config),
        x < config.width,
        y < config.height,
    ensures
        final(buffer)@.len() == old(buffer)@.len(),
        forall|i: int|
            0 <= i < old(buffer)@.len() ==> #[trigger] final(buffer)@[i] == (if in_cell(
                config,
                i,
                x as int,
                y as int,
            ) {
                color
            } else {
                old(buffer)@[i]
            }),
{
    let ghost start = buffer@;
    let ghost len = start.len() as int;
    let ghost hs = config.height * config.scale;
    let ghost si = config.scale as int;
    let ghost rw = stride(config);
    proof {
        lemma_mul_inequality(1, config.height as int, si);
        lemma_mul_inequality(1, config.width as int, si);
        lemma_mul_inequality(1, hs, rw);
        lemma_mul_inequality(1, rw, hs);
        lemma_mul_inequality(x as int + 1, config.width as int, si);
        lemma_mul_inequality(y as int + 1, config.height as int, si);
        assert((x as int + 1) * si == x as int * si + si) by (nonlinear_arith);
        assert((y as int + 1) * si == y as int * si + si) by (nonlinear_arith);
        lemma_mul_is_commutative(hs, rw);
        assert forall|i: int| 0 <= i < len implies i == (i / rw) * rw + #[trigger] (i % rw) by {
            lemma_pixel_cell_in_board(config, i);
        }
    }
    let s = config.scale;
    let row = config.width * s;
    let x0 = x * s;
    let y0 = y * s;
    let mut dy: usize = 0;
    while dy < s
        invariant
            renderable(config),
            s == config.scale,
            si == s,
            row == stride(config),
            rw == row,
            hs == config.height * config.scale,
            len == pixel_count(config),
            len == hs * rw,
            x0 == x * s,
            y0 == y * s,
            x0 + s <= row,
            y0 + s <= hs,
            hs <= len,
            dy <= s,
            buffer@.len() == len,
            forall|i: int| 0 <= i < len ==> i == (i / rw) * rw + #[trigger] (i % rw),
            forall|i: int|
                0 <= i < len ==> #[trigger] buffer@[i] == (if block_done(
                    i,
                    rw,
                    x0 as int,
                    y0 as int,
                    si,
                    dy as int,
                    0,
                ) {
                    color
                } else {
                    start[i]
                }),
        decreases s - dy,
    {
        let mut dx: usize = 0;
        while dx < s
            invariant
                renderable(config),
                s == config.scale,
                si == s,
                row == stride(config),
                rw == row,
                hs == config.height * config.scale,
                len == pixel_count(config),
                len == hs * rw,
                x0 == x * s,
                y0 == y * s,
                x0 + s <= row,
                y0 + s <= hs,
                hs <= len,
                dy < s,
                dx <= s,
                buffer@.len() == len,
                forall|i: int| 0 <= i < len ==> i == (i / rw) * rw + #[trigger] (i % rw),
                forall|i: int|
                    0 <= i < len ==> #[trigger] buffer@[i] == (if block_done(
                        i,
                        rw,
                        x0 as int,
                        y0 as int,
                        si,
                        dy as int,
                        dx as int,
                    ) {
                        color
                    } else {
                        start[i]
                    }),
            decreases s - dx,
        {
            let px = x0 + dx;
            let py = y0 + dy;
            proof {
                lemma_mul_inequality(py as int + 1, hs, rw);
                assert((py as int + 1) * rw == py as int * rw + rw) by (nonlinear_arith);
                lemma_pixel_index(rw, px as int, py as int);
            }
            let idx = py * row + px;
            buffer.set(idx, color);
            dx = dx + 1;
        }
        dy = dy + 1;
    }
    proof {
        assert forall|i: int| 0 <= i < len implies #[trigger] buffer@[i] == (if in_cell(
            config,
            i,
            x as int,
            y as int,
        ) {
            color
        } else {
            start[i]
        }) by {
            lemma_pixel_cell_in_board(config, i);
            lemma_div_block(i % rw, si, x as int);
            lemma_div_block(i / rw, si, y as int);
        }
    }
}

/// Draws the whole board: every pixel takes the colour of the cell whose
/// `scale` by `scale` block holds it.
pub fn render(buffer: &mut Vec<u32>, grid: &Vec<Vec<Cell>>, config: &Config)
    requires
        fits(grid, config),
        renderable(config),
        old(buffer)@.len() == pixel_count(config),
    ensures
        final(buffer)@.len() == old(buffer)@.len(),
        forall|i: int|
            0 <= i < old(buffer)@.len() ==> #[trigger] final(buffer)@[i] == color_of(
                cells(grid)[cell_y(config, i)][cell_x(config, i)],
                config.color_mode,
            ),
{
    let ghost len = buffer@.len() as int;
    proof {
        assert forall|i: int| 0 <= i < len implies 0 <= #[trigger] cell_x(config, i)
            < config.width && 0 <= cell_y(config, i) < config.height by {
            lemma_pixel_cell_in_board(config, i);
        }
    }
    let mut y: usize = 0;
    while y < config.height
        invariant
            fits(grid, config),
            renderable(config),
            len == pixel_count(config),
            buffer@.len() == len,
            y <= config.height,
            forall|i: int|
                0 <= i < len ==> 0 <= #[trigger] cell_x(config, i) < config.width && 0 <= cell_y(
                    config,
                    i,
                ) < config.height,
            forall|i: int|
                0 <= i < len && cell_y(config, i) < y ==> #[trigger] buffer@[i] == color_of(
                    cells(grid)[cell_y(config, i)][cell_x(config, i)],
                    config.color_mode,
                ),
        decreases config.height - y,
    {
        let mut x: usize = 0;
        while x < config.width
            invariant
                fits(grid, config),
                renderable(config),
                len == pixel_count(config),
                buffer@.len() == len,
                y < config.height,
                x <= config.width,
                forall|i: int|
                    0 <= i < len ==> 0 <= #[trigger] cell_x(config, i) < config.width && 0 <= cell_y(
                        config,
                        i,
                    ) < config.height,
                forall|i: int|
                    0 <= i < len && (cell_y(config, i) < y || (cell_y(config, i) == y && cell_x(
                        config,
                        i,
                    ) < x)) ==> #[trigger] buffer@[i] == color_of(
                        cells(grid)[cell_y(config, i)][cell_x(config, i)],
                        config.color_mode,
                    ),
            decreases config.width - x,
        {
            proof {
                assert(cells(grid)[y as int] == grid@[y as int]@);
            }
            let color = get_color(grid[y][x], config.color_mode);
            point(buffer, config, x, y, color);
            x = x + 1;
        }
        y = y + 1;
    }
    proof {
        assert forall|i: int| 0 <= i < len implies #[trigger] buffer@[i] == color_of(
            cells(grid)[cell_y(config, i)][cell_x(config, i)],
            config.color_mode,
        ) by {
            lemma_pixel_cell_in_board(config, i);
        }
    }
}

} // verus!
