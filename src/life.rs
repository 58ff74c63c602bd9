use vstd::prelude::*;
use vstd::arithmetic::div_mod::lemma_fundamental_div_mod_converse;
use crate::cell::{Cell, Config, is_alive, cells, well_formed};

verus! {

/// Coordinate `i` wrapped onto a ring of `n` places (Euclidean remainder).
pub open spec fn wrap(i: int, n: int) -> int {
    i % n
}

/// 1 when the cell at the wrapped position `(x, y)` is alive, else 0.
pub open spec fn alive_at(g: Seq<Seq<Cell>>, w: int, h: int, x: int, y: int) -> int {
    if is_alive(g[wrap(y, h)][wrap(x, w)]) {
        1
    } else {
        0
    }
}

/// The number of living cells among the eight toroidal neighbours of `(x, y)`.
pub open spec fn neighbor_count(g: Seq<Seq<Cell>>, w: int, h: int, x: int, y: int) -> int {
    alive_at(g, w, h, x - 1, y - 1) + alive_at(g, w, h, x, y - 1) + alive_at(g, w, h, x + 1, y - 1)
        + alive_at(g, w, h, x - 1, y) + alive_at(g, w, h, x + 1, y)
        + alive_at(g, w, h, x - 1, y + 1) + alive_at(g, w, h, x, y + 1)
        + alive_at(g, w, h, x + 1, y + 1)
}

/// An age one generation older, saturating at the counter's maximum.
pub open spec fn older(a: u8) -> u8 {
    if a == u8::MAX {
        a
    } else {
        (a + 1) as u8
    }
}

/// The B3/S23 rule: the next state of a cell with `n` living neighbours.
pub open spec fn next_cell(c: Cell, n: int) -> Cell {
    match c {
        Cell::Alive(a) => if n == 2 || n == 3 {
            Cell::Alive(older(a))
        } else {
            Cell::Dead
        },
        Cell::Dead => if n == 3 {
            Cell::Alive(1)
        } else {
            Cell::Dead
        },
    }
}

/// The next generation of a `w` by `h` board.
pub open spec fn step(g: Seq<Seq<Cell>>, w: int, h: int) -> Seq<Seq<Cell>> {
    Seq::new(
        h as nat,
        |y: int| Seq::new(w as nat, |x: int| next_cell(g[y][x], neighbor_count(g, w, h, x, y))),
    )
}

/// The board after `n` generations.
pub open spec fn generations(g: Seq<Seq<Cell>>, w: int, h: int, n: nat) -> Seq<Seq<Cell>>
    decreases n,
{
    if n == 0 {
        g
    } else {
        step(generations(g, w, h, (n - 1) as nat), w, h)
    }
}

/// The board `g` fits the dimensions of `config`.
pub open spec fn fits(g: &Vec<Vec<Cell>>, config: &Config) -> bool {
    well_formed(cells(g), config.width as int, config.height as int)
}

/// On a ring of `n` places the neighbours of `i` are `i - 1` and `i + 1`,
/// wrapping at both ends.
pub proof fn lemma_wrap_neighbors(i: int, n: int)
    requires
        0 <= i < n,
    ensures
        wrap(i, n) == i,
        wrap(i - 1, n) == if i == 0 { n - 1 } else { i - 1 },
        wrap(i + 1, n) == if i + 1 == n { 0 } else { i + 1 },
{
    lemma_fundamental_div_mod_converse(i, n, 0, i);
    if i == 0 {
        lemma_fundamental_div_mod_converse(i - 1, n, -1, n - 1);
    } else {
        lemma_fundamental_div_mod_converse(i - 1, n, 0, i - 1);
    }
    if i + 1 == n {
        lemma_fundamental_div_mod_converse(i + 1, n, 1, 0);
    } else {
        lemma_fundamental_div_mod_converse(i + 1, n, 0, i + 1);
    }
}

/// 1 for a living cell, 0 for a dead one.
fn alive_count(c: Cell) -> (r: usize)
    ensures
        r == (if is_alive(c) { 1int } else { 0int }),
{
    match c {
        Cell::Alive(_) => 1,
        Cell::Dead => 0,
    }
}

/// Counts the living cells among the eight neighbours of `(x, y)`, wrapping
/// around the edges of the board.
pub fn count_neighbors(grid: &Vec<Vec<Cell>>, x: usize, y: usize, config: &Config) -> (r: usize)
    requires
        fits(grid, config),
        x < config.width,
        y < config.height,
    ensures
        r == neighbor_count(cells(grid), config.width as int, config.height as int, x as int, y as int),
{
    let w = config.width;
    let h = config.height;
    let left = if x == 0 { w - 1 } else { x - 1 };
    let right = if x + 1 == w { 0 } else { x + 1 };
    let up = if y == 0 { h - 1 } else { y - 1 };
    let down = if y + 1 == h { 0 } else { y + 1 };
    proof {
        lemma_wrap_neighbors(x as int, w as int);
        lemma_wrap_neighbors(y as int, h as int);
        assert(cells(grid)[up as int] == grid@[up as int]@);
        assert(cells(grid)[y as int] == grid@[y as int]@);
        assert(cells(grid)[down as int] == grid@[down as int]@);
    }
    let mut count: usize = 0;
    count = count + alive_count(grid[up][left]);
    count = count + alive_count(grid[up][x]);
    count = count + alive_count(grid[up][right]);
    count = count + alive_count(grid[y][left]);
    count = count + alive_count(grid[y][right]);
    count = count + alive_count(grid[down][left]);
    count = count + alive_count(grid[down][x]);
    count = count + alive_count(grid[down][right]);
    count
}

/// The next state of a cell that has `neighbors` living neighbours.
pub fn next_state(cell: Cell, neighbors: usize) -> (r: Cell)
    ensures
        r == next_cell(cell, neighbors as int),
{
    match (cell, neighbors) {
        (Cell::Alive(age), 2 | 3) => Cell::Alive(age.saturating_add(1)),
        (Cell::Alive(_), _) => Cell::Dead,
        (Cell::Dead, 3) => Cell::Alive(1),
        _ => Cell::Dead,
    }
}

/// Computes the next generation of the board. The input is only read: every
/// cell of the result is computed from the cells of the current generation.
pub fn next_generation(grid: &Vec<Vec<Cell>>, config: &Config) -> (r: Vec<Vec<Cell>>)
    requires
        fits(grid, config),
    ensures
        cells(&r) == step(cells(grid), config.width as int, config.height as int),
{
    let w = config.width;
    let h = config.height;
    let ghost g = cells(grid);
    let ghost next = step(g, w as int, h as int);
    let mut new_grid: Vec<Vec<Cell>> = Vec::new();
    let mut y: usize = 0;
    while y < h
        invariant
            fits(grid, config),
            g == cells(grid),
            next == step(g, w as int, h as int),
            w == config.width,
            h == config.height,
            y <= h,
            new_grid@.len() == y,
            forall|j: int| 0 <= j < y ==> #[trigger] new_grid@[j]@ == next[j],
        decreases h - y,
    {
        let mut row: Vec<Cell> = Vec::new();
        let mut x: usize = 0;
        while x < w
            invariant
                fits(grid, config),
                g == cells(grid),
                next == step(g, w as int, h as int),
                w == config.width,
                h == config.height,
                y < h,
                x <= w,
                row@.len() == x,
                forall|i: int| 0 <= i < x ==> #[trigger] row@[i] == next[y as int][i],
            decreases w - x,
        {
            let neighbors = count_neighbors(grid, x, y, config);
            proof {
                assert(g[y as int] == grid@[y as int]@);
            }
            let c = next_state(grid[y][x], neighbors);
            row.push(c);
            x = x + 1;
        }
        assert(row@ =~= next[y as int]);
        new_grid.push(row);
        y = y + 1;
    }
    assert(cells(&new_grid) =~= next);
    new_grid
}

/// Toroidal adjacency: on a board at least three cells wide and high, bringing
/// to life any one of the eight neighbours of `(x, y)`, wrapped across the
/// edges of the board, raises the neighbour count of `(x, y)` by exactly one.
pub proof fn lemma_wrapped_neighbor_counted(
    g: Seq<Seq<Cell>>,
    w: int,
    h: int,
    x: int,
    y: int,
    dx: int,
    dy: int,
    c: Cell,
)
    requires
        well_formed(g, w, h),
        w >= 3,
        h >= 3,
        0 <= x < w,
        0 <= y < h,
        -1 <= dx <= 1,
        -1 <= dy <= 1,
        dx != 0 || dy != 0,
        !is_alive(g[wrap(y + dy, h)][wrap(x + dx, w)]),
        is_alive(c),
    ensures
        neighbor_count(
            g.update(wrap(y + dy, h), g[wrap(y + dy, h)].update(wrap(x + dx, w), c)),
            w,
            h,
            x,
            y,
        ) == neighbor_count(g, w, h, x, y) + 1,
{
    lemma_wrap_neighbors(x, w);
    lemma_wrap_neighbors(y, h);
}

/// Still life: on a board at least three cells wide and high whose only
/// living cells form the 2 by 2 block at `(0, 0)`, `(1, 0)`, `(0, 1)` and
/// `(1, 1)`, the next generation has exactly the same living cells.
pub proof fn lemma_block_still_life(g: Seq<Seq<Cell>>, w: int, h: int)
    requires
        well_formed(g, w, h),
        w >= 3,
        h >= 3,
        forall|x: int, y: int|
            0 <= x < w && 0 <= y < h ==> (is_alive(#[trigger] g[y][x]) <==> (x < 2 && y < 2)),
    ensures
        forall|x: int, y: int|
            0 <= x < w && 0 <= y < h ==> (is_alive(#[trigger] step(g, w, h)[y][x]) <==> (x < 2 && y
                < 2)),
{
    assert forall|x: int, y: int| 0 <= x < w && 0 <= y < h implies (is_alive(
        #[trigger] step(g, w, h)[y][x],
    ) <==> (x < 2 && y < 2)) by {
        lemma_wrap_neighbors(x, w);
        lemma_wrap_neighbors(y, h);
    }
}

/// Period two: on a board at least four cells wide and high whose only
/// living cells are the horizontal blinker `(0, 1)`, `(1, 1)`, `(2, 1)`, the
/// next generation's living cells are the vertical blinker `(1, 0)`, `(1, 1)`,
/// `(1, 2)`, which differs from it, and the generation after that has the
/// horizontal blinker's living cells again.
pub proof fn lemma_blinker_period_two(g: Seq<Seq<Cell>>, w: int, h: int)
    requires
        well_formed(g, w, h),
        w >= 4,
        h >= 4,
        forall|x: int, y: int|
            0 <= x < w && 0 <= y < h ==> (is_alive(#[trigger] g[y][x]) <==> (y == 1 && x < 3)),
    ensures
        forall|x: int, y: int|
            0 <= x < w && 0 <= y < h ==> (is_alive(#[trigger] generations(g, w, h, 1)[y][x]) <==> (
            x == 1 && y < 3)),
        is_alive(g[1][0]) && !is_alive(generations(g, w, h, 1)[1][0]),
        forall|x: int, y: int|
            0 <= x < w && 0 <= y < h ==> (is_alive(#[trigger] generations(g, w, h, 2)[y][x]) <==> (
            y == 1 && x < 3)),
{
    let one = step(g, w, h);
    assert(generations(g, w, h, 0) == g);
    assert(generations(g, w, h, 1) == one);
    assert forall|x: int, y: int| 0 <= x < w && 0 <= y < h implies (is_alive(
        #[trigger] one[y][x],
    ) <==> (x == 1 && y < 3)) by {
        lemma_wrap_neighbors(x, w);
        lemma_wrap_neighbors(y, h);
    }
    lemma_step_well_formed(g, w, h);
    let two = step(one, w, h);
    assert(generations(g, w, h, 2) == two);
    assert forall|x: int, y: int| 0 <= x < w && 0 <= y < h implies (is_alive(
        #[trigger] two[y][x],
    ) <==> (y == 1 && x < 3)) by {
        lemma_wrap_neighbors(x, w);
        lemma_wrap_neighbors(y, h);
    }
}

/// The glider: the cells `(1, 0)`, `(2, 1)`, `(0, 2)`, `(1, 2)`, `(2, 2)`.
pub open spec fn glider_shape(x: int, y: int) -> bool {
    (x == 1 && y == 0) || (x == 2 && y == 1) || (y == 2 && 0 <= x < 3)
}

/// Spaceship: on a board at least five cells wide and high whose only living
/// cells form the glider, the living cells four generations later form the
/// same glider moved by one cell right and one cell down.
pub proof fn lemma_glider_moves_diagonally(g: Seq<Seq<Cell>>, w: int, h: int)
    requires
        well_formed(g, w, h),
        w >= 5,
        h >= 5,
        forall|x: int, y: int|
            0 <= x < w && 0 <= y < h ==> (is_alive(#[trigger] g[y][x]) <==> glider_shape(x, y)),
    ensures
        forall|x: int, y: int|
            0 <= x < w && 0 <= y < h ==> (is_alive(#[trigger] generations(g, w, h, 4)[y][x])
                <==> glider_shape(x - 1, y - 1)),
{
    assert(generations(g, w, h, 0) == g);
    let p1 = step(g, w, h);
    assert(generations(g, w, h, 1) == p1);
    assert forall|x: int, y: int| 0 <= x < w && 0 <= y < h implies (is_alive(
        #[trigger] p1[y][x],
    ) <==> ((y == 1 && (x == 0 || x == 2)) || (y == 2 && (x == 1 || x == 2)) || (x == 1 && y == 3))) by {
        lemma_wrap_neighbors(x, w);
        lemma_wrap_neighbors(y, h);
    }
    lemma_step_well_formed(g, w, h);
    let p2 = step(p1, w, h);
    assert(generations(g, w, h, 2) == p2);
    assert forall|x: int, y: int| 0 <= x < w && 0 <= y < h implies (is_alive(
        #[trigger] p2[y][x],
    ) <==> ((x == 2 && y == 1) || (y == 2 && (x == 0 || x == 2)) || (y == 3 && (x == 1 || x == 2)))) by {
        lemma_wrap_neighbors(x, w);
        lemma_wrap_neighbors(y, h);
    }
    lemma_step_well_formed(p1, w, h);
    let p3 = step(p2, w, h);
    assert(generations(g, w, h, 3) == p3);
    assert forall|x: int, y: int| 0 <= x < w && 0 <= y < h implies (is_alive(
        #[trigger] p3[y][x],
    ) <==> ((x == 1 && y == 1) || (y == 2 && (x == 2 || x == 3)) || (y == 3 && (x == 1 || x == 2)))) by {
        lemma_wrap_neighbors(x, w);
        lemma_wrap_neighbors(y, h);
    }
    lemma_step_well_formed(p2, w, h);
    let p4 = step(p3, w, h);
    assert(generations(g, w, h, 4) == p4);
    assert forall|x: int, y: int| 0 <= x < w && 0 <= y < h implies (is_alive(
        #[trigger] p4[y][x],
    ) <==> (glider_shape(x - 1, y - 1))) by {
        lemma_wrap_neighbors(x, w);
        lemma_wrap_neighbors(y, h);
    }
}

/// The next generation has the dimensions of the current one.
pub proof fn lemma_step_well_formed(g: Seq<Seq<Cell>>, w: int, h: int)
    requires
        well_formed(g, w, h),
    ensures
        well_formed(step(g, w, h), w, h),
{
    let s = step(g, w, h);
    assert forall|y: int| 0 <= y < h implies #[trigger] s[y].len() == w by {}
}

/// Every generation has the dimensions of the first.
pub proof fn lemma_generations_well_formed(g: Seq<Seq<Cell>>, w: int, h: int, n: nat)
    requires
        well_formed(g, w, h),
    ensures
        well_formed(generations(g, w, h, n), w, h),
    decreases n,
{
    if n > 0 {
        lemma_generations_well_formed(g, w, h, (n - 1) as nat);
        lemma_step_well_formed(generations(g, w, h, (n - 1) as nat), w, h);
    }
}

/// Age counting: a living cell of age `a` that has two or three living
/// neighbours in each of `n` consecutive generations is still alive after
/// them, with age `a + n`, saturating at the counter's maximum.
pub proof fn lemma_age_counts_generations(
    g: Seq<Seq<Cell>>,
    w: int,
    h: int,
    x: int,
    y: int,
    a: u8,
    n: nat,
)
    requires
        well_formed(g, w, h),
        0 <= x < w,
        0 <= y < h,
        g[y][x] == Cell::Alive(a),
        forall|k: nat|
            k < n ==> {
                let c = neighbor_count(#[trigger] generations(g, w, h, k), w, h, x, y);
                c == 2 || c == 3
            },
    ensures
        generations(g, w, h, n)[y][x] == Cell::Alive(
            if a + n > u8::MAX { u8::MAX } else { (a + n) as u8 },
        ),
    decreases n,
{
    if n > 0 {
        let m = (n - 1) as nat;
        lemma_age_counts_generations(g, w, h, x, y, a, m);
        lemma_generations_well_formed(g, w, h, m);
        let prev = generations(g, w, h, m);
        let c = neighbor_count(prev, w, h, x, y);
        assert(c == 2 || c == 3);
        assert(generations(g, w, h, n) == step(prev, w, h));
    }
}

} // verus!
