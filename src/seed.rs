use vstd::prelude::*;
use crate::cell::{Cell, Config, cells, well_formed};
use crate::life::fits;

verus! {

/// Some cell of `pattern`, shifted by `(ox, oy)`, lands on `(x, y)`.
pub open spec fn covers(pattern: Seq<(usize, usize)>, ox: int, oy: int, x: int, y: int) -> bool {
    exists|k: int| 0 <= k < pattern.len() && ox + pattern[k].0 == x && oy + pattern[k].1 == y
}

/// Stamps `pattern` onto the board with its origin at `(ox, oy)`: each of its
/// cells that lands on the board becomes alive with age 1; cells that would
/// fall outside the board are skipped.
pub fn place(
    grid: &mut Vec<Vec<Cell>>,
    pattern: &[(usize, usize)],
    ox: usize,
    oy: usize,
    config: &Config,
)
    requires
        fits(old(grid), config),
    ensures
        fits(final(grid), config),
        forall|x: int, y: int|
            0 <= x < config.width && 0 <= y < config.height ==> #[trigger] cells(final(grid))[y][x]
                == if covers(pattern@, ox as int, oy as int, x, y) {
                Cell::Alive(1)
            } else {
                cells(old(grid))[y][x]
            },
{
    let w = config.width;
    let h = config.height;
    let ghost start = cells(grid);
    let mut i: usize = 0;
    while i < pattern.len()
        invariant
            w == config.width,
            h == config.height,
            well_formed(start, w as int, h as int),
            fits(grid, config),
            i <= pattern@.len(),
            forall|x: int, y: int|
                0 <= x < w && 0 <= y < h ==> #[trigger] cells(grid)[y][x] == if covers(
                    pattern@.subrange(0, i as int),
                    ox as int,
                    oy as int,
                    x,
                    y,
                ) {
                    Cell::Alive(1)
                } else {
                    start[y][x]
                },
        decreases pattern@.len() - i,
    {
        let (px, py) = pattern[i];
        if px < w && ox < w - px && py < h && oy < h - py {
            let nx = ox + px;
            let ny = oy + py;
            let ghost before = cells(grid);
            proof {
                assert(before[ny as int] == grid@[ny as int]@);
            }
            grid[ny].set(nx, Cell::Alive(1));
            proof {
                assert(cells(grid) =~= before.update(
                    ny as int,
                    before[ny as int].update(nx as int, Cell::Alive(1)),
                ));
            }
        }
        proof {
            let done = pattern@.subrange(0, i as int + 1);
            assert forall|x: int, y: int| 0 <= x < w && 0 <= y < h implies covers(
                done,
                ox as int,
                oy as int,
                x,
                y,
            ) == (covers(pattern@.subrange(0, i as int), ox as int, oy as int, x, y) || (ox + px
                == x && oy + py == y)) by {
                if ox + px == x && oy + py == y {
                    assert(done[i as int] == pattern@[i as int]);
                }
                if covers(pattern@.subrange(0, i as int), ox as int, oy as int, x, y) {
                    let k = choose|k: int|
                        0 <= k < i && ox + pattern@.subrange(0, i as int)[k].0 == x && oy
                            + pattern@.subrange(0, i as int)[k].1 == y;
                    assert(done[k] == pattern@.subrange(0, i as int)[k]);
                }
                if covers(done, ox as int, oy as int, x, y) {
                    let k = choose|k: int|
                        0 <= k < i + 1 && ox + done[k].0 == x && oy + done[k].1 == y;
                    if k < i {
                        assert(done[k] == pattern@.subrange(0, i as int)[k]);
                    }
                }
            }
        }
        i = i + 1;
    }
    assert(pattern@.subrange(0, pattern@.len() as int) =~= pattern@);
}


/// A board of `config`'s size with every cell dead.
pub fn dead_grid(config: &Config) -> (r: Vec<Vec<Cell>>)
    requires
        config.width > 0,
        config.height > 0,
    ensures
        fits(&r, config),
        forall|x: int, y: int|
            0 <= x < config.width && 0 <= y < config.height ==> #[trigger] cells(&r)[y][x]
                == Cell::Dead,
{
    let mut grid: Vec<Vec<Cell>> = Vec::new();
    let mut y: usize = 0;
    while y < config.height
        invariant
            y <= config.height,
            grid@.len() == y,
            forall|j: int| 0 <= j < y ==> #[trigger] grid@[j]@ == Seq::new(config.width as nat, |i: int| Cell::Dead),
        decreases config.height - y,
    {
        let mut row: Vec<Cell> = Vec::new();
        let mut x: usize = 0;
        while x < config.width
            invariant
                x <= config.width,
                row@ == Seq::new(x as nat, |i: int| Cell::Dead),
            decreases config.width - x,
        {
            row.push(Cell::Dead);
            x = x + 1;
        }
        grid.push(row);
        y = y + 1;
    }
    grid
}

/// The Gosper glider gun.
pub open spec fn gosper_gun_cells() -> Seq<(usize, usize)> {
    seq![
        (1usize, 5usize), (1, 6), (2, 5), (2, 6), (11, 5), (11, 6), (11, 7), (12, 4), (12, 8),
        (13, 3), (13, 9),
        (14, 3), (14, 9), (15, 6), (16, 4), (16, 8), (17, 5), (17, 6), (17, 7), (18, 6),
        (21, 3), (21, 4), (21, 5), (22, 3), (22, 4), (22, 5), (23, 2), (23, 6), (25, 1),
        (25, 2), (25, 6), (25, 7), (35, 3), (35, 4), (36, 3), (36, 4),
    ]
}

/// The glider, a spaceship of period 4.
pub open spec fn glider_cells() -> Seq<(usize, usize)> {
    seq![
        (1usize, 0usize), (2, 1), (0, 2), (1, 2), (2, 2),
    ]
}

/// The lightweight spaceship.
pub open spec fn lightweight_spaceship_cells() -> Seq<(usize, usize)> {
    seq![
        (1usize, 0usize), (4, 0), (0, 1), (0, 2), (4, 2), (0, 3), (1, 3), (2, 3), (3, 3),
    ]
}

/// The middleweight spaceship.
pub open spec fn middleweight_spaceship_cells() -> Seq<(usize, usize)> {
    seq![
        (1usize, 0usize), (4, 0), (5, 1), (0, 2), (5, 2), (0, 3), (1, 3), (2, 3), (3, 3), (4, 3),
    ]
}

/// The heavyweight spaceship.
pub open spec fn heavyweight_spaceship_cells() -> Seq<(usize, usize)> {
    seq![
        (2usize, 0usize), (5, 0), (6, 1), (0, 2), (6, 2), (0, 3), (1, 3), (2, 3), (3, 3), (4, 3),
        (5, 3),
    ]
}

/// The pulsar, an oscillator of period 3.
pub open spec fn pulsar_cells() -> Seq<(usize, usize)> {
    seq![
        (2usize, 0usize), (3, 0), (4, 0), (8, 0), (9, 0), (10, 0), (0, 2), (5, 2), (7, 2), (12, 2),
        (0, 3),
        (5, 3), (7, 3), (12, 3), (0, 4), (5, 4), (7, 4), (12, 4), (2, 5), (3, 5), (4, 5),
        (8, 5), (9, 5), (10, 5), (2, 7), (3, 7), (4, 7), (8, 7), (9, 7), (10, 7), (0, 8),
        (5, 8), (7, 8), (12, 8), (0, 9), (5, 9), (7, 9), (12, 9), (0, 10), (5, 10), (7, 10),
        (12, 10), (2, 12), (3, 12), (4, 12), (8, 12), (9, 12), (10, 12),
    ]
}

/// The pentadecathlon entry: a row of ten cells with two cells beneath it.
pub open spec fn pentadecathlon_cells() -> Seq<(usize, usize)> {
    seq![
        (2usize, 0usize), (3, 0), (4, 0), (5, 0), (6, 0), (7, 0), (8, 0), (9, 0), (10, 0), (11, 0),
        (3, 1),
        (10, 1),
    ]
}

/// The traffic light entry; these six cells form a beehive.
pub open spec fn traffic_light_cells() -> Seq<(usize, usize)> {
    seq![
        (1usize, 0usize), (2, 0), (0, 1), (3, 1), (1, 2), (2, 2),
    ]
}

/// The block, a still life.
pub open spec fn block_cells() -> Seq<(usize, usize)> {
    seq![
        (0usize, 0usize), (1, 0), (0, 1), (1, 1),
    ]
}

/// The boat, a still life.
pub open spec fn boat_cells() -> Seq<(usize, usize)> {
    seq![
        (0usize, 0usize), (1, 0), (0, 1), (2, 1), (1, 2),
    ]
}

/// The beehive, a still life.
pub open spec fn beehive_cells() -> Seq<(usize, usize)> {
    seq![
        (1usize, 0usize), (2, 0), (0, 1), (3, 1), (1, 2), (2, 2),
    ]
}

/// Diehard, which dies out after 130 generations.
pub open spec fn diehard_cells() -> Seq<(usize, usize)> {
    seq![
        (6usize, 0usize), (0, 1), (1, 1), (1, 2), (5, 2), (6, 2), (7, 2),
    ]
}

/// Acorn, a long-lived methuselah.
pub open spec fn acorn_cells() -> Seq<(usize, usize)> {
    seq![
        (1usize, 0usize), (3, 1), (0, 2), (1, 2), (4, 2), (5, 2), (6, 2),
    ]
}

/// A larger diehard-like seed.
pub open spec fn giant_diehard_cells() -> Seq<(usize, usize)> {
    seq![
        (6usize, 1usize), (0, 2), (1, 2), (1, 3), (5, 3), (6, 3), (7, 3), (0, 10), (1, 11),
        (2, 11), (3, 11),
        (4, 11), (5, 11), (6, 11),
    ]
}

/// The seed board's catalogue: each structure with the place of its origin,
/// in the order in which they are stamped.
pub open spec fn seed_catalogue() -> Seq<(Seq<(usize, usize)>, usize, usize)> {
    seq![
        (gosper_gun_cells(), 2usize, 2usize),
        (gosper_gun_cells(), 60usize, 60usize),
        (glider_cells(), 10usize, 85usize),
        (glider_cells(), 15usize, 80usize),
        (glider_cells(), 20usize, 75usize),
        (glider_cells(), 80usize, 10usize),
        (glider_cells(), 85usize, 15usize),
        (lightweight_spaceship_cells(), 40usize, 30usize),
        (lightweight_spaceship_cells(), 50usize, 40usize),
        (lightweight_spaceship_cells(), 55usize, 45usize),
        (middleweight_spaceship_cells(), 70usize, 50usize),
        (heavyweight_spaceship_cells(), 75usize, 55usize),
        (pulsar_cells(), 10usize, 10usize),
        (pentadecathlon_cells(), 20usize, 20usize),
        (traffic_light_cells(), 25usize, 25usize),
        (block_cells(), 5usize, 5usize),
        (boat_cells(), 95usize, 10usize),
        (beehive_cells(), 90usize, 90usize),
        (diehard_cells(), 80usize, 80usize),
        (acorn_cells(), 70usize, 80usize),
        (giant_diehard_cells(), 20usize, 80usize),
    ]
}

/// Some structure of `catalogue`, at its origin, covers `(x, y)`.
pub open spec fn seeded(
    catalogue: Seq<(Seq<(usize, usize)>, usize, usize)>,
    x: int,
    y: int,
) -> bool {
    exists|j: int|
        0 <= j < catalogue.len() && covers(
            catalogue[j].0,
            catalogue[j].1 as int,
            catalogue[j].2 as int,
            x,
            y,
        )
}

/// The seed board: a catalogue of classic structures (glider guns,
/// spaceships, oscillators, still lifes and long-lived seeds) stamped at fixed
/// places. A cell is alive with age 1 when some structure of the catalogue
/// covers it, and dead otherwise; what falls outside the board is clipped.
pub fn ultra_complex_initial_pattern(config: &Config) -> (r: Vec<Vec<Cell>>)
    requires
        config.width > 0,
        config.height > 0,
    ensures
        fits(&r, config),
        forall|x: int, y: int|
            0 <= x < config.width && 0 <= y < config.height ==> #[trigger] cells(&r)[y][x] == if seeded(
                seed_catalogue(),
                x,
                y,
            ) {
                Cell::Alive(1)
            } else {
                Cell::Dead
            },
{
    let gosper: [(usize, usize); 36] = [
        (1, 5), (1, 6), (2, 5), (2, 6), (11, 5), (11, 6), (11, 7), (12, 4), (12, 8), (13, 3),
        (13, 9), (14, 3), (14, 9), (15, 6), (16, 4), (16, 8), (17, 5), (17, 6), (17, 7),
        (18, 6), (21, 3), (21, 4), (21, 5), (22, 3), (22, 4), (22, 5), (23, 2), (23, 6),
        (25, 1), (25, 2), (25, 6), (25, 7), (35, 3), (35, 4), (36, 3), (36, 4),
    ];
    let glider: [(usize, usize); 5] = [
        (1, 0), (2, 1), (0, 2), (1, 2), (2, 2),
    ];
    let lwss: [(usize, usize); 9] = [
        (1, 0), (4, 0), (0, 1), (0, 2), (4, 2), (0, 3), (1, 3), (2, 3), (3, 3),
    ];
    let mwss: [(usize, usize); 10] = [
        (1, 0), (4, 0), (5, 1), (0, 2), (5, 2), (0, 3), (1, 3), (2, 3), (3, 3), (4, 3),
    ];
    let hwss: [(usize, usize); 11] = [
        (2, 0), (5, 0), (6, 1), (0, 2), (6, 2), (0, 3), (1, 3), (2, 3), (3, 3), (4, 3), (5, 3),
    ];
    let pulsar_offsets: [(usize, usize); 48] = [
        (2, 0), (3, 0), (4, 0), (8, 0), (9, 0), (10, 0), (0, 2), (5, 2), (7, 2), (12, 2),
        (0, 3), (5, 3), (7, 3), (12, 3), (0, 4), (5, 4), (7, 4), (12, 4), (2, 5), (3, 5),
        (4, 5), (8, 5), (9, 5), (10, 5), (2, 7), (3, 7), (4, 7), (8, 7), (9, 7), (10, 7),
        (0, 8), (5, 8), (7, 8), (12, 8), (0, 9), (5, 9), (7, 9), (12, 9), (0, 10), (5, 10),
        (7, 10), (12, 10), (2, 12), (3, 12), (4, 12), (8, 12), (9, 12), (10, 12),
    ];
    let pentadecathlon: [(usize, usize); 12] = [
        (2, 0), (3, 0), (4, 0), (5, 0), (6, 0), (7, 0), (8, 0), (9, 0), (10, 0), (11, 0),
        (3, 1), (10, 1),
    ];
    let traffic_light: [(usize, usize); 6] = [
        (1, 0), (2, 0), (0, 1), (3, 1), (1, 2), (2, 2),
    ];
    let block: [(usize, usize); 4] = [
        (0, 0), (1, 0), (0, 1), (1, 1),
    ];
    let boat: [(usize, usize); 5] = [
        (0, 0), (1, 0), (0, 1), (2, 1), (1, 2),
    ];
    let beehive: [(usize, usize); 6] = [
        (1, 0), (2, 0), (0, 1), (3, 1), (1, 2), (2, 2),
    ];
    let diehard: [(usize, usize); 7] = [
        (6, 0), (0, 1), (1, 1), (1, 2), (5, 2), (6, 2), (7, 2),
    ];
    let acorn: [(usize, usize); 7] = [
        (1, 0), (3, 1), (0, 2), (1, 2), (4, 2), (5, 2), (6, 2),
    ];
    let giant_diehard: [(usize, usize); 14] = [
        (6, 1), (0, 2), (1, 2), (1, 3), (5, 3), (6, 3), (7, 3), (0, 10), (1, 11), (2, 11),
        (3, 11), (4, 11), (5, 11), (6, 11),
    ];
    let placements: [(&[(usize, usize)], usize, usize); 21] = [
        (&gosper, 2, 2),
        (&gosper, 60, 60),
        (&glider, 10, 85),
        (&glider, 15, 80),
        (&glider, 20, 75),
        (&glider, 80, 10),
        (&glider, 85, 15),
        (&lwss, 40, 30),
        (&lwss, 50, 40),
        (&lwss, 55, 45),
        (&mwss, 70, 50),
        (&hwss, 75, 55),
        (&pulsar_offsets, 10, 10),
        (&pentadecathlon, 20, 20),
        (&traffic_light, 25, 25),
        (&block, 5, 5),
        (&boat, 95, 10),
        (&beehive, 90, 90),
        (&diehard, 80, 80),
        (&acorn, 70, 80),
        (&giant_diehard, 20, 80),
    ];
    let ghost catalogue = seed_catalogue();
    assert(placements@.len() == catalogue.len());
    assert forall|j: int| 0 <= j < catalogue.len() implies #[trigger] placements@[j].0@
        == catalogue[j].0 && placements@[j].1 == catalogue[j].1 && placements@[j].2
        == catalogue[j].2 by {}
    let mut grid = dead_grid(config);
    let mut i: usize = 0;
    while i < placements.len()
        invariant
            catalogue == seed_catalogue(),
            placements@.len() == catalogue.len(),
            forall|j: int| 0 <= j < catalogue.len() ==> #[trigger] placements@[j].0@
                == catalogue[j].0 && placements@[j].1 == catalogue[j].1 && placements@[j].2
                == catalogue[j].2,
            i <= catalogue.len(),
            fits(&grid, config),
            forall|x: int, y: int|
                0 <= x < config.width && 0 <= y < config.height ==> #[trigger] cells(&grid)[y][x]
                    == if seeded(catalogue.subrange(0, i as int), x, y) {
                    Cell::Alive(1)
                } else {
                    Cell::Dead
                },
        decreases catalogue.len() - i,
    {
        let (pattern, ox, oy) = placements[i];
        place(&mut grid, pattern, ox, oy, config);
        proof {
            let before = catalogue.subrange(0, i as int);
            let after = catalogue.subrange(0, i as int + 1);
            assert forall|x: int, y: int| 0 <= x < config.width && 0 <= y < config.height implies seeded(
                after,
                x,
                y,
            ) == (seeded(before, x, y) || covers(pattern@, ox as int, oy as int, x, y)) by {
                assert(after[i as int] == catalogue[i as int]);
                if seeded(before, x, y) {
                    let j = choose|j: int|
                        0 <= j < before.len() && covers(
                            before[j].0,
                            before[j].1 as int,
                            before[j].2 as int,
                            x,
                            y,
                        );
                    assert(after[j] == before[j]);
                }
                if seeded(after, x, y) {
                    let j = choose|j: int|
                        0 <= j < after.len() && covers(
                            after[j].0,
                            after[j].1 as int,
                            after[j].2 as int,
                            x,
                            y,
                        );
                    if j < i {
                        assert(after[j] == before[j]);
                    }
                }
            }
        }
        i = i + 1;
    }
    assert(catalogue.subrange(0, catalogue.len() as int) =~= catalogue);
    grid
}

} // verus!
