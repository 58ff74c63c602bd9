use vstd::prelude::*;

verus! {

/// A cell of the board: dead, or alive with an age counter that saturates.
#[derive(Clone, Copy, PartialEq, Eq, Structural, Debug)]
pub enum Cell {
    Dead,
    Alive(u8),
}

/// The fixed parameters of a run: board size, pixels per cell side, frame
/// rate and whether living cells are coloured by age.
pub struct Config {
    pub width: usize,
    pub height: usize,
    pub scale: usize,
    pub fps: u64,
    pub color_mode: bool,
}

pub open spec fn is_alive(c: Cell) -> bool {
    c is Alive
}

/// The board as rows of cells, row `y` holding the cells `(x, y)`.
pub open spec fn cells(g: &Vec<Vec<Cell>>) -> Seq<Seq<Cell>> {
    Seq::new(g@.len(), |i: int| g@[i]@)
}

/// A board of `h` rows of `w` cells each, both dimensions positive.
pub open spec fn well_formed(g: Seq<Seq<Cell>>, w: int, h: int) -> bool {
    &&& w > 0
    &&& h > 0
    &&& g.len() == h
    &&& forall|y: int| 0 <= y < h ==> #[trigger] g[y].len() == w
}

impl Config {
    /// The size in pixels of the rendered board.
    pub fn window_size(&self) -> (r: (usize, usize))
        requires
            self.width * self.scale <= usize::MAX,
            self.height * self.scale <= usize::MAX,
        ensures
            r.0 == self.width * self.scale,
            r.1 == self.height * self.scale,
    {
        (self.width * self.scale, self.height * self.scale)
    }
}

} // verus!
