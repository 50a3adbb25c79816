//! Grid automaton (Game of Life) over a toroidal boolean grid: a cell
//! survives with exactly 2 live neighbors, is born with exactly 3, and the
//! whole grid is replaced double-buffered each tick.

use vstd::prelude::*;

verus! {

use crate::rng::rand_below;
use crate::rng::rng_from_seed;

/// Largest accepted grid side; keeps every index computation inside `u32`.
pub const GOL_MAX_DIM: u32 = 46000;

/// A coordinate one step below zero re-enters at the far edge; at or past
/// the dimension it wraps modulo.
pub open spec fn gol_wrap(v: int, dim: int) -> int {
    if v < 0 {
        dim + v
    } else {
        v % dim
    }
}

/// The flat index cell `(x, y)` is read at; the final modulo over the whole
/// grid length is a safety net and leaves wrapped coordinates unchanged.
pub open spec fn gol_index(x: int, y: int, w: int, h: int) -> int {
    (gol_wrap(y, h) * w + gol_wrap(x, w)) % (w * h)
}

pub struct GoL {
    dimensions: (u32, u32),
    tiles: Vec<bool>,
}

impl GoL {
    pub closed spec fn width(self) -> int {
        self.dimensions.0 as int
    }

    pub closed spec fn height(self) -> int {
        self.dimensions.1 as int
    }

    /// The flat cell array, row by row from row 0 upward.
    pub closed spec fn cells(self) -> Seq<bool> {
        self.tiles@
    }

    /// Well-formedness: the flat array covers exactly width x height cells.
    pub open spec fn wf(self) -> bool {
        &&& 1 <= self.width() <= GOL_MAX_DIM
        &&& 1 <= self.height() <= GOL_MAX_DIM
        &&& self.cells().len() == self.width() * self.height()
    }

    /// The cell read at `(x, y)` under toroidal addressing.
    pub open spec fn cell(self, x: int, y: int) -> bool {
        self.cells()[gol_index(x, y, self.width(), self.height())]
    }

    pub open spec fn live(self, x: int, y: int) -> int {
        if self.cell(x, y) {
            1int
        } else {
            0int
        }
    }

    /// Number of live cells among the 8 toroidally wrapped neighbors.
    pub open spec fn neighbor_count(self, x: int, y: int) -> int {
        self.live(x - 1, y - 1) + self.live(x - 1, y) + self.live(x - 1, y + 1) + self.live(
            x,
            y - 1,
        ) + self.live(x, y + 1) + self.live(x + 1, y - 1) + self.live(x + 1, y) + self.live(
            x + 1,
            y + 1,
        )
    }

    /// The state cell index `i` takes on the next tick.
    pub open spec fn next_cell(self, i: int) -> bool {
        let x = i % self.width();
        let y = i / self.width();
        let n = self.neighbor_count(x, y);
        n == 3 || (self.cells()[i] && n == 2)
    }

    pub fn new(width: u32, height: u32, seed: u64) -> (r: Self)
        requires
            1 <= width <= GOL_MAX_DIM,
            1 <= height <= GOL_MAX_DIM,
        ensures
            r.wf(),
            r.width() == width,
            r.height() == height,
    {
        let mut rng = rng_from_seed(seed);
        let mut tiles = Vec::<bool>::new();
        proof {
            assert((width as int) * (height as int) <= 2116000000) by (nonlinear_arith)
                requires
                    width as int <= 46000,
                    height as int <= 46000,
            ;
        }
        let total = width as u64 * height as u64;
        let mut i: u64 = 0;
        while i < total
            invariant
                total == width as int * height as int,
                i <= total,
                tiles@.len() == i,
            decreases total - i,
        {
            tiles.push(rand_below(&mut rng, 10) == 0);
            i = i + 1;
        }
        GoL { dimensions: (width, height), tiles }
    }

    /// Build a grid with every cell's state given outright, for driving the
    /// automaton from a known pattern.
    pub fn from_cells(width: u32, height: u32, tiles: Vec<bool>) -> (r: Self)
        requires
            1 <= width <= GOL_MAX_DIM,
            1 <= height <= GOL_MAX_DIM,
            tiles@.len() == width as int * height as int,
        ensures
            r.wf(),
            r.width() == width,
            r.height() == height,
            r.cells() == tiles@,
    {
        GoL { dimensions: (width, height), tiles }
    }

    /// Read one cell by its grid coordinates.
    pub fn get(&self, x: u32, y: u32) -> (r: bool)
        requires
            self.wf(),
            x < self.width(),
            y < self.height(),
        ensures
            r == self.cell(x as int, y as int),
    {
        let w = self.dimensions.0;
        let h = self.dimensions.1;
        let i = self.encode(x as i32, y as i32);
        self.tiles[i]
    }

    fn decode(&self, index: usize) -> (r: (u32, u32))
        requires
            self.wf(),
            index < self.width() * self.height(),
        ensures
            r.0 as int == (index as int) % self.width(),
            r.1 as int == (index as int) / self.width(),
            r.0 < self.width(),
            r.1 < self.height(),
    {
        let w = self.dimensions.0;
        proof {
            assert((index as int) / (w as int) < self.height() && (index as int) % (w as int) < (
            w as int) && (w as int) * self.height() <= 2116000000) by (nonlinear_arith)
                requires
                    (index as int) < (w as int) * self.height(),
                    1 <= w as int <= 46000,
                    1 <= self.height() <= 46000,
            ;
        }
        (index as u32 % w, index as u32 / w)
    }

    fn encode(&self, x: i32, y: i32) -> (r: usize)
        requires
            self.wf(),
            -self.width() <= x <= self.width(),
            -self.height() <= y <= self.height(),
        ensures
            r == gol_index(x as int, y as int, self.width(), self.height()),
            r < self.cells().len(),
    {
        let w = self.dimensions.0;
        let h = self.dimensions.1;
        let xw: u32 = if x < 0 {
            (w as i32 + x) as u32
        } else {
            (x as u32) % w
        };
        let yw: u32 = if y < 0 {
            (h as i32 + y) as u32
        } else {
            (y as u32) % h
        };
        proof {
            assert((yw as int) * (w as int) + (xw as int) < (w as int) * (h as int) && 1 <= (
            w as int) * (h as int) <= 2116000000) by (nonlinear_arith)
                requires
                    (yw as int) < (h as int),
                    (xw as int) < (w as int),
                    1 <= w as int <= GOL_MAX_DIM,
                    1 <= h as int <= GOL_MAX_DIM,
            ;
        }
        ((yw * w + xw) % (w * h)) as usize
    }

    fn get_active_neighbor_count(&self, x: u32, y: u32) -> (count: u32)
        requires
            self.wf(),
            x < self.width(),
            y < self.height(),
        ensures
            count as int == self.neighbor_count(x as int, y as int),
    {
        let xi = x as i32;
        let yi = y as i32;
        let mut count: u32 = 0;
        if self.tiles[self.encode(xi - 1, yi - 1)] {
            count = count + 1;
        }
        if self.tiles[self.encode(xi - 1, yi)] {
            count = count + 1;
        }
        if self.tiles[self.encode(xi - 1, yi + 1)] {
            count = count + 1;
        }
        if self.tiles[self.encode(xi, yi - 1)] {
            count = count + 1;
        }
        if self.tiles[self.encode(xi, yi + 1)] {
            count = count + 1;
        }
        if self.tiles[self.encode(xi + 1, yi - 1)] {
            count = count + 1;
        }
        if self.tiles[self.encode(xi + 1, yi)] {
            count = count + 1;
        }
        if self.tiles[self.encode(xi + 1, yi + 1)] {
            count = count + 1;
        }
        count
    }

    /// Advance one tick: every cell is rewritten from the previous grid at
    /// once (double-buffered, so no cell reads a value written this tick).
    /// The viewport arguments play no part in the fixed-size grid.
    pub fn update(&mut self, width: i32, height: i32)
        requires
            old(self).wf(),
        ensures
            final(self).wf(),
            final(self).width() == old(self).width(),
            final(self).height() == old(self).height(),
            final(self).cells().len() == old(self).cells().len(),
            forall|i: int|
                0 <= i < old(self).cells().len() ==> final(self).cells()[i] == old(
                    self,
                ).next_cell(i),
    {
        let total = self.tiles.len();
        let mut buffer = Vec::<bool>::new();
        let mut index: usize = 0;
        while index < total
            invariant
                self.wf(),
                self == old(self),
                total == self.tiles@.len(),
                index <= total,
                buffer@.len() == index,
                forall|j: int| 0 <= j < index ==> buffer@[j] == self.next_cell(j),
            decreases total - index,
        {
            let (x, y) = self.decode(index);
            let active_neighbor_count = self.get_active_neighbor_count(x, y);
            let tile = self.tiles[index];
            buffer.push(active_neighbor_count == 3 || (tile && active_neighbor_count == 2));
            index = index + 1;
        }
        self.tiles = buffer;
    }
}

/// For in-range coordinates the toroidal index is the plain row-major one.
pub proof fn lemma_cell_index(w: int, h: int, x: int, y: int)
    requires
        1 <= w,
        1 <= h,
        0 <= x < w,
        0 <= y < h,
    ensures
        gol_index(x, y, w, h) == y * w + x,
        0 <= y * w + x < w * h,
        (y * w + x) % w == x,
        (y * w + x) / w == y,
{
    assert(0 <= y * w + x < w * h && (y * w + x) % (w * h) == y * w + x && (y * w + x) % w == x && (
    y * w + x) / w == y && x % w == x && y % h == y) by (nonlinear_arith)
        requires
            1 <= w,
            1 <= h,
            0 <= x < w,
            0 <= y < h,
    ;
}

/// Underpopulation: any live cell with fewer than 2 live neighbors is dead
/// on the next tick, whatever the rest of the grid holds.
pub proof fn lemma_underpopulation_dies(prev: GoL, next: GoL, x: int, y: int)
    requires
        prev.wf(),
        next.cells().len() == prev.cells().len(),
        forall|i: int| 0 <= i < prev.cells().len() ==> next.cells()[i] == prev.next_cell(i),
        0 <= x < prev.width(),
        0 <= y < prev.height(),
        prev.neighbor_count(x, y) <= 1,
    ensures
        !next.cells()[y * prev.width() + x],
{
    lemma_cell_index(prev.width(), prev.height(), x, y);
    let i = y * prev.width() + x;
    assert(next.cells()[i] == prev.next_cell(i));
    assert(i % prev.width() == x && i / prev.width() == y);
}

} // verus!
