use vstd::prelude::*;

use crate::agents::{Agents, Coord};

verus! {

/// Position of cell `c` in the row-major array of a grid `width` cells wide.
pub open spec fn cell_index(c: Coord, width: int) -> int {
    c.x + c.y * width
}

/// The cell that sits at position `i` of the row-major array of a grid `width` cells wide.
pub open spec fn cell_at(i: int, width: int) -> Coord {
    Coord { x: (i % width) as u32, y: (i / width) as u32 }
}

/// A cell inside a `width` by `height` grid lies inside its row-major array.
pub proof fn lemma_cell_index_bounds(c: Coord, width: int, height: int)
    requires
        c.x < width,
        c.y < height,
    ensures
        0 <= c.y * width <= cell_index(c, width) < width * height,
{
    assert(0 <= c.y * width && c.x + c.y * width < width * height) by (nonlinear_arith)
        requires
            0 <= c.x < width,
            0 <= c.y < height,
    ;
}

/// Two cells of one grid never share a position in its row-major array.
pub proof fn lemma_cell_index_injective(a: Coord, b: Coord, width: int)
    requires
        a.x < width,
        b.x < width,
        cell_index(a, width) == cell_index(b, width),
    ensures
        a == b,
{
    assert(a.y == b.y) by (nonlinear_arith)
        requires
            0 <= a.x < width,
            0 <= b.x < width,
            0 <= a.y,
            0 <= b.y,
            a.x + a.y * width == b.x + b.y * width,
    {
        if a.y < b.y {
            assert(a.y * width + width <= b.y * width);
        } else if a.y > b.y {
            assert(b.y * width + width <= a.y * width);
        }
    }
}

/// Position `i` of the row-major array of a `width` by `height` grid belongs to a cell of it.
pub proof fn lemma_cell_at(i: int, width: int, height: int)
    requires
        0 <= i < width * height,
        0 <= width <= u32::MAX,
        0 <= height <= u32::MAX,
    ensures
        cell_at(i, width).x < width,
        cell_at(i, width).y < height,
        cell_index(cell_at(i, width), width) == i,
{
    assert(0 < width) by (nonlinear_arith)
        requires
            0 <= i < width * height,
            0 <= height,
    ;
    assert(i / width < height) by (nonlinear_arith)
        requires
            0 <= i < width * height,
            0 < width,
    ;
    assert(i == i % width + (i / width) * width) by (nonlinear_arith)
        requires
            0 < width,
    ;
}

/// Colour of the tagged agent, as `0xRRGGBB`: red.
pub const TAGGED_COLOUR: u32 = 0xff0000;

/// Colour of an agent that the tagged agent does not see: green.
pub const NORMAL_COLOUR: u32 = 0x00ff00;

/// Colour of an agent that the tagged agent sees: blue.
pub const SEEN_COLOUR: u32 = 0x0000ff;

/// Colour of an empty cell: black.
pub const EMPTY_COLOUR: u32 = 0;

/// The colour a cell with occupant `occupant` is drawn in: agents that the tagged
/// agent sees in blue, then the tagged agent in red, the others in green.
pub open spec fn cell_colour(occupant: Option<u32>, tagged: Seq<bool>, seen: Seq<bool>) -> u32 {
    match occupant {
        None => EMPTY_COLOUR,
        Some(id) => if seen[id as int] {
            SEEN_COLOUR
        } else if tagged[id as int] {
            TAGGED_COLOUR
        } else {
            NORMAL_COLOUR
        },
    }
}

/// The occupancy index: one slot per cell, holding the id of the agent there, if any.
#[derive(Debug)]
pub struct WorldGrid {
    pub width: u32,
    pub height: u32,
    pub agents: Vec<Option<u32>>,
}

impl WorldGrid {
    /// The slot array covers exactly the grid's cells, and each cell has a `usize` position.
    pub open spec fn wf(&self) -> bool {
        &&& self.agents@.len() == self.width * self.height
        &&& self.width * self.height <= usize::MAX
    }

    /// Whether `c` is a cell of this grid.
    pub open spec fn contains(&self, c: Coord) -> bool {
        c.x < self.width && c.y < self.height
    }

    /// The occupant of cell `c`.
    pub open spec fn occupant(&self, c: Coord) -> Option<u32> {
        self.agents@[cell_index(c, self.width as int)]
    }

    /// A `width` by `height` grid with every cell empty.
    pub fn new(width: u32, height: u32) -> (r: Self)
        requires
            width * height <= usize::MAX,
        ensures
            r.wf(),
            r.width == width,
            r.height == height,
            forall|i: int| 0 <= i < r.agents@.len() ==> r.agents@[i] is None,
    {
        let n: usize = width as usize * height as usize;
        let mut agents: Vec<Option<u32>> = Vec::with_capacity(n);
        let mut i: usize = 0;
        while i < n
            invariant
                i <= n,
                agents@.len() == i,
                forall|k: int| 0 <= k < i ==> agents@[k] is None,
            decreases n - i,
        {
            agents.push(None);
            i = i + 1;
        }
        Self { width, height, agents }
    }

    /// Position of `coord` in the slot array.
    #[inline]
    pub fn coord_to_idx(&self, coord: &Coord) -> (r: usize)
        requires
            self.wf(),
            self.contains(*coord),
        ensures
            r == cell_index(*coord, self.width as int),
            r < self.agents@.len(),
    {
        proof {
            lemma_cell_index_bounds(*coord, self.width as int, self.height as int);
        }
        coord.x as usize + coord.y as usize * self.width as usize
    }

    /// The agent at `coord`, if any.
    #[inline]
    pub fn get(&self, coord: Coord) -> (r: Option<u32>)
        requires
            self.wf(),
            self.contains(coord),
        ensures
            r == self.occupant(coord),
    {
        let i = self.coord_to_idx(&coord);
        self.agents[i]
    }

    /// Records agent `id` at `coord`; every other cell keeps its occupant.
    #[inline]
    pub fn set(&mut self, coord: Coord, id: u32)
        requires
            old(self).wf(),
            old(self).contains(coord),
        ensures
            final(self).wf(),
            final(self).width == old(self).width,
            final(self).height == old(self).height,
            final(self).agents@ == old(self).agents@.update(
                cell_index(coord, old(self).width as int),
                Some(id),
            ),
    {
        let i = self.coord_to_idx(&coord);
        self.agents.set(i, Some(id));
    }

    /// Empties `coord`; every other cell keeps its occupant.
    #[inline]
    pub fn clear(&mut self, coord: Coord)
        requires
            old(self).wf(),
            old(self).contains(coord),
        ensures
            final(self).wf(),
            final(self).width == old(self).width,
            final(self).height == old(self).height,
            final(self).agents@ == old(self).agents@.update(
                cell_index(coord, old(self).width as int),
                None,
            ),
    {
        let i = self.coord_to_idx(&coord);
        self.agents.set(i, None);
    }

    /// One pixel per cell, row by row, in the colours of `cell_colour`.
    pub fn as_buffer(&self, agents: &Agents) -> (r: Vec<u32>)
        requires
            agents.well_formed(self),
        ensures
            r@.len() == self.agents@.len(),
            forall|c: int|
                0 <= c < r@.len() ==> r@[c] == cell_colour(
                    self.agents@[c],
                    agents.tagged@,
                    agents.has_tagged_in_sight@,
                ),
    {
        let n = self.agents.len();
        let mut buffer: Vec<u32> = Vec::with_capacity(n);
        let mut c: usize = 0;
        while c < n
            invariant
                c <= n,
                n == self.agents@.len(),
                agents.well_formed(self),
                buffer@.len() == c,
                forall|k: int|
                    0 <= k < c ==> buffer@[k] == cell_colour(
                        self.agents@[k],
                        agents.tagged@,
                        agents.has_tagged_in_sight@,
                    ),
            decreases n - c,
        {
            let colour = match self.agents[c] {
                None => EMPTY_COLOUR,
                Some(id) => {
                    let i = id as usize;
                    if agents.has_tagged_in_sight[i] {
                        SEEN_COLOUR
                    } else if agents.tagged[i] {
                        TAGGED_COLOUR
                    } else {
                        NORMAL_COLOUR
                    }
                },
            };
            buffer.push(colour);
            c = c + 1;
        }
        buffer
    }
}

} // verus!
