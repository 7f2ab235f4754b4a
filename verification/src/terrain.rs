//! The assembled terrain grid of composited surface cells.

use crate::color::{spec_over, Color};
use crate::mapblock::{CHUNK_SIZE, MAPBLOCK_LENGTH};
use vstd::prelude::*;

verus! {

/// One cell of the terrain grid: the color composited from the voxels seen
/// so far, if any content was visible, and the recorded surface elevation.
#[derive(Clone, Copy, Debug, PartialEq)]
pub struct TerrainCell {
    pub ground_color: Option<Color>,
    pub height: Option<i16>,
}

impl Default for TerrainCell {
    /// A cell never touched by opaque content, with no elevation recorded.
    fn default() -> (c: TerrainCell)
        ensures
            c == (TerrainCell { ground_color: None, height: None }),
    {
        TerrainCell { ground_color: None, height: None }
    }
}

/// The accumulated opacity of a cell; a cell without color is transparent.
pub open spec fn spec_cell_alpha(cell: TerrainCell) -> int {
    match cell.ground_color {
        Some(c) => c.a as int,
        None => 0,
    }
}

/// The cell after compositing a deeper voxel color beneath it: the present
/// color stays in the foreground, or the new color stands alone.
pub open spec fn spec_add_background(cell: TerrainCell, color: Color) -> TerrainCell {
    TerrainCell {
        ground_color: Some(
            match cell.ground_color {
                Some(c) => spec_over(c, color),
                None => color,
            },
        ),
        height: cell.height,
    }
}

impl TerrainCell {
    /// The accumulated opacity of this cell.
    pub fn alpha(&self) -> (a: u8)
        ensures
            a as int == spec_cell_alpha(*self),
    {
        match self.ground_color {
            Some(c) => c.a,
            None => 0,
        }
    }

    /// Composites a deeper voxel color beneath the color seen so far.
    pub fn add_background(&mut self, color: Color)
        ensures
            *final(self) == spec_add_background(*old(self), color),
    {
        let new_color = match self.ground_color {
            Some(c) => c.with_background(&color),
            None => color,
        };
        self.ground_color = Some(new_color);
    }

    /// Records the surface elevation of this cell.
    pub fn set_height(&mut self, height: i16)
        ensures
            *final(self) == (TerrainCell { ground_color: old(self).ground_color, height: Some(height) }),
    {
        self.height = Some(height);
    }
}

/// `v` clamped into the `i16` value range.
pub open spec fn clamp_i16(v: int) -> i16 {
    if v < i16::MIN as int {
        i16::MIN
    } else if v > i16::MAX as int {
        i16::MAX
    } else {
        v as i16
    }
}

/// The nonnegative part of `v`.
pub open spec fn nonneg_part(v: i16) -> i16 {
    if v < 0 {
        0
    } else {
        v
    }
}

/// Clamps a negative value to zero in place.
pub fn ensure_nonnegative(value: &mut i16)
    ensures
        *final(value) == nonneg_part(*old(value)),
{
    if *value < 0 {
        *value = 0;
    }
}

/// `a - b` computed without overflow, saturating at the `i16` bounds.
fn sat_sub_i16(a: i16, b: i16) -> (r: i16)
    ensures
        r == clamp_i16(a - b),
{
    let d = a as i32 - b as i32;
    if d > i16::MAX as i32 {
        i16::MAX
    } else if d < i16::MIN as i32 {
        i16::MIN
    } else {
        d as i16
    }
}

/// Whether the chunk anchored at `offset` covers the grid coordinate `(x, y)`.
pub open spec fn chunk_covers(offset: (u32, u32), x: int, y: int) -> bool {
    &&& offset.0 <= x < offset.0 + MAPBLOCK_LENGTH
    &&& offset.1 <= y < offset.1 + MAPBLOCK_LENGTH
}

/// The chunk index whose cell lands on grid coordinate `(x, y)` when the
/// chunk is anchored at `offset`: local x runs with the index, local z runs
/// against the grid row, flipped vertically.
pub open spec fn chunk_cell_index(offset: (u32, u32), x: int, y: int) -> int {
    16 * (15 - (y - offset.1)) + (x - offset.0)
}

/// The whole-world grid of composited surface cells.
pub struct Terrain {
    width: usize,
    height: usize,
    flat_data: Vec<TerrainCell>,
}

impl Terrain {
    /// The number of columns of the grid.
    pub closed spec fn spec_width(&self) -> int {
        self.width as int
    }

    /// The number of rows of the grid.
    pub closed spec fn spec_height(&self) -> int {
        self.height as int
    }

    /// The backing store holds exactly one cell per coordinate.
    pub closed spec fn wf(&self) -> bool {
        self.flat_data@.len() == self.width * self.height
    }

    /// The cell stored at grid coordinate `(x, y)`.
    pub closed spec fn spec_cell(&self, x: int, y: int) -> TerrainCell {
        self.flat_data@[y * (self.width as int) + x]
    }

    /// Whether `(x, y)` lies on the grid.
    pub open spec fn in_bounds(&self, x: int, y: int) -> bool {
        0 <= x < self.spec_width() && 0 <= y < self.spec_height()
    }

    /// A fresh grid of the given dimensions, every cell untouched.
    pub fn new(width: usize, height: usize) -> (t: Terrain)
        requires
            width * height <= usize::MAX,
        ensures
            t.wf(),
            t.spec_width() == width,
            t.spec_height() == height,
            forall|x: int, y: int|
                t.in_bounds(x, y) ==> t.spec_cell(x, y) == (TerrainCell {
                    ground_color: None,
                    height: None,
                }),
    {
        let n = width * height;
        let mut flat_data: Vec<TerrainCell> = Vec::new();
        let mut i: usize = 0;
        while i < n
            invariant
                i <= n,
                flat_data@.len() == i,
                forall|j: int|
                    0 <= j < i ==> flat_data@[j] == (TerrainCell { ground_color: None, height: None }),
            decreases n - i,
        {
            flat_data.push(TerrainCell { ground_color: None, height: None });
            i += 1;
        }
        let t = Terrain { width, height, flat_data };
        proof {
            assert forall|x: int, y: int| t.in_bounds(x, y) implies t.spec_cell(x, y)
                == (TerrainCell { ground_color: None, height: None }) by {
                assert(0 <= y * (width as int) + x < (width as int) * (height as int))
                    by (nonlinear_arith)
                    requires
                        0 <= x < width as int,
                        0 <= y < height as int,
                ;
            }
        }
        t
    }

    pub fn width(&self) -> (w: usize)
        ensures
            w as int == self.spec_width(),
    {
        self.width
    }

    pub fn height(&self) -> (h: usize)
        ensures
            h as int == self.spec_height(),
    {
        self.height
    }

    /// The cell at `(x, y)` of the backing store, by flat index.
    fn cell_at(&self, x: usize, y: usize) -> (c: TerrainCell)
        requires
            self.wf(),
            self.in_bounds(x as int, y as int),
        ensures
            c == self.spec_cell(x as int, y as int),
    {
        let n = self.flat_data.len();
        proof {
            assert(0 <= (y as int) * (self.width as int) + (x as int) < (self.width as int) * (
            self.height as int)) by (nonlinear_arith)
                requires
                    0 <= x < self.width as int,
                    0 <= y < self.height as int,
            ;
        }
        self.flat_data[y * self.width + x]
    }

    /// Replaces the cell at `(x, y)`; every other cell is kept.
    fn set_cell(&mut self, x: usize, y: usize, cell: TerrainCell)
        requires
            old(self).wf(),
            old(self).in_bounds(x as int, y as int),
        ensures
            final(self).wf(),
            final(self).spec_width() == old(self).spec_width(),
            final(self).spec_height() == old(self).spec_height(),
            final(self).spec_cell(x as int, y as int) == cell,
            forall|a: int, b: int|
                old(self).in_bounds(a, b) && !(a == x && b == y) ==> final(self).spec_cell(a, b)
                    == old(self).spec_cell(a, b),
    {
        let n = self.flat_data.len();
        proof {
            assert(0 <= (y as int) * (self.width as int) + (x as int) < (self.width as int) * (
            self.height as int)) by (nonlinear_arith)
                requires
                    0 <= x < self.width as int,
                    0 <= y < self.height as int,
            ;
        }
        let idx = y * self.width + x;
        self.flat_data[idx] = cell;
        proof {
            assert forall|a: int, b: int|
                old(self).in_bounds(a, b) && !(a == x && b == y) implies final(self).spec_cell(a, b)
                == old(self).spec_cell(a, b) by {
                assert(0 <= b * (self.width as int) + a < (self.width as int) * (self.height as int))
                    by (nonlinear_arith)
                    requires
                        0 <= a < self.width as int,
                        0 <= b < self.height as int,
                ;
                if b * (self.width as int) + a == idx as int {
                    assert(a == x && b == y) by (nonlinear_arith)
                        requires
                            b * (self.width as int) + a == (y as int) * (self.width as int) + (
                            x as int),
                            0 <= a < self.width as int,
                            0 <= x < self.width as int,
                            0 <= b,
                            0 <= y,
                    ;
                }
            }
        }
    }

    /// The cell at `(x, y)`, or absence for out-of-range coordinates.
    pub fn get_cell(&self, x: u32, y: u32) -> (c: Option<TerrainCell>)
        requires
            self.wf(),
        ensures
            c == if self.in_bounds(x as int, y as int) {
                Some(self.spec_cell(x as int, y as int))
            } else {
                None::<TerrainCell>
            },
    {
        if (x as usize) < self.width && (y as usize) < self.height {
            Some(self.cell_at(x as usize, y as usize))
        } else {
            None
        }
    }

    /// The composited color at `(x, y)`, or absence for an untouched cell or
    /// out-of-range coordinates.
    pub fn get_color(&self, x: u32, y: u32) -> (c: Option<Color>)
        requires
            self.wf(),
        ensures
            c == if self.in_bounds(x as int, y as int) {
                self.spec_cell(x as int, y as int).ground_color
            } else {
                None::<Color>
            },
    {
        match self.get_cell(x, y) {
            Some(cell) => cell.ground_color,
            None => None,
        }
    }

    /// Copies a chunk of [`CHUNK_SIZE`] cells into the grid at `offset`.
    /// Chunk index `i` lands on grid column `offset.0 + i % 16` and grid row
    /// `offset.1 + 15 - i / 16`: block-local storage rows are flipped
    /// vertically against grid rows.
    pub fn insert_chunk(&mut self, offset: (u32, u32), chunk: Vec<TerrainCell>)
        requires
            old(self).wf(),
            chunk@.len() == CHUNK_SIZE,
            offset.0 + MAPBLOCK_LENGTH <= old(self).spec_width(),
            offset.1 + MAPBLOCK_LENGTH <= old(self).spec_height(),
        ensures
            final(self).wf(),
            final(self).spec_width() == old(self).spec_width(),
            final(self).spec_height() == old(self).spec_height(),
            forall|i: int|
                0 <= i < CHUNK_SIZE ==> final(self).spec_cell(
                    offset.0 + (i % 16),
                    offset.1 + 15 - i / 16,
                ) == chunk@[i],
            forall|x: int, y: int|
                old(self).in_bounds(x, y) && !chunk_covers(offset, x, y) ==> final(self).spec_cell(
                    x,
                    y,
                ) == old(self).spec_cell(x, y),
    {
        let mut i: usize = 0;
        while i < CHUNK_SIZE
            invariant
                i <= CHUNK_SIZE,
                chunk@.len() == CHUNK_SIZE,
                self.wf(),
                self.spec_width() == old(self).spec_width(),
                self.spec_height() == old(self).spec_height(),
                offset.0 + MAPBLOCK_LENGTH <= self.spec_width(),
                offset.1 + MAPBLOCK_LENGTH <= self.spec_height(),
                forall|x: int, y: int|
                    self.in_bounds(x, y) ==> self.spec_cell(x, y) == if chunk_covers(offset, x, y)
                        && chunk_cell_index(offset, x, y) < i {
                        chunk@[chunk_cell_index(offset, x, y)]
                    } else {
                        old(self).spec_cell(x, y)
                    },
            decreases CHUNK_SIZE - i,
        {
            let lx = i % 16;
            let lz = 15 - i / 16;
            let x = offset.0 as usize + lx;
            let y = offset.1 as usize + lz;
            self.set_cell(x, y, chunk[i]);
            i += 1;
        }
        proof {
            assert forall|i: int| 0 <= i < CHUNK_SIZE implies final(self).spec_cell(
                offset.0 + (i % 16),
                offset.1 + 15 - i / 16,
            ) == chunk@[i] by {
                let x = offset.0 + (i % 16);
                let y = offset.1 + 15 - i / 16;
                assert(chunk_covers(offset, x, y));
                assert(chunk_cell_index(offset, x, y) == i);
            }
        }
    }

    /// The elevation difference at `(x, y)` along the x axis: ascent toward
    /// the right neighbor minus descent from the left neighbor, the cell
    /// itself standing in for a neighbor beyond the grid edge. Absent when
    /// the cell or an in-range neighbor has no recorded elevation.
    pub open spec fn spec_height_diff_x(&self, x: int, y: int) -> Option<i16> {
        if !self.in_bounds(x, y) {
            None
        } else {
            let this_cell = self.spec_cell(x, y);
            let a = if self.in_bounds(x - 1, y) {
                self.spec_cell(x - 1, y)
            } else {
                this_cell
            };
            let b = if self.in_bounds(x + 1, y) {
                self.spec_cell(x + 1, y)
            } else {
                this_cell
            };
            match (this_cell.height, a.height, b.height) {
                (Some(h), Some(ha), Some(hb)) => Some(
                    clamp_i16(
                        nonneg_part(clamp_i16(hb - h)) - nonneg_part(clamp_i16(h - ha)),
                    ),
                ),
                _ => None,
            }
        }
    }

    /// The elevation difference at `(x, y)` along the y axis, formed as in
    /// [`Terrain::spec_height_diff_x`] from the row neighbors.
    pub open spec fn spec_height_diff_y(&self, x: int, y: int) -> Option<i16> {
        if !self.in_bounds(x, y) {
            None
        } else {
            let this_cell = self.spec_cell(x, y);
            let a = if self.in_bounds(x, y - 1) {
                self.spec_cell(x, y - 1)
            } else {
                this_cell
            };
            let b = if self.in_bounds(x, y + 1) {
                self.spec_cell(x, y + 1)
            } else {
                this_cell
            };
            match (this_cell.height, a.height, b.height) {
                (Some(h), Some(ha), Some(hb)) => Some(
                    clamp_i16(
                        nonneg_part(clamp_i16(hb - h)) - nonneg_part(clamp_i16(h - ha)),
                    ),
                ),
                _ => None,
            }
        }
    }

    /// The elevation difference along the x axis at `(x, y)`.
    pub fn height_diff_x(&self, x: u32, y: u32) -> (d: Option<i16>)
        requires
            self.wf(),
        ensures
            d == self.spec_height_diff_x(x as int, y as int),
    {
        let this_cell = match self.get_cell(x, y) {
            Some(c) => c,
            None => {
                return None;
            },
        };
        let h = match this_cell.height {
            Some(h) => h,
            None => {
                return None;
            },
        };
        let a = if x > 0 {
            self.cell_at(x as usize - 1, y as usize)
        } else {
            this_cell
        };
        let b = if x as usize + 1 < self.width {
            self.cell_at(x as usize + 1, y as usize)
        } else {
            this_cell
        };
        let ha = match a.height {
            Some(v) => v,
            None => {
                return None;
            },
        };
        let hb = match b.height {
            Some(v) => v,
            None => {
                return None;
            },
        };
        let mut ascent = sat_sub_i16(hb, h);
        ensure_nonnegative(&mut ascent);
        let mut descent = sat_sub_i16(h, ha);
        ensure_nonnegative(&mut descent);
        Some(sat_sub_i16(ascent, descent))
    }

    /// The elevation difference along the y axis at `(x, y)`.
    pub fn height_diff_y(&self, x: u32, y: u32) -> (d: Option<i16>)
        requires
            self.wf(),
        ensures
            d == self.spec_height_diff_y(x as int, y as int),
    {
        let this_cell = match self.get_cell(x, y) {
            Some(c) => c,
            None => {
                return None;
            },
        };
        let h = match this_cell.height {
            Some(h) => h,
            None => {
                return None;
            },
        };
        let a = if y > 0 {
            self.cell_at(x as usize, y as usize - 1)
        } else {
            this_cell
        };
        let b = if y as usize + 1 < self.height {
            self.cell_at(x as usize, y as usize + 1)
        } else {
            this_cell
        };
        let ha = match a.height {
            Some(v) => v,
            None => {
                return None;
            },
        };
        let hb = match b.height {
            Some(v) => v,
            None => {
                return None;
            },
        };
        let mut ascent = sat_sub_i16(hb, h);
        ensure_nonnegative(&mut ascent);
        let mut descent = sat_sub_i16(h, ha);
        ensure_nonnegative(&mut descent);
        Some(sat_sub_i16(ascent, descent))
    }
}

/// At the left grid edge the cell itself stands in for the missing left
/// neighbor: the horizontal difference is the one-sided ascent toward the
/// in-bounds right neighbor alone, and nothing beyond the grid is read.
pub proof fn lemma_height_diff_x_left_edge(t: Terrain, y: int)
    requires
        t.in_bounds(0, y),
        t.in_bounds(1, y),
        t.spec_cell(0, y).height is Some,
        t.spec_cell(1, y).height is Some,
    ensures
        t.spec_height_diff_x(0, y) == Some(
            nonneg_part(
                clamp_i16(t.spec_cell(1, y).height->Some_0 - t.spec_cell(0, y).height->Some_0),
            ),
        ),
{
}

/// At the right grid edge the cell itself stands in for the missing right
/// neighbor: the horizontal difference is minus the one-sided descent from
/// the in-bounds left neighbor alone, and nothing beyond the grid is read.
pub proof fn lemma_height_diff_x_right_edge(t: Terrain, x: int, y: int)
    requires
        x == t.spec_width() - 1,
        x >= 1,
        t.in_bounds(x, y),
        t.spec_cell(x, y).height is Some,
        t.spec_cell(x - 1, y).height is Some,
    ensures
        t.spec_height_diff_x(x, y) == Some(
            clamp_i16(
                0 - nonneg_part(
                    clamp_i16(
                        t.spec_cell(x, y).height->Some_0 - t.spec_cell(x - 1, y).height->Some_0,
                    ),
                ),
            ),
        ),
{
}

/// At the top grid row the cell itself stands in for the missing upper
/// neighbor: the vertical difference is the one-sided ascent toward the
/// in-bounds lower neighbor alone, and nothing beyond the grid is read.
pub proof fn lemma_height_diff_y_top_edge(t: Terrain, x: int)
    requires
        t.in_bounds(x, 0),
        t.in_bounds(x, 1),
        t.spec_cell(x, 0).height is Some,
        t.spec_cell(x, 1).height is Some,
    ensures
        t.spec_height_diff_y(x, 0) == Some(
            nonneg_part(
                clamp_i16(t.spec_cell(x, 1).height->Some_0 - t.spec_cell(x, 0).height->Some_0),
            ),
        ),
{
}

/// At the bottom grid row the cell itself stands in for the missing lower
/// neighbor: the vertical difference is minus the one-sided descent from
/// the in-bounds upper neighbor alone, and nothing beyond the grid is read.
pub proof fn lemma_height_diff_y_bottom_edge(t: Terrain, x: int, y: int)
    requires
        y == t.spec_height() - 1,
        y >= 1,
        t.in_bounds(x, y),
        t.spec_cell(x, y).height is Some,
        t.spec_cell(x, y - 1).height is Some,
    ensures
        t.spec_height_diff_y(x, y) == Some(
            clamp_i16(
                0 - nonneg_part(
                    clamp_i16(
                        t.spec_cell(x, y).height->Some_0 - t.spec_cell(x, y - 1).height->Some_0,
                    ),
                ),
            ),
        ),
{
}

/// A column of a single cell has both neighbors standing in for themselves:
/// the elevation difference vanishes.
pub proof fn lemma_height_diff_x_isolated(t: Terrain, y: int)
    requires
        t.spec_width() == 1,
        t.in_bounds(0, y),
        t.spec_cell(0, y).height is Some,
    ensures
        t.spec_height_diff_x(0, y) == Some(0i16),
{
}

} // verus!
