//! The fixed-size tile grid.
use vstd::prelude::*;
use crate::geometry::Point;
use crate::{NUM_TILES, SCREEN_HEIGHT, SCREEN_WIDTH};

verus! {

#[derive(Clone, Copy, Debug, PartialEq, Eq, Structural)]
pub enum TileType {
    Wall,
    Floor,
}

/// Grid width as a mathematical integer.
pub open spec fn width() -> int {
    SCREEN_WIDTH as int
}

/// Grid height as a mathematical integer.
pub open spec fn height() -> int {
    SCREEN_HEIGHT as int
}

pub open spec fn in_bounds(x: int, y: int) -> bool {
    0 <= x < width() && 0 <= y < height()
}

pub open spec fn point_in_bounds(p: Point) -> bool {
    in_bounds(p.x as int, p.y as int)
}

/// Row-major index of a cell.
pub open spec fn idx_of(x: int, y: int) -> int {
    y * width() + x
}

pub open spec fn point_idx(p: Point) -> int {
    idx_of(p.x as int, p.y as int)
}

/// Column of an index.
pub open spec fn col(i: int) -> int {
    i % width()
}

/// Row of an index.
pub open spec fn row(i: int) -> int {
    i / width()
}

pub open spec fn valid_idx(i: int) -> bool {
    0 <= i < NUM_TILES as int
}

/// Index and point conversions are inverse on the grid.
pub proof fn lemma_idx_of(x: int, y: int)
    requires
        in_bounds(x, y),
    ensures
        valid_idx(idx_of(x, y)),
        col(idx_of(x, y)) == x,
        row(idx_of(x, y)) == y,
{
    vstd::arithmetic::div_mod::lemma_fundamental_div_mod_converse(
        idx_of(x, y),
        width(),
        y,
        x,
    );
}

/// Every valid index is the index of its column and row.
pub proof fn lemma_col_row(i: int)
    requires
        valid_idx(i),
    ensures
        in_bounds(col(i), row(i)),
        idx_of(col(i), row(i)) == i,
{
    vstd::arithmetic::div_mod::lemma_fundamental_div_mod(i, width());
}

pub struct GridMap {
    pub tiles: Vec<TileType>,
}

impl GridMap {
    pub open spec fn wf(&self) -> bool {
        self.tiles@.len() == NUM_TILES as int
    }

    pub open spec fn is_floor(&self, i: int) -> bool {
        self.tiles@[i] == TileType::Floor
    }

    /// A grid of walls.
    pub fn new() -> (m: GridMap)
        ensures
            m.wf(),
            forall|i: int| 0 <= i < m.tiles@.len() ==> m.tiles@[i] == TileType::Wall,
    {
        let mut tiles: Vec<TileType> = Vec::new();
        let mut i: usize = 0;
        while i < NUM_TILES
            invariant
                i <= NUM_TILES,
                tiles@.len() == i,
                forall|k: int| 0 <= k < tiles@.len() ==> tiles@[k] == TileType::Wall,
            decreases NUM_TILES - i,
        {
            tiles.push(TileType::Wall);
            i = i + 1;
        }
        GridMap { tiles }
    }

    pub fn in_bounds(&self, p: Point) -> (r: bool)
        ensures
            r == point_in_bounds(p),
    {
        p.x >= 0 && p.x < SCREEN_WIDTH && p.y >= 0 && p.y < SCREEN_HEIGHT
    }

    pub fn point2d_to_index(&self, p: Point) -> (r: usize)
        requires
            point_in_bounds(p),
        ensures
            r == point_idx(p),
            valid_idx(r as int),
    {
        map_idx(p.x, p.y)
    }

    /// The index of a point, or `None` when it lies off the grid.
    pub fn try_idx(&self, p: Point) -> (r: Option<usize>)
        ensures
            r == (if point_in_bounds(p) {
                Some(point_idx(p) as usize)
            } else {
                None::<usize>
            }),
            r is Some ==> valid_idx(r->0 as int),
    {
        if self.in_bounds(p) {
            Some(map_idx(p.x, p.y))
        } else {
            None
        }
    }

    pub fn index_to_point2d(&self, idx: usize) -> (p: Point)
        requires
            valid_idx(idx as int),
        ensures
            p.x == col(idx as int),
            p.y == row(idx as int),
            point_in_bounds(p),
            point_idx(p) == idx,
    {
        proof {
            lemma_col_row(idx as int);
        }
        let w: usize = SCREEN_WIDTH as usize;
        Point { x: (idx % w) as i32, y: (idx / w) as i32 }
    }
}

/// Row-major index of an in-bounds cell.
pub fn map_idx(x: i32, y: i32) -> (r: usize)
    requires
        in_bounds(x as int, y as int),
    ensures
        r == idx_of(x as int, y as int),
        valid_idx(r as int),
{
    proof {
        lemma_idx_of(x as int, y as int);
    }
    ((y * SCREEN_WIDTH) + x) as usize
}

} // verus!
