//! Caves grown from noise by a cellular automaton.
use vstd::prelude::*;
use crate::geometry::{dist_sq, distance_squared, Point};
use crate::map::{
    col, height, idx_of, lemma_col_row, lemma_idx_of, map_idx, point_idx, point_in_bounds, row,
    valid_idx, width, GridMap, TileType,
};
use crate::distance::is_distance_field;
use crate::map_builder::{pruned_with, spawn_pool, GenError, MapBuilder, NUM_MONSTERS, SEARCH_RADIUS};
use crate::rng::rng_range;
use crate::{NUM_TILES, SCREEN_HEIGHT, SCREEN_WIDTH};
use bracket_lib::prelude::RandomNumberGenerator;

verus! {

/// Smoothing passes run over the noise.
pub const SMOOTHING_PASSES: u32 = 10;

pub open spec fn floor_at(tiles: Seq<TileType>, x: int, y: int) -> int {
    if tiles[idx_of(x, y)] == TileType::Floor {
        1
    } else {
        0
    }
}

/// Floor tiles among the eight cells around `(x, y)`.
pub open spec fn neighbor_count(tiles: Seq<TileType>, x: int, y: int) -> int {
    floor_at(tiles, x - 1, y - 1) + floor_at(tiles, x, y - 1) + floor_at(tiles, x + 1, y - 1)
        + floor_at(tiles, x - 1, y) + floor_at(tiles, x + 1, y) + floor_at(tiles, x - 1, y + 1)
        + floor_at(tiles, x, y + 1) + floor_at(tiles, x + 1, y + 1)
}

/// Cells off the grid's border.
pub open spec fn interior(x: int, y: int) -> bool {
    1 <= x < width() - 1 && 1 <= y < height() - 1
}

/// The tile at index `i` after one smoothing pass over `tiles`: an interior cell with
/// no floor or more than four floor cells around it becomes wall, any other interior
/// cell floor; border cells keep their value.
pub open spec fn smoothed(tiles: Seq<TileType>, i: int) -> TileType {
    if interior(col(i), row(i)) {
        let c = neighbor_count(tiles, col(i), row(i));
        if c == 0 || c > 4 {
            TileType::Wall
        } else {
            TileType::Floor
        }
    } else {
        tiles[i]
    }
}

/// The centre of the grid.
pub open spec fn grid_center() -> Point {
    Point { x: (SCREEN_WIDTH / 2) as i32, y: (SCREEN_HEIGHT / 2) as i32 }
}

/// `p` is a floor tile nearest the centre in a straight line, the first such in index order.
pub open spec fn nearest_floor_to_center(tiles: Seq<TileType>, p: Point) -> bool {
    &&& point_in_bounds(p)
    &&& tiles[point_idx(p)] == TileType::Floor
    &&& forall|i: int|
        valid_idx(i) && tiles[i] == TileType::Floor ==> dist_sq(grid_center(), p) <= dist_sq(
            grid_center(),
            #[trigger] crate::map_builder::point_of(i),
        )
    &&& forall|i: int|
        0 <= i < point_idx(p) && tiles[i] == TileType::Floor ==> dist_sq(grid_center(), p) < dist_sq(
            grid_center(),
            #[trigger] crate::map_builder::point_of(i),
        )
}

/// `tiles` after `n` smoothing passes.
pub open spec fn smoothed_n(tiles: Seq<TileType>, n: nat) -> Seq<TileType>
    decreases n,
{
    if n == 0 {
        tiles
    } else {
        let before = smoothed_n(tiles, (n - 1) as nat);
        Seq::new(NUM_TILES as nat, |i: int| smoothed(before, i))
    }
}

spec fn count_upto(tiles: Seq<TileType>, x: int, y: int, k: int) -> int
    decreases k,
{
    if k <= 0 {
        0
    } else if k - 1 == 4 {
        count_upto(tiles, x, y, k - 1)
    } else {
        count_upto(tiles, x, y, k - 1) + floor_at(tiles, x + (k - 1) % 3 - 1, y + (k - 1) / 3 - 1)
    }
}

pub struct CellularAutomataArchitect {}

impl CellularAutomataArchitect {
    /// The tile a roll gives: floor above 55, wall otherwise.
    pub fn noise_tile(roll: i32) -> (t: TileType)
        ensures
            t == (if roll > 55 {
                TileType::Floor
            } else {
                TileType::Wall
            }),
    {
        if roll > 55 {
            TileType::Floor
        } else {
            TileType::Wall
        }
    }

    /// The grid whose tile `k` is the `noise_tile` of roll `k`.
    pub fn noise_from_rolls(rolls: &Vec<i32>) -> (m: GridMap)
        requires
            rolls@.len() == NUM_TILES,
        ensures
            m.wf(),
            forall|k: int|
                0 <= k < NUM_TILES ==> #[trigger] m.tiles@[k] == (if rolls@[k] > 55 {
                    TileType::Floor
                } else {
                    TileType::Wall
                }),
    {
        let mut tiles: Vec<TileType> = Vec::new();
        let mut k: usize = 0;
        while k < NUM_TILES
            invariant
                k <= NUM_TILES,
                rolls@.len() == NUM_TILES,
                tiles@.len() == k,
                forall|q: int|
                    0 <= q < k ==> #[trigger] tiles@[q] == (if rolls@[q] > 55 {
                        TileType::Floor
                    } else {
                        TileType::Wall
                    }),
            decreases NUM_TILES - k,
        {
            tiles.push(Self::noise_tile(rolls[k]));
            k = k + 1;
        }
        GridMap { tiles }
    }

    /// Rolls from 1 to 100 for each tile, in index order, and sets `map` to the
    /// `noise_from_rolls` of them, so each tile is floor with a chance of 45 in 100.
    pub fn random_noise_map(&mut self, rng: &mut RandomNumberGenerator, map: &mut GridMap)
        ensures
            final(map).wf(),
            exists|rolls: Seq<i32>|
                rolls.len() == NUM_TILES && (forall|k: int| 0 <= k < NUM_TILES ==> 1 <= #[trigger] rolls[k] <= 100)
                    && forall|k: int|
                    0 <= k < NUM_TILES ==> #[trigger] final(map).tiles@[k] == (if rolls[k] > 55 {
                        TileType::Floor
                    } else {
                        TileType::Wall
                    }),
    {
        let mut rolls: Vec<i32> = Vec::new();
        let mut i: usize = 0;
        while i < NUM_TILES
            invariant
                i <= NUM_TILES,
                rolls@.len() == i,
                forall|k: int| 0 <= k < i ==> 1 <= #[trigger] rolls@[k] <= 100,
            decreases NUM_TILES - i,
        {
            rolls.push(rng_range(rng, 1, 101));
            i = i + 1;
        }
        *map = Self::noise_from_rolls(&rolls);
        assert(rolls@.len() == NUM_TILES);
    }

    /// Whether the grid holds a floor tile.
    pub fn any_floor(map: &GridMap) -> (r: bool)
        requires
            map.wf(),
        ensures
            r == exists|i: int| 0 <= i < NUM_TILES && #[trigger] map.tiles@[i] == TileType::Floor,
    {
        let mut i: usize = 0;
        while i < NUM_TILES
            invariant
                i <= NUM_TILES,
                map.wf(),
                forall|q: int| 0 <= q < i ==> #[trigger] map.tiles@[q] != TileType::Floor,
            decreases NUM_TILES - i,
        {
            if map.tiles[i] == TileType::Floor {
                return true;
            }
            i = i + 1;
        }
        false
    }

    /// Floor tiles among the eight cells around an interior cell.
    pub fn count_neighbors(&mut self, x: i32, y: i32, map: &GridMap) -> (r: usize)
        requires
            map.wf(),
            interior(x as int, y as int),
        ensures
            r == neighbor_count(map.tiles@, x as int, y as int),
    {
        let mut neighbors: usize = 0;
        let mut k: i32 = 0;
        while k < 9
            invariant
                0 <= k <= 9,
                map.wf(),
                interior(x as int, y as int),
                neighbors <= k,
                neighbors == count_upto(map.tiles@, x as int, y as int, k as int),
            decreases 9 - k,
        {
            let ix: i32 = k % 3 - 1;
            let iy: i32 = k / 3 - 1;
            if k != 4 {
                let idx = map_idx(x + ix, y + iy);
                if map.tiles[idx] == TileType::Floor {
                    neighbors = neighbors + 1;
                }
            }
            k = k + 1;
        }
        assert(count_upto(map.tiles@, x as int, y as int, 9) == neighbor_count(
            map.tiles@,
            x as int,
            y as int,
        )) by {
            reveal_with_fuel(count_upto, 10);
        }
        neighbors
    }

    /// One smoothing pass, computed entirely from the grid as it was before the pass.
    pub fn iteration(&mut self, map: &mut GridMap)
        requires
            old(map).wf(),
        ensures
            final(map).wf(),
            forall|i: int|
                0 <= i < NUM_TILES ==> #[trigger] final(map).tiles@[i] == smoothed(old(map).tiles@, i),
    {
        let mut new_tiles = map.tiles.clone();
        assert(new_tiles@ =~= map.tiles@);
        let mut y: i32 = 1;
        while y < SCREEN_HEIGHT - 1
            invariant
                1 <= y <= SCREEN_HEIGHT - 1,
                map.wf(),
                map == old(map),
                new_tiles@.len() == NUM_TILES,
                forall|i: int|
                    0 <= i < NUM_TILES ==> #[trigger] new_tiles@[i] == if interior(col(i), row(i)) && row(i) < y {
                        smoothed(map.tiles@, i)
                    } else {
                        map.tiles@[i]
                    },
            decreases SCREEN_HEIGHT - y,
        {
            let mut x: i32 = 1;
            while x < SCREEN_WIDTH - 1
                invariant
                    1 <= y < SCREEN_HEIGHT - 1,
                    1 <= x <= SCREEN_WIDTH - 1,
                    map.wf(),
                    map == old(map),
                    new_tiles@.len() == NUM_TILES,
                    forall|i: int|
                        0 <= i < NUM_TILES ==> #[trigger] new_tiles@[i] == if interior(col(i), row(i))
                            && (row(i) < y || (row(i) == y && col(i) < x)) {
                            smoothed(map.tiles@, i)
                        } else {
                            map.tiles@[i]
                        },
                decreases SCREEN_WIDTH - x,
            {
                let neighbors = self.count_neighbors(x, y, map);
                let idx = map_idx(x, y);
                proof {
                    lemma_idx_of(x as int, y as int);
                }
                let ghost before = new_tiles@;
                if neighbors == 0 || neighbors > 4 {
                    new_tiles.set(idx, TileType::Wall);
                } else {
                    new_tiles.set(idx, TileType::Floor);
                }
                assert forall|i: int|
                    0 <= i < NUM_TILES implies #[trigger] new_tiles@[i] == if interior(col(i), row(i))
                        && (row(i) < y || (row(i) == y && col(i) < x + 1)) {
                        smoothed(map.tiles@, i)
                    } else {
                        map.tiles@[i]
                    } by {
                    lemma_col_row(i);
                    if i != idx as int {
                        assert(new_tiles@[i] == before[i]);
                    }
                }
                x = x + 1;
            }
            y = y + 1;
        }
        map.tiles = new_tiles;
    }

    /// The floor tile nearest the grid's centre in a straight line (the first in index
    /// order among equals). The grid must hold a floor tile.
    pub fn find_start(&mut self, map: &GridMap) -> (r: Point)
        requires
            map.wf(),
            exists|i: int| 0 <= i < NUM_TILES && #[trigger] map.tiles@[i] == TileType::Floor,
        ensures
            nearest_floor_to_center(map.tiles@, r),
    {
        let center = Point::new(SCREEN_WIDTH / 2, SCREEN_HEIGHT / 2);
        let mut best: Option<usize> = None;
        let mut best_dist: i128 = 0;
        let mut i: usize = 0;
        while i < NUM_TILES
            invariant
                i <= NUM_TILES,
                map.wf(),
                center == grid_center(),
                best is None <==> forall|q: int| 0 <= q < i ==> #[trigger] map.tiles@[q] != TileType::Floor,
                best is Some ==> {
                    let b = best->0 as int;
                    &&& 0 <= b < i
                    &&& map.tiles@[b] == TileType::Floor
                    &&& best_dist == dist_sq(center, crate::map_builder::point_of(b))
                    &&& forall|q: int|
                        0 <= q < i && map.tiles@[q] == TileType::Floor ==> best_dist <= dist_sq(
                            center,
                            #[trigger] crate::map_builder::point_of(q),
                        )
                    &&& forall|q: int|
                        0 <= q < b && map.tiles@[q] == TileType::Floor ==> best_dist < dist_sq(
                            center,
                            #[trigger] crate::map_builder::point_of(q),
                        )
                },
            decreases NUM_TILES - i,
        {
            if map.tiles[i] == TileType::Floor {
                let p = map.index_to_point2d(i);
                let dist = distance_squared(center, p);
                match best {
                    None => {
                        best = Some(i);
                        best_dist = dist;
                    },
                    Some(_) => {
                        if dist < best_dist {
                            best = Some(i);
                            best_dist = dist;
                        }
                    },
                }
            }
            i = i + 1;
        }
        match best {
            None => {
                assert(false);
                Point::zero()
            },
            Some(b) => map.index_to_point2d(b),
        }
    }
    /// The cave grown from `noise`: it is smoothed `SMOOTHING_PASSES` times, the player
    /// starts on the floor tile nearest the centre, and the level is settled around that
    /// start. Fails with `NoFloor` exactly when smoothing leaves no floor, and with
    /// `SpawnPoolExhausted` exactly when the pruned grid's spawn pool is too small.
    pub fn from_noise(&mut self, noise: GridMap, rng: &mut RandomNumberGenerator) -> (r: Result<MapBuilder, GenError>)
        requires
            noise.wf(),
        ensures
            (r is Err && r->Err_0 == GenError::NoFloor) <==> forall|i: int|
                0 <= i < NUM_TILES ==> #[trigger] smoothed_n(noise.tiles@, SMOOTHING_PASSES as nat)[i]
                    != TileType::Floor,
            r is Ok ==> {
                let mb = r->Ok_0;
                let smooth = smoothed_n(noise.tiles@, SMOOTHING_PASSES as nat);
                &&& nearest_floor_to_center(smooth, mb.player_start)
                &&& mb.cave_level(mb.player_start)
                &&& forall|d: Seq<u32>|
                    #[trigger] is_distance_field(smooth, seq![point_idx(mb.player_start) as usize], SEARCH_RADIUS, d)
                        ==> mb.map.tiles@ == pruned_with(smooth, d)
            },
            (r is Err && r->Err_0 == GenError::SpawnPoolExhausted) ==> exists|p: Point|
                #[trigger] nearest_floor_to_center(smoothed_n(noise.tiles@, SMOOTHING_PASSES as nat), p)
                    && forall|d: Seq<u32>|
                    #[trigger] is_distance_field(
                        smoothed_n(noise.tiles@, SMOOTHING_PASSES as nat),
                        seq![point_idx(p) as usize],
                        SEARCH_RADIUS,
                        d,
                    ) ==> spawn_pool(
                        pruned_with(smoothed_n(noise.tiles@, SMOOTHING_PASSES as nat), d),
                        p,
                        NUM_TILES as int,
                    ).len() < NUM_MONSTERS,
            r is Err ==> r->Err_0 == GenError::NoFloor || r->Err_0 == GenError::SpawnPoolExhausted,
    {
        let mut map = noise;
        let mut pass: u32 = 0;
        while pass < SMOOTHING_PASSES
            invariant
                map.wf(),
                pass <= SMOOTHING_PASSES,
                map.tiles@ == smoothed_n(noise.tiles@, pass as nat),
            decreases SMOOTHING_PASSES - pass,
        {
            self.iteration(&mut map);
            pass = pass + 1;
            assert(map.tiles@ =~= smoothed_n(noise.tiles@, pass as nat));
        }
        if !Self::any_floor(&map) {
            return Err(GenError::NoFloor);
        }
        let start = self.find_start(&map);
        MapBuilder::settle_cave(map, start, rng)
    }

    /// A cave grown from fresh noise; see `from_noise`.
    pub fn new(&mut self, rng: &mut RandomNumberGenerator) -> (r: Result<MapBuilder, GenError>)
        ensures
            r is Ok ==> r->Ok_0.cave_level(r->Ok_0.player_start),
            r is Err ==> r->Err_0 == GenError::NoFloor || r->Err_0 == GenError::SpawnPoolExhausted,
    {
        let mut noise = GridMap::new();
        self.random_noise_map(rng, &mut noise);
        self.from_noise(noise, rng)
    }
}

} // verus!
