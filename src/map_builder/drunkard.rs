//! Caves dug by random walkers setting out from the centre.
use vstd::prelude::*;
use crate::geometry::Point;
use crate::map::{lemma_idx_of, map_idx, point_idx, GridMap, TileType};
use crate::map_builder::{GenError, MapBuilder};
use crate::rng::rng_range;
use crate::{NUM_TILES, SCREEN_HEIGHT, SCREEN_WIDTH};
use bracket_lib::prelude::RandomNumberGenerator;

verus! {

/// Steps a walker takes before it stops.
pub const STAGGER_DISTANCE: u32 = 400;

/// Walkers sent out at most.
pub const MAX_WALKERS: u32 = 400;

/// Floor tiles wanted: a third of the grid.
pub const DESIRED_FLOOR: usize = NUM_TILES / 3;

pub struct DrunkardsWalkArchitect {}

impl DrunkardsWalkArchitect {
    /// Number of floor tiles.
    pub fn count_floor(map: &GridMap) -> (n: usize)
        requires
            map.wf(),
        ensures
            n <= NUM_TILES,
            n == map.tiles@.filter(|t: TileType| t == TileType::Floor).len(),
    {
        let mut n: usize = 0;
        let mut i: usize = 0;
        while i < NUM_TILES
            invariant
                i <= NUM_TILES,
                map.wf(),
                n <= i,
                n == map.tiles@.subrange(0, i as int).filter(|t: TileType| t == TileType::Floor).len(),
            decreases NUM_TILES - i,
        {
            proof {
                let s = map.tiles@.subrange(0, i as int + 1);
                assert(s.drop_last() =~= map.tiles@.subrange(0, i as int));
                reveal(Seq::filter);
            }
            if map.tiles[i] == TileType::Floor {
                n = n + 1;
            }
            i = i + 1;
        }
        assert(map.tiles@.subrange(0, NUM_TILES as int) =~= map.tiles@);
        n
    }

    /// One walker from `start`: it turns its cell to floor and steps in a random
    /// direction, until it has taken `STAGGER_DISTANCE` steps or would reach the border.
    /// Only ever turns tiles to floor, and always the start.
    pub fn stagger(map: &mut GridMap, start: Point, rng: &mut RandomNumberGenerator)
        requires
            old(map).wf(),
            1 <= start.x < SCREEN_WIDTH - 1,
            1 <= start.y < SCREEN_HEIGHT - 1,
        ensures
            final(map).wf(),
            final(map).tiles@[point_idx(start)] == TileType::Floor,
            forall|i: int|
                0 <= i < NUM_TILES && #[trigger] old(map).tiles@[i] == TileType::Floor
                    ==> final(map).tiles@[i] == TileType::Floor,
    {
        let mut x: i32 = start.x;
        let mut y: i32 = start.y;
        let mut steps: u32 = 0;
        let mut walking: bool = true;
        proof {
            lemma_idx_of(start.x as int, start.y as int);
        }
        while walking && steps < STAGGER_DISTANCE
            invariant
                map.wf(),
                1 <= x < SCREEN_WIDTH - 1,
                1 <= y < SCREEN_HEIGHT - 1,
                0 <= point_idx(start) < NUM_TILES,
                steps > 0 ==> map.tiles@[point_idx(start)] == TileType::Floor,
                forall|i: int|
                    0 <= i < NUM_TILES && #[trigger] old(map).tiles@[i] == TileType::Floor
                        ==> map.tiles@[i] == TileType::Floor,
                1 <= start.x < SCREEN_WIDTH - 1,
                1 <= start.y < SCREEN_HEIGHT - 1,
                steps == 0 ==> x == start.x && y == start.y && walking,
            decreases STAGGER_DISTANCE - steps,
        {
            let idx = map_idx(x, y);
            map.tiles.set(idx, TileType::Floor);
            let (nx, ny) = match rng_range(rng, 0, 4) {
                0 => (x - 1, y),
                1 => (x + 1, y),
                2 => (x, y - 1),
                _ => (x, y + 1),
            };
            if nx >= 1 && nx < SCREEN_WIDTH - 1 && ny >= 1 && ny < SCREEN_HEIGHT - 1 {
                x = nx;
                y = ny;
            } else {
                walking = false;
            }
            steps = steps + 1;
        }
    }

    /// Walkers dig from the centre until a third of the grid is floor (or
    /// `MAX_WALKERS` have gone); whatever the centre cannot reach is walled off, the
    /// player starts at the centre, monsters are drawn from its spawn pool, and the
    /// amulet lies on the farthest reachable tile.
    pub fn new(&mut self, rng: &mut RandomNumberGenerator) -> (r: Result<MapBuilder, GenError>)
        ensures
            r is Ok ==> r->Ok_0.cave_level(Point { x: 40, y: 25 }),
            r is Err ==> r->Err_0 == GenError::SpawnPoolExhausted,
    {
        let mut map = GridMap::new();
        let center = Point::new(SCREEN_WIDTH / 2, SCREEN_HEIGHT / 2);
        Self::stagger(&mut map, center, rng);
        let mut walkers: u32 = 1;
        while walkers < MAX_WALKERS && Self::count_floor(&map) < DESIRED_FLOOR
            invariant
                map.wf(),
                center == (Point { x: 40, y: 25 }),
                map.tiles@[point_idx(center)] == TileType::Floor,
            decreases MAX_WALKERS - walkers,
        {
            Self::stagger(&mut map, center, rng);
            walkers = walkers + 1;
        }
        MapBuilder::settle_cave(map, center, rng)
    }
}

} // verus!
