//! One open cavern.
use vstd::prelude::*;
use crate::geometry::Point;
use crate::map::{point_idx, TileType};
use crate::map_builder::{MapBuilder, NUM_MONSTERS};
use crate::rng::rng_range;
use crate::{SCREEN_HEIGHT, SCREEN_WIDTH};
use bracket_lib::prelude::RandomNumberGenerator;

verus! {

pub struct EmptyArchitect {}

impl EmptyArchitect {
    /// An all-floor grid with the player at its centre and `NUM_MONSTERS` monsters at
    /// random cells off the top and left border.
    pub fn new(&mut self, rng: &mut RandomNumberGenerator) -> (mb: MapBuilder)
        ensures
            mb.empty_level(),
    {
        let mut mb = MapBuilder::blank();
        mb.fill(TileType::Floor);
        mb.player_start = Point::new(SCREEN_WIDTH / 2, SCREEN_HEIGHT / 2);
        mb.amulet_start = mb.find_most_distant();
        let mut spawns: Vec<Point> = Vec::new();
        let mut n: usize = 0;
        while n < NUM_MONSTERS
            invariant
                n <= NUM_MONSTERS,
                spawns@.len() == n,
                forall|k: int|
                    0 <= k < spawns@.len() ==> 1 <= (#[trigger] spawns@[k]).x < SCREEN_WIDTH && 1
                        <= spawns@[k].y < SCREEN_HEIGHT,
            decreases NUM_MONSTERS - n,
        {
            let x = rng_range(rng, 1, SCREEN_WIDTH);
            let y = rng_range(rng, 1, SCREEN_HEIGHT);
            spawns.push(Point::new(x, y));
            n = n + 1;
        }
        mb.monster_spawns = spawns;
        assert forall|k: int| 0 <= k < mb.monster_spawns@.len() implies mb.map.is_floor(
            point_idx(#[trigger] mb.monster_spawns@[k]),
        ) by {
            crate::map::lemma_idx_of(mb.monster_spawns@[k].x as int, mb.monster_spawns@[k].y as int);
        }
        proof {
            crate::map::lemma_idx_of(mb.player_start.x as int, mb.player_start.y as int);
        }
        mb
    }
}

} // verus!
