//! Rooms joined by corridors.
use vstd::prelude::*;
use crate::geometry::Rect;
use crate::map_builder::{
    carved_by, carved_by_any, room_drawn, room_in_grid, rooms_carved, rooms_in_grid, GenError,
    MapBuilder,
};
use crate::map::{lemma_idx_of, TileType};
use bracket_lib::prelude::RandomNumberGenerator;

verus! {

pub struct RoomArchitect {}

impl RoomArchitect {
    /// Places `NUM_ROOMS` disjoint rooms, joins them by corridors, starts the player at
    /// the centre of the first room placed and a monster at the centre of each other one.
    pub fn new(&mut self, rng: &mut RandomNumberGenerator) -> (r: Result<MapBuilder, GenError>)
        ensures
            match r {
                Ok(mb) => mb.rooms_level(),
                Err(e) => e == GenError::RoomPlacement,
            },
    {
        let mut mb = MapBuilder::blank();
        mb.fill(TileType::Wall);
        match mb.build_random_rooms(rng) {
            Ok(()) => {},
            Err(e) => {
                return Err(e);
            },
        }
        let ghost carved = mb.map.tiles@;
        assert forall|k: int| 0 <= k < mb.rooms@.len() implies room_in_grid(#[trigger] mb.rooms@[k]) by {
            assert(room_drawn(mb.rooms@[k]));
        }
        mb.build_corridors(rng);
        assert(rooms_carved(mb.map.tiles@, mb.rooms@)) by {
            assert forall|k: int, x: int, y: int|
                0 <= k < mb.rooms@.len() && #[trigger] mb.rooms@[k].contains(x, y) implies mb.map.tiles@[crate::map::idx_of(x, y)]
                    == TileType::Floor by {
                lemma_idx_of(x, y);
                assert(room_drawn(mb.rooms@[k]));
                assert(carved_by(mb.rooms@[k], crate::map::idx_of(x, y)));
                assert(carved_by_any(mb.rooms@, 0, crate::map::idx_of(x, y)));
                assert(carved[crate::map::idx_of(x, y)] == TileType::Floor);
            }
        }
        assert(Rect::wf(mb.rooms@[0]));
        mb.player_start = mb.rooms[0].center();
        assert(mb.rooms@[0].contains(mb.player_start.x as int, mb.player_start.y as int));
        mb.amulet_start = mb.find_most_distant();
        let mut spawns: Vec<crate::geometry::Point> = Vec::new();
        let mut k: usize = 1;
        while k < mb.rooms.len()
            invariant
                1 <= k <= mb.rooms@.len(),
                rooms_in_grid(mb.rooms@),
                spawns@.len() == k - 1,
                forall|q: int|
                    0 <= q < spawns@.len() ==> #[trigger] spawns@[q] == mb.rooms@[q + 1].spec_center(),
            decreases mb.rooms@.len() - k,
        {
            let c = mb.rooms[k].center();
            spawns.push(c);
            k = k + 1;
        }
        mb.monster_spawns = spawns;
        assert forall|q: int| 0 <= q < mb.monster_spawns@.len() implies crate::map::point_in_bounds(
            #[trigger] mb.monster_spawns@[q],
        ) && mb.map.is_floor(crate::map::point_idx(mb.monster_spawns@[q])) by {
            let c = mb.monster_spawns@[q];
            assert(Rect::wf(mb.rooms@[q + 1]));
            assert(mb.rooms@[q + 1].contains(c.x as int, c.y as int));
        }
        Ok(mb)
    }
}

} // verus!
