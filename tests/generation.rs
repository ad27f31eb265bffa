use bracket_lib::prelude::RandomNumberGenerator;
use dungeon_crawl::distance::{dijkstra_map, UNREACHABLE};
use dungeon_crawl::geometry::{distance_squared, Point, Rect};
use dungeon_crawl::map::{map_idx, GridMap, TileType};
use dungeon_crawl::map_builder::automatas::CellularAutomataArchitect;
use dungeon_crawl::map_builder::drunkard::DrunkardsWalkArchitect;
use dungeon_crawl::map_builder::empty::EmptyArchitect;
use dungeon_crawl::map_builder::rooms::RoomArchitect;
use dungeon_crawl::map_builder::{take_spawns, ArchitectKind, GenError, MapBuilder, NUM_MONSTERS, NUM_ROOMS};
use dungeon_crawl::{NUM_TILES, SCREEN_HEIGHT, SCREEN_WIDTH};

fn floor_map() -> GridMap {
    GridMap { tiles: vec![TileType::Floor; NUM_TILES] }
}

fn idx(x: i32, y: i32) -> usize {
    (y * SCREEN_WIDTH + x) as usize
}

/// Steps between floor tiles, recomputed by a plain breadth-first search.
fn bfs(map: &GridMap, start: usize) -> Vec<Option<u32>> {
    let mut d: Vec<Option<u32>> = vec![None; NUM_TILES];
    let mut queue = std::collections::VecDeque::new();
    d[start] = Some(0);
    queue.push_back(start);
    while let Some(i) = queue.pop_front() {
        let x = (i % SCREEN_WIDTH as usize) as i32;
        let y = (i / SCREEN_WIDTH as usize) as i32;
        for dy in -1..=1 {
            for dx in -1..=1 {
                let (nx, ny) = (x + dx, y + dy);
                if (dx, dy) == (0, 0) || nx < 0 || ny < 0 || nx >= SCREEN_WIDTH || ny >= SCREEN_HEIGHT {
                    continue;
                }
                let j = idx(nx, ny);
                if d[j].is_none() && map.tiles[j] == TileType::Floor {
                    d[j] = Some(d[i].unwrap() + 1);
                    queue.push_back(j);
                }
            }
        }
    }
    d
}

#[test]
fn point_and_index_round_trip() {
    let map = GridMap::new();
    assert_eq!(map_idx(3, 2), 163);
    let p = Point::new(79, 49);
    let i = map.point2d_to_index(p);
    assert_eq!(i, 3999);
    assert_eq!(map.index_to_point2d(i), p);
    assert_eq!(map.index_to_point2d(81), Point::new(1, 1));
    assert_eq!(map.try_idx(Point::new(80, 0)), None);
    assert_eq!(map.try_idx(Point::new(-1, 5)), None);
    assert_eq!(map.try_idx(Point::new(0, 50)), None);
    assert_eq!(map.try_idx(Point::new(5, 1)), Some(85));
    assert!(map.tiles.iter().all(|t| *t == TileType::Wall));
    assert_eq!(map.tiles.len(), 4000);
}

#[test]
fn rect_center_and_intersection() {
    let a = Rect::with_size(1, 1, 4, 4);
    assert_eq!(a, Rect { x1: 1, y1: 1, x2: 5, y2: 5 });
    assert_eq!(a.center(), Point::new(3, 3));
    let touching = Rect::with_size(5, 1, 3, 3);
    assert!(!a.intersect(&touching));
    assert!(!touching.intersect(&a));
    let overlapping = Rect::with_size(4, 4, 3, 3);
    assert!(a.intersect(&overlapping));
    assert!(overlapping.intersect(&a));
    assert_eq!(Rect::with_size(2, 2, 3, 2).center(), Point::new(3, 3));
}

#[test]
fn squared_distance() {
    assert_eq!(distance_squared(Point::new(0, 0), Point::new(3, 4)), 25);
    assert_eq!(distance_squared(Point::new(40, 25), Point::new(40, 25)), 0);
}

#[test]
fn distance_field_on_open_floor() {
    let map = floor_map();
    let d = dijkstra_map(&map, &vec![idx(40, 25)], 1024);
    assert_eq!(d[idx(40, 25)], 0);
    assert_eq!(d[idx(41, 26)], 1);
    assert_eq!(d[idx(0, 0)], 40);
    assert_eq!(d[idx(79, 49)], 39);
    assert_eq!(d[idx(40, 0)], 25);
}

#[test]
fn distance_field_respects_walls_and_radius() {
    let mut map = GridMap::new();
    for x in 0..10 {
        map.tiles[idx(x, 0)] = TileType::Floor;
    }
    let d = dijkstra_map(&map, &vec![idx(0, 0)], 1024);
    for x in 0..10 {
        assert_eq!(d[idx(x, 0)], x as u32);
    }
    assert_eq!(d[idx(10, 0)], UNREACHABLE);
    assert_eq!(d[idx(0, 1)], UNREACHABLE);
    let near = dijkstra_map(&map, &vec![idx(0, 0)], 5);
    assert_eq!(near[idx(5, 0)], 5);
    assert_eq!(near[idx(6, 0)], UNREACHABLE);
}

#[test]
fn distance_field_from_two_sources() {
    let map = floor_map();
    let d = dijkstra_map(&map, &vec![idx(0, 0), idx(79, 0)], 1024);
    assert_eq!(d[idx(0, 0)], 0);
    assert_eq!(d[idx(79, 0)], 0);
    assert_eq!(d[idx(40, 0)], 39);
    assert_eq!(d[idx(39, 0)], 39);
}

#[test]
fn distance_field_descends_toward_source() {
    let mut rng = RandomNumberGenerator::seeded(7);
    let mut a = CellularAutomataArchitect {};
    let mut map = GridMap::new();
    a.random_noise_map(&mut rng, &mut map);
    let start = (0..NUM_TILES).find(|i| map.tiles[*i] == TileType::Floor).unwrap();
    let d = dijkstra_map(&map, &vec![start], 1024);
    let reference = bfs(&map, start);
    for i in 0..NUM_TILES {
        match reference[i] {
            Some(v) if v <= 1024 => assert_eq!(d[i], v),
            _ => assert_eq!(d[i], UNREACHABLE),
        }
    }
    assert_eq!(d[start], 0);
}

#[test]
fn fill_sets_every_tile() {
    let mut mb = MapBuilder::blank();
    mb.fill(TileType::Floor);
    assert!(mb.map.tiles.iter().all(|t| *t == TileType::Floor));
    mb.fill(TileType::Wall);
    assert!(mb.map.tiles.iter().all(|t| *t == TileType::Wall));
}

#[test]
fn tunnels_carve_inclusive_lines_and_skip_off_grid_cells() {
    let mut mb = MapBuilder::blank();
    mb.apply_horizontal_tunnel(7, 3, 2);
    for x in 0..SCREEN_WIDTH {
        let want = if (3..=7).contains(&x) { TileType::Floor } else { TileType::Wall };
        assert_eq!(mb.map.tiles[idx(x, 2)], want);
    }
    mb.apply_vertical_tunnel(-5, 1, 0);
    assert_eq!(mb.map.tiles[idx(0, 0)], TileType::Floor);
    assert_eq!(mb.map.tiles[idx(0, 1)], TileType::Floor);
    assert_eq!(mb.map.tiles[idx(0, 2)], TileType::Wall);
    mb.apply_horizontal_tunnel(75, 90, 49);
    assert_eq!(mb.map.tiles[idx(79, 49)], TileType::Floor);
    assert_eq!(mb.map.tiles[idx(74, 49)], TileType::Wall);
    let floors = mb.map.tiles.iter().filter(|t| **t == TileType::Floor).count();
    assert_eq!(floors, 5 + 2 + 5);
}

#[test]
fn farthest_point_on_open_floor_is_last_of_the_farthest() {
    let mut mb = MapBuilder::blank();
    mb.fill(TileType::Floor);
    mb.player_start = Point::new(40, 25);
    assert_eq!(mb.find_most_distant(), Point::new(0, 49));
}

#[test]
fn farthest_point_stays_in_reach() {
    let mut mb = MapBuilder::blank();
    mb.apply_horizontal_tunnel(10, 20, 5);
    mb.apply_horizontal_tunnel(60, 70, 5);
    mb.player_start = Point::new(12, 5);
    assert_eq!(mb.find_most_distant(), Point::new(20, 5));
}

#[test]
fn spawn_sampling_draws_distinct_far_floor_tiles() {
    let mut mb = MapBuilder::blank();
    mb.fill(TileType::Floor);
    let start = Point::new(40, 25);
    let mut rng = RandomNumberGenerator::seeded(3);
    let spawns = mb.spawn_monster(&start, &mut rng);
    assert_eq!(spawns.len(), NUM_MONSTERS);
    for (k, s) in spawns.iter().enumerate() {
        assert!(distance_squared(start, *s) > 100);
        assert!(!spawns[..k].contains(s));
    }
}

#[test]
fn spawn_pool_holds_the_far_floor_tiles() {
    let mut mb = MapBuilder::blank();
    mb.apply_horizontal_tunnel(0, 79, 0);
    let start = Point::new(40, 0);
    // Only x < 30 or x > 50 lies more than 10 away: 30 + 29 = 59 tiles.
    let pool = mb.spawn_candidates(&start);
    assert_eq!(pool.len(), 59);
    assert_eq!(pool[0], Point::new(0, 0));
    assert_eq!(pool[30], Point::new(51, 0));
    let mut rng = RandomNumberGenerator::seeded(3);
    assert_eq!(mb.spawn_monster(&start, &mut rng).len(), NUM_MONSTERS);
}

#[test]
fn spawns_follow_the_draws_on_what_is_left() {
    let pool = vec![Point::new(1, 1), Point::new(2, 2), Point::new(3, 3), Point::new(4, 4)];
    let taken = take_spawns(pool.clone(), &vec![1, 0, 1]);
    assert_eq!(taken, vec![Point::new(2, 2), Point::new(1, 1), Point::new(4, 4)]);
    assert_eq!(take_spawns(pool.clone(), &vec![3, 2, 1, 0]), vec![
        Point::new(4, 4),
        Point::new(3, 3),
        Point::new(2, 2),
        Point::new(1, 1),
    ]);
    assert!(take_spawns(pool, &vec![]).is_empty());
}

#[test]
fn count_neighbors_counts_the_eight_surrounding_cells() {
    let mut a = CellularAutomataArchitect {};
    let mut map = GridMap::new();
    assert_eq!(a.count_neighbors(5, 5, &map), 0);
    for (x, y) in [(4, 4), (5, 4), (6, 6), (5, 5)] {
        map.tiles[idx(x, y)] = TileType::Floor;
    }
    assert_eq!(a.count_neighbors(5, 5, &map), 3);
    let open = floor_map();
    assert_eq!(a.count_neighbors(1, 1, &open), 8);
}

#[test]
fn smoothing_pass_follows_the_neighbour_rule() {
    let mut a = CellularAutomataArchitect {};
    let mut map = GridMap::new();
    for (x, y) in [(10, 10), (11, 10), (12, 10)] {
        map.tiles[idx(x, y)] = TileType::Floor;
    }
    map.tiles[idx(0, 0)] = TileType::Floor;
    a.iteration(&mut map);
    // A lone cell with floor neighbours on both sides keeps floor; its ends have one.
    assert_eq!(map.tiles[idx(11, 10)], TileType::Floor);
    assert_eq!(map.tiles[idx(10, 10)], TileType::Floor);
    assert_eq!(map.tiles[idx(11, 9)], TileType::Floor);
    assert_eq!(map.tiles[idx(9, 9)], TileType::Floor);
    assert_eq!(map.tiles[idx(20, 20)], TileType::Wall);
    // Border cells keep their value.
    assert_eq!(map.tiles[idx(0, 0)], TileType::Floor);
    let mut open = floor_map();
    a.iteration(&mut open);
    assert_eq!(open.tiles[idx(5, 5)], TileType::Wall);
    assert_eq!(open.tiles[idx(0, 5)], TileType::Floor);
}

#[test]
fn start_is_the_floor_nearest_the_centre() {
    let mut a = CellularAutomataArchitect {};
    let mut map = GridMap::new();
    assert!(!CellularAutomataArchitect::any_floor(&map));
    map.tiles[idx(2, 2)] = TileType::Floor;
    map.tiles[idx(43, 25)] = TileType::Floor;
    map.tiles[idx(37, 25)] = TileType::Floor;
    assert!(CellularAutomataArchitect::any_floor(&map));
    assert_eq!(a.find_start(&map), Point::new(37, 25));
    map.tiles[idx(40, 24)] = TileType::Floor;
    assert_eq!(a.find_start(&map), Point::new(40, 24));
}

fn check_valid(mb: &MapBuilder) {
    let start = map_idx(mb.player_start.x, mb.player_start.y);
    assert_eq!(mb.map.tiles[start], TileType::Floor);
    let d = bfs(&mb.map, start);
    let amulet = map_idx(mb.amulet_start.x, mb.amulet_start.y);
    let best = d[amulet].expect("amulet reachable");
    assert!(d.iter().flatten().all(|v| *v <= best));
    for s in &mb.monster_spawns {
        assert_eq!(mb.map.tiles[map_idx(s.x, s.y)], TileType::Floor);
    }
}

#[test]
fn room_architect_places_disjoint_rooms() {
    for seed in 0..4 {
        let mut rng = RandomNumberGenerator::seeded(seed);
        let mut a = RoomArchitect {};
        let mb = a.new(&mut rng).unwrap();
        assert_eq!(mb.rooms.len(), NUM_ROOMS);
        for i in 0..mb.rooms.len() {
            for j in 0..mb.rooms.len() {
                if i != j {
                    assert!(!mb.rooms[i].intersect(&mb.rooms[j]));
                }
            }
        }
        check_valid(&mb);
    }
}

#[test]
fn room_architect_starts_in_the_first_room() {
    let mut rng = RandomNumberGenerator::seeded(11);
    let mut a = RoomArchitect {};
    let mb = a.new(&mut rng).unwrap();
    assert_eq!(mb.player_start, mb.rooms[0].center());
    assert_eq!(mb.monster_spawns.len(), mb.rooms.len() - 1);
    for (k, s) in mb.monster_spawns.iter().enumerate() {
        assert_eq!(*s, mb.rooms[k + 1].center());
    }
}

#[test]
fn room_architect_connects_every_room() {
    let mut rng = RandomNumberGenerator::seeded(5);
    let mut a = RoomArchitect {};
    let mb = a.new(&mut rng).unwrap();
    let start = map_idx(mb.player_start.x, mb.player_start.y);
    let d = bfs(&mb.map, start);
    for r in &mb.rooms {
        let c = r.center();
        assert!(d[map_idx(c.x, c.y)].is_some());
    }
}

#[test]
fn empty_architect_opens_the_whole_grid() {
    let mut rng = RandomNumberGenerator::seeded(1);
    let mut a = EmptyArchitect {};
    let mb = a.new(&mut rng);
    assert_eq!(mb.monster_spawns.len(), 50);
    assert_eq!(mb.player_start, Point::new(SCREEN_WIDTH / 2, SCREEN_HEIGHT / 2));
    assert!(mb.map.tiles.iter().all(|t| *t == TileType::Floor));
    assert_eq!(mb.amulet_start, Point::new(0, 49));
    assert!(mb.rooms.is_empty());
    for s in &mb.monster_spawns {
        assert!(s.x >= 1 && s.x < SCREEN_WIDTH && s.y >= 1 && s.y < SCREEN_HEIGHT);
    }
}

#[test]
fn cellular_automata_leaves_one_connected_cave() {
    for seed in 0..3 {
        let mut rng = RandomNumberGenerator::seeded(seed);
        let mut a = CellularAutomataArchitect {};
        match a.new(&mut rng) {
            Ok(mb) => {
                let start = map_idx(mb.player_start.x, mb.player_start.y);
                let d = bfs(&mb.map, start);
                for i in 0..NUM_TILES {
                    if mb.map.tiles[i] == TileType::Floor {
                        assert!(d[i].is_some());
                    }
                }
                assert_eq!(mb.monster_spawns.len(), NUM_MONSTERS);
                for s in &mb.monster_spawns {
                    assert!(distance_squared(mb.player_start, *s) > 100);
                }
                check_valid(&mb);
            }
            Err(e) => assert!(e == GenError::NoFloor || e == GenError::SpawnPoolExhausted),
        }
    }
}

#[test]
fn drunkards_walk_digs_from_the_centre() {
    let mut rng = RandomNumberGenerator::seeded(2);
    let mut a = DrunkardsWalkArchitect {};
    let mb = a.new(&mut rng).unwrap();
    assert_eq!(mb.player_start, Point::new(40, 25));
    let d = bfs(&mb.map, map_idx(40, 25));
    for i in 0..NUM_TILES {
        if mb.map.tiles[i] == TileType::Floor {
            assert!(d[i].is_some());
        }
    }
    assert_eq!(mb.monster_spawns.len(), NUM_MONSTERS);
    check_valid(&mb);
}

#[test]
fn strategy_draw_selects_each_architect() {
    assert_eq!(ArchitectKind::from_draw(0), ArchitectKind::CellularAutomata);
    assert_eq!(ArchitectKind::from_draw(1), ArchitectKind::Rooms);
    assert_eq!(ArchitectKind::from_draw(2), ArchitectKind::Empty);
    assert_eq!(ArchitectKind::from_draw(3), ArchitectKind::DrunkardsWalk);
}

#[test]
fn map_builder_produces_valid_levels() {
    for seed in 0..6 {
        let mut rng = RandomNumberGenerator::seeded(seed);
        if let Ok(mb) = MapBuilder::new(&mut rng) {
            check_valid(&mb);
        }
    }
    let mut rng = RandomNumberGenerator::seeded(9);
    let mb = MapBuilder::build(ArchitectKind::Empty, &mut rng).unwrap();
    check_valid(&mb);
}

#[test]
fn corridors_join_rooms_in_column_order() {
    for seed in 0..8 {
        let mut mb = MapBuilder::blank();
        let a = Rect::with_size(9, 9, 3, 3);
        let b = Rect::with_size(49, 39, 3, 3);
        let c = Rect::with_size(29, 9, 3, 3);
        mb.rooms = vec![a, b, c];
        let mut rng = RandomNumberGenerator::seeded(seed);
        mb.build_corridors(&mut rng);
        assert_eq!(mb.rooms, vec![a, b, c]);
        // a (10, 10) joins c (30, 10) along row 10, and c joins b (50, 40).
        for x in 10..=30 {
            assert_eq!(mb.map.tiles[idx(x, 10)], TileType::Floor);
        }
        // a is never joined to b directly.
        assert_eq!(mb.map.tiles[idx(10, 25)], TileType::Wall);
        assert_eq!(mb.map.tiles[idx(20, 40)], TileType::Wall);
        let d = bfs(&mb.map, idx(10, 10));
        assert!(d[idx(50, 40)].is_some());
    }
}

#[test]
fn placing_a_room_keeps_it_only_when_it_fits() {
    let mut mb = MapBuilder::blank();
    let a = Rect::with_size(2, 2, 3, 3);
    assert!(mb.try_place_room(&a));
    assert_eq!(mb.rooms, vec![a]);
    let floors = mb.map.tiles.iter().filter(|t| **t == TileType::Floor).count();
    assert_eq!(floors, 9);
    assert_eq!(mb.map.tiles[idx(4, 4)], TileType::Floor);
    assert_eq!(mb.map.tiles[idx(5, 4)], TileType::Wall);
    let overlapping = Rect::with_size(4, 4, 3, 3);
    assert!(!mb.try_place_room(&overlapping));
    assert_eq!(mb.rooms, vec![a]);
    assert_eq!(mb.map.tiles[idx(6, 6)], TileType::Wall);
    let touching = Rect::with_size(5, 2, 2, 2);
    assert!(mb.try_place_room(&touching));
    assert_eq!(mb.rooms.len(), 2);
    let border = Rect::with_size(0, 0, 2, 2);
    assert!(mb.try_place_room(&border));
    assert_eq!(mb.map.tiles[idx(0, 0)], TileType::Wall);
    assert_eq!(mb.map.tiles[idx(1, 1)], TileType::Floor);
}

#[test]
fn random_rooms_are_drawn_in_range_and_only_they_are_carved() {
    let mut mb = MapBuilder::blank();
    let mut rng = RandomNumberGenerator::seeded(4);
    assert_eq!(mb.build_random_rooms(&mut rng), Ok(()));
    assert_eq!(mb.rooms.len(), NUM_ROOMS);
    for r in &mb.rooms {
        assert!(1 <= r.x1 && r.x1 < SCREEN_WIDTH - 10 && 1 <= r.y1 && r.y1 < SCREEN_HEIGHT - 10);
        assert!((2..10).contains(&(r.x2 - r.x1)) && (2..10).contains(&(r.y2 - r.y1)));
    }
    for i in 0..NUM_TILES {
        let p = mb.map.index_to_point2d(i);
        let inside = mb.rooms.iter().any(|r| r.x1 <= p.x && p.x < r.x2 && r.y1 <= p.y && p.y < r.y2);
        assert_eq!(mb.map.tiles[i] == TileType::Floor, inside);
    }
}

#[test]
fn noise_tiles_follow_the_roll() {
    assert_eq!(CellularAutomataArchitect::noise_tile(1), TileType::Wall);
    assert_eq!(CellularAutomataArchitect::noise_tile(55), TileType::Wall);
    assert_eq!(CellularAutomataArchitect::noise_tile(56), TileType::Floor);
    assert_eq!(CellularAutomataArchitect::noise_tile(100), TileType::Floor);
}

#[test]
fn cave_from_walls_has_no_floor() {
    let mut a = CellularAutomataArchitect {};
    let mut rng = RandomNumberGenerator::seeded(1);
    assert_eq!(a.from_noise(GridMap::new(), &mut rng).err(), Some(GenError::NoFloor));
}

#[test]
fn cave_from_noise_starts_near_the_centre_and_prunes_unreachable_floor() {
    for seed in 0..3 {
        let mut a = CellularAutomataArchitect {};
        let mut rng = RandomNumberGenerator::seeded(seed);
        let mut noise = GridMap::new();
        a.random_noise_map(&mut rng, &mut noise);
        let mut smooth = GridMap { tiles: noise.tiles.clone() };
        for _ in 0..10 {
            a.iteration(&mut smooth);
        }
        let start = a.find_start(&smooth);
        let d = bfs(&smooth, map_idx(start.x, start.y));
        match a.from_noise(noise, &mut rng) {
            Ok(mb) => {
                assert_eq!(mb.player_start, start);
                for i in 0..NUM_TILES {
                    let kept = smooth.tiles[i] == TileType::Floor && d[i].is_some();
                    assert_eq!(mb.map.tiles[i] == TileType::Floor, kept);
                }
            }
            Err(e) => assert_eq!(e, GenError::SpawnPoolExhausted),
        }
    }
}

#[test]
fn settling_a_small_cave_runs_out_of_spawns() {
    let mut mb = MapBuilder::blank();
    mb.apply_horizontal_tunnel(0, 79, 0);
    mb.apply_horizontal_tunnel(0, 79, 10);
    let mut rng = RandomNumberGenerator::seeded(8);
    let settled = MapBuilder::settle_cave(GridMap { tiles: mb.map.tiles.clone() }, Point::new(40, 0), &mut rng);
    // Row 10 is cut off and walled; row 0 alone holds 59 eligible tiles.
    let level = settled.unwrap();
    assert!(level.map.tiles[idx(5, 10)] == TileType::Wall);
    assert_eq!(level.monster_spawns.len(), NUM_MONSTERS);
    let mut short = MapBuilder::blank();
    short.apply_horizontal_tunnel(0, 60, 0);
    short.apply_horizontal_tunnel(0, 79, 10);
    let settled = MapBuilder::settle_cave(GridMap { tiles: short.map.tiles.clone() }, Point::new(40, 0), &mut rng);
    assert_eq!(settled.err(), Some(GenError::SpawnPoolExhausted));
}

#[test]
fn noise_follows_the_rolls() {
    let rolls: Vec<i32> = (0..NUM_TILES).map(|k| (k % 100) as i32 + 1).collect();
    let map = CellularAutomataArchitect::noise_from_rolls(&rolls);
    for k in 0..NUM_TILES {
        let want = if rolls[k] > 55 { TileType::Floor } else { TileType::Wall };
        assert_eq!(map.tiles[k], want);
    }
    assert_eq!(map.tiles.iter().filter(|t| **t == TileType::Floor).count(), 45 * 40);
}

#[test]
fn joining_rooms_carves_one_l_shape() {
    let mut h = MapBuilder::blank();
    h.join_rooms(Point::new(2, 2), Point::new(6, 8), true);
    assert_eq!(h.map.tiles[idx(4, 2)], TileType::Floor);
    assert_eq!(h.map.tiles[idx(6, 5)], TileType::Floor);
    assert_eq!(h.map.tiles[idx(2, 5)], TileType::Wall);
    assert_eq!(h.map.tiles[idx(4, 8)], TileType::Wall);
    assert_eq!(h.map.tiles.iter().filter(|t| **t == TileType::Floor).count(), 5 + 6);
    let mut v = MapBuilder::blank();
    v.join_rooms(Point::new(2, 2), Point::new(6, 8), false);
    assert_eq!(v.map.tiles[idx(2, 5)], TileType::Floor);
    assert_eq!(v.map.tiles[idx(4, 8)], TileType::Floor);
    assert_eq!(v.map.tiles[idx(4, 2)], TileType::Wall);
    assert_eq!(v.map.tiles[idx(6, 5)], TileType::Wall);
}

#[test]
fn rect_bounds_reach_far_coordinates() {
    let r = Rect::with_size(-10, -4, 30, 10);
    assert_eq!(r.center(), Point::new(5, 1));
    assert_eq!(distance_squared(Point::new(-2_000_000_000, 0), Point::new(2_000_000_000, 0)), 16_000_000_000_000_000_000);
}
