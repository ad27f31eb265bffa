//! Level layouts and the services shared by the generation strategies.
use vstd::prelude::*;
use crate::distance::{dijkstra_map, is_distance_field, lemma_field_unique, reached, UNREACHABLE};
use crate::geometry::{dist_sq, distance_squared, Point, Rect};
use crate::map::{
    col, height, idx_of, lemma_col_row, lemma_idx_of, map_idx, point_idx, point_in_bounds, row,
    valid_idx, width, GridMap, TileType,
};
use crate::rng::{rng_range, rng_slice_index};
use crate::{NUM_TILES, SCREEN_HEIGHT, SCREEN_WIDTH};
use bracket_lib::prelude::RandomNumberGenerator;

verus! {

/// Rooms a room-based layout places.
pub const NUM_ROOMS: usize = 20;

/// Monsters a layout places.
pub const NUM_MONSTERS: usize = 50;

/// Step cut-off of the distance fields used while generating.
pub const SEARCH_RADIUS: u32 = 1024;

/// Distance beyond which a tile counts as cut off from the start.
pub const PRUNE_DISTANCE: u32 = 2000;

/// Squared straight-line distance that a monster spawn must exceed from the start.
pub const SPAWN_MIN_DIST_SQ: i64 = 100;

/// Why a level could not be generated.
#[derive(Clone, Copy, Debug, PartialEq, Eq, Structural)]
pub enum GenError {
    /// No floor tile to start from.
    NoFloor,
    /// Fewer eligible spawn tiles than monsters to place.
    SpawnPoolExhausted,
    /// The room budget ran out before enough rooms fitted.
    RoomPlacement,
}

/// The point of an index.
pub open spec fn point_of(i: int) -> Point {
    Point { x: col(i) as i32, y: row(i) as i32 }
}

/// The field from `start` exists, and in it `p` is a reached tile that no reached tile
/// exceeds, the last such tile in index order.
pub open spec fn is_farthest(tiles: Seq<TileType>, start: Point, p: Point) -> bool {
    &&& exists|d: Seq<u32>| #[trigger] is_distance_field(tiles, seq![point_idx(start) as usize], SEARCH_RADIUS, d)
    &&& forall|d: Seq<u32>|
        #[trigger] is_distance_field(tiles, seq![point_idx(start) as usize], SEARCH_RADIUS, d)
            ==> {
            &&& reached(d, point_idx(p))
            &&& forall|i: int| valid_idx(i) && reached(d, i) ==> d[i] <= d[point_idx(p)]
            &&& forall|i: int| point_idx(p) < i < NUM_TILES && reached(d, i) ==> d[i] < d[point_idx(p)]
        }
}

/// A tile that may hold a monster: floor, and more than the spawn distance from `start`.
pub open spec fn spawn_candidate(tiles: Seq<TileType>, start: Point, i: int) -> bool {
    valid_idx(i) && tiles[i] == TileType::Floor && dist_sq(start, point_of(i)) > SPAWN_MIN_DIST_SQ
}

/// The spawn candidates among the first `n` tiles, in index order.
pub open spec fn spawn_pool(tiles: Seq<TileType>, start: Point, n: int) -> Seq<Point>
    decreases n,
{
    if n <= 0 {
        Seq::empty()
    } else if spawn_candidate(tiles, start, n - 1) {
        spawn_pool(tiles, start, n - 1).push(point_of(n - 1))
    } else {
        spawn_pool(tiles, start, n - 1)
    }
}

proof fn lemma_spawn_pool(tiles: Seq<TileType>, start: Point, n: int)
    requires
        0 <= n <= NUM_TILES,
    ensures
        spawn_pool(tiles, start, n).no_duplicates(),
        spawn_pool(tiles, start, n).len() <= n,
        forall|k: int|
            0 <= k < spawn_pool(tiles, start, n).len() ==> {
                let p = #[trigger] spawn_pool(tiles, start, n)[k];
                &&& point_in_bounds(p)
                &&& point_idx(p) < n
                &&& p == point_of(point_idx(p))
                &&& spawn_candidate(tiles, start, point_idx(p))
            },
    decreases n,
{
    if n > 0 {
        lemma_spawn_pool(tiles, start, n - 1);
        lemma_col_row(n - 1);
    }
}

/// Room draws allowed before room placement gives up.
pub const MAX_ROOM_ATTEMPTS: u32 = 100000;

/// A room strictly inside the grid's border.
pub open spec fn room_in_grid(r: Rect) -> bool {
    &&& 1 <= r.x1 < r.x2 <= width() - 1
    &&& 1 <= r.y1 < r.y2 <= height() - 1
}

pub open spec fn rooms_in_grid(rooms: Seq<Rect>) -> bool {
    forall|k: int| 0 <= k < rooms.len() ==> room_in_grid(#[trigger] rooms[k])
}

/// No two rooms of the list intersect.
pub open spec fn rooms_disjoint(rooms: Seq<Rect>) -> bool {
    forall|a: int, b: int|
        0 <= a < rooms.len() && 0 <= b < rooms.len() && a != b ==> !(#[trigger] rooms[a]).spec_intersect(
            #[trigger] rooms[b],
        )
}

/// Every cell of every room is floor.
pub open spec fn rooms_carved(tiles: Seq<TileType>, rooms: Seq<Rect>) -> bool {
    forall|k: int, x: int, y: int|
        0 <= k < rooms.len() && #[trigger] rooms[k].contains(x, y) ==> tiles[idx_of(x, y)]
            == TileType::Floor
}

/// Floor stays floor.
pub open spec fn floors_kept(before: Seq<TileType>, after: Seq<TileType>) -> bool {
    &&& before.len() == after.len()
    &&& forall|i: int| 0 <= i < before.len() && before[i] == TileType::Floor ==> #[trigger] after[i] == TileType::Floor
}

pub open spec fn on_hline(i: int, x1: int, x2: int, y: int) -> bool {
    row(i) == y && ((x1 <= col(i) <= x2) || (x2 <= col(i) <= x1))
}

pub open spec fn on_vline(i: int, y1: int, y2: int, x: int) -> bool {
    col(i) == x && ((y1 <= row(i) <= y2) || (y2 <= row(i) <= y1))
}

/// Every in-grid cell of the L-shaped path from `a` along row `a.y` to column `b.x`,
/// then along that column to `b`, is floor.
pub open spec fn carved_h_then_v(tiles: Seq<TileType>, a: Point, b: Point) -> bool {
    forall|i: int|
        valid_idx(i) && (on_hline(i, a.x as int, b.x as int, a.y as int) || on_vline(
            i,
            a.y as int,
            b.y as int,
            b.x as int,
        )) ==> #[trigger] tiles[i] == TileType::Floor
}

/// Every in-grid cell of the L-shaped path from `a` along column `a.x` to row `b.y`,
/// then along that row to `b`, is floor.
pub open spec fn carved_v_then_h(tiles: Seq<TileType>, a: Point, b: Point) -> bool {
    forall|i: int|
        valid_idx(i) && (on_vline(i, a.y as int, b.y as int, a.x as int) || on_hline(
            i,
            a.x as int,
            b.x as int,
            b.y as int,
        )) ==> #[trigger] tiles[i] == TileType::Floor
}

pub open spec fn corridor_carved(tiles: Seq<TileType>, a: Point, b: Point) -> bool {
    carved_h_then_v(tiles, a, b) || carved_v_then_h(tiles, a, b)
}

/// Each room of `sorted` is joined to the one before it by a carved corridor between
/// their centres.
pub open spec fn corridors_join(tiles: Seq<TileType>, sorted: Seq<Rect>) -> bool {
    forall|k: int|
        1 <= k < sorted.len() ==> corridor_carved(
            tiles,
            sorted[k - 1].spec_center(),
            (#[trigger] sorted[k]).spec_center(),
        )
}

/// Cell `i` lies on the L-shaped path from `a` to `b`: along row `a.y` then column `b.x`
/// when `horizontal_first`, else along column `a.x` then row `b.y`.
pub open spec fn l_cell(a: Point, b: Point, horizontal_first: bool, i: int) -> bool {
    if horizontal_first {
        on_hline(i, a.x as int, b.x as int, a.y as int) || on_vline(i, a.y as int, b.y as int, b.x as int)
    } else {
        on_vline(i, a.y as int, b.y as int, a.x as int) || on_hline(i, a.x as int, b.x as int, b.y as int)
    }
}

/// `tiles` with the in-grid cells of one L-shaped path turned to floor.
pub open spec fn with_corridor(tiles: Seq<TileType>, a: Point, b: Point, horizontal_first: bool) -> Seq<TileType> {
    Seq::new(
        tiles.len(),
        |i: int|
            if l_cell(a, b, horizontal_first, i) {
                TileType::Floor
            } else {
                tiles[i]
            },
    )
}

/// `tiles` after the first `n` corridors of `sorted`: corridor `k` (from 1) joins the
/// centres of rooms `k - 1` and `k`, with the leg order of `coins[k - 1]`.
pub open spec fn with_corridors(tiles: Seq<TileType>, sorted: Seq<Rect>, coins: Seq<bool>, n: int) -> Seq<TileType>
    decreases n,
{
    if n <= 0 {
        tiles
    } else {
        with_corridor(
            with_corridors(tiles, sorted, coins, n - 1),
            sorted[n - 1].spec_center(),
            sorted[n].spec_center(),
            coins[n - 1],
        )
    }
}

proof fn lemma_with_corridors_prefix(
    tiles: Seq<TileType>,
    sorted: Seq<Rect>,
    c1: Seq<bool>,
    c2: Seq<bool>,
    n: int,
)
    requires
        forall|k: int| 0 <= k < n ==> c1[k] == c2[k],
    ensures
        with_corridors(tiles, sorted, c1, n) == with_corridors(tiles, sorted, c2, n),
    decreases n,
{
    if n > 0 {
        lemma_with_corridors_prefix(tiles, sorted, c1, c2, n - 1);
    }
}

/// The rooms as `slice::sort_by_key` leaves them when keyed by their centres' columns.
pub uninterp spec fn stable_sorted_by_center_x(rooms: Seq<Rect>) -> Seq<Rect>;

/// A room as drawn: its corner in `[1, W - 10) x [1, H - 10)`, each side from 2 to 9.
pub open spec fn room_drawn(r: Rect) -> bool {
    &&& 1 <= r.x1 < width() - 10
    &&& 1 <= r.y1 < height() - 10
    &&& 2 <= r.x2 - r.x1 < 10
    &&& 2 <= r.y2 - r.y1 < 10
}

/// Cell `i` is carved by one of the rooms of `rooms` from position `from` on.
pub open spec fn carved_by_any(rooms: Seq<Rect>, from: int, i: int) -> bool {
    exists|k: int| from <= k < rooms.len() && #[trigger] carved_by(rooms[k], i)
}

/// A cell that carving `room` turns to floor: inside it and off the top and left border.
pub open spec fn carved_by(room: Rect, i: int) -> bool {
    room.contains(col(i), row(i)) && col(i) > 0 && row(i) > 0
}

/// Relies on `slice::sort_by_key`, a stable sort: the result depends on the rooms alone,
/// holds the same rooms, and orders them by the column of their centres.
#[verifier::external_body]
fn sort_by_center_x(rooms: &mut Vec<Rect>)
    requires
        forall|k: int|
            0 <= k < old(rooms)@.len() ==> (#[trigger] old(rooms)@[k]).wf() && old(rooms)@[k].center_fits(),
    ensures
        final(rooms)@ == stable_sorted_by_center_x(old(rooms)@),
        final(rooms)@.to_multiset() == old(rooms)@.to_multiset(),
        forall|a: int, b: int|
            0 <= a < b < final(rooms)@.len() ==> (#[trigger] final(rooms)@[a]).spec_center().x
                <= (#[trigger] final(rooms)@[b]).spec_center().x,
{
    rooms.sort_by_key(|r| r.center().x);
}

/// `tiles` with every tile that the field `d` leaves unreached turned to wall.
pub open spec fn pruned_with(tiles: Seq<TileType>, d: Seq<u32>) -> Seq<TileType> {
    Seq::new(
        NUM_TILES as nat,
        |i: int|
            if reached(d, i) {
                tiles[i]
            } else {
                TileType::Wall
            },
    )
}

/// Every floor tile is reached by the distance field from `start`.
pub open spec fn connected_from(tiles: Seq<TileType>, start: Point) -> bool {
    forall|d: Seq<u32>|
        #[trigger] is_distance_field(tiles, seq![point_idx(start) as usize], SEARCH_RADIUS, d)
            ==> forall|i: int| valid_idx(i) && tiles[i] == TileType::Floor ==> reached(d, i)
}

/// Turning to wall every tile that the field from `start` does not reach leaves a
/// grid whose floor is all reachable from `start`.
pub proof fn lemma_pruned_connected(
    tiles: Seq<TileType>,
    start: Point,
    d: Seq<u32>,
    pruned: Seq<TileType>,
)
    requires
        is_distance_field(tiles, seq![point_idx(start) as usize], SEARCH_RADIUS, d),
        pruned.len() == NUM_TILES,
        forall|i: int|
            0 <= i < NUM_TILES ==> #[trigger] pruned[i] == if reached(d, i) {
                tiles[i]
            } else {
                TileType::Wall
            },
    ensures
        connected_from(pruned, start),
{
    assert forall|d2: Seq<u32>|
        #[trigger] is_distance_field(
            pruned,
            seq![point_idx(start) as usize],
            SEARCH_RADIUS,
            d2,
        ) implies forall|i: int| valid_idx(i) && pruned[i] == TileType::Floor ==> reached(d2, i) by {
        crate::distance::lemma_field_le(
            tiles,
            pruned,
            seq![point_idx(start) as usize],
            SEARCH_RADIUS,
            d,
            d2,
        );
        assert forall|i: int| valid_idx(i) && pruned[i] == TileType::Floor implies reached(d2, i) by {
            assert(reached(d, i));
        }
    }
}

/// The four generation strategies.
#[derive(Clone, Copy, Debug, PartialEq, Eq, Structural)]
pub enum ArchitectKind {
    CellularAutomata,
    Rooms,
    Empty,
    DrunkardsWalk,
}

impl ArchitectKind {
    /// The strategy a draw from `[0, 4)` selects; each draw selects a different one.
    pub fn from_draw(draw: i32) -> (k: ArchitectKind)
        ensures
            draw == 0 ==> k == ArchitectKind::CellularAutomata,
            draw == 1 ==> k == ArchitectKind::Rooms,
            draw == 2 ==> k == ArchitectKind::Empty,
            draw != 0 && draw != 1 && draw != 2 ==> k == ArchitectKind::DrunkardsWalk,
    {
        match draw {
            0 => ArchitectKind::CellularAutomata,
            1 => ArchitectKind::Rooms,
            2 => ArchitectKind::Empty,
            _ => ArchitectKind::DrunkardsWalk,
        }
    }
}

/// Every draw fits what is left of a pool of `n` tiles: the `k`-th is below `n - k`.
pub open spec fn picks_fit(n: int, picks: Seq<usize>) -> bool {
    forall|k: int| 0 <= k < picks.len() ==> #[trigger] picks[k] < n - k
}

/// The tiles that the draws `picks` take from `pool`, each from what the earlier ones left.
pub open spec fn picked(pool: Seq<Point>, picks: Seq<usize>) -> Seq<Point>
    decreases picks.len(),
{
    if picks.len() == 0 {
        Seq::empty()
    } else {
        seq![pool[picks[0] as int]] + picked(pool.remove(picks[0] as int), picks.drop_first())
    }
}

/// What is left of `pool` after the draws `picks`.
pub open spec fn left_after(pool: Seq<Point>, picks: Seq<usize>) -> Seq<Point>
    decreases picks.len(),
{
    if picks.len() == 0 {
        pool
    } else {
        left_after(pool.remove(picks[0] as int), picks.drop_first())
    }
}

proof fn lemma_pick_more(pool: Seq<Point>, picks: Seq<usize>, t: usize)
    requires
        picks_fit(pool.len() as int, picks),
        t < pool.len() - picks.len(),
    ensures
        picks_fit(pool.len() as int, picks.push(t)),
        left_after(pool, picks).len() == pool.len() - picks.len(),
        left_after(pool, picks.push(t)) == left_after(pool, picks).remove(t as int),
        picked(pool, picks.push(t)) == picked(pool, picks).push(left_after(pool, picks)[t as int]),
    decreases picks.len(),
{
    if picks.len() == 0 {
        let s = picks.push(t);
        assert(s.drop_first() =~= Seq::<usize>::empty());
        assert(s[0] == t);
        assert(picked(pool.remove(t as int), s.drop_first()) == Seq::<Point>::empty());
        assert(left_after(pool.remove(t as int), s.drop_first()) == pool.remove(t as int));
        assert(picked(pool, picks) == Seq::<Point>::empty());
        assert(left_after(pool, picks) == pool);
        assert(picked(pool, s) =~= seq![pool[t as int]]);
    } else {
        let first = picks[0];
        let rest = picks.drop_first();
        assert(picks.push(t).drop_first() =~= rest.push(t));
        assert(picks.push(t)[0] == first);
        assert forall|k: int| 0 <= k < rest.len() implies #[trigger] rest[k] < (pool.len() - 1) - k by {
            assert(rest[k] == picks[k + 1]);
        }
        lemma_pick_more(pool.remove(first as int), rest, t);
        assert(picked(pool, picks.push(t)) =~= picked(pool, picks).push(
            left_after(pool, picks)[t as int],
        ));
    }
}

/// The draws take distinct tiles of a pool without duplicates.
pub proof fn lemma_picked_members(pool: Seq<Point>, picks: Seq<usize>)
    requires
        picks_fit(pool.len() as int, picks),
        pool.no_duplicates(),
    ensures
        picked(pool, picks).len() == picks.len(),
        picked(pool, picks).no_duplicates(),
        forall|k: int| 0 <= k < picks.len() ==> pool.contains(#[trigger] picked(pool, picks)[k]),
    decreases picks.len(),
{
    if picks.len() > 0 {
        let first = picks[0] as int;
        let rest = picks.drop_first();
        let smaller = pool.remove(first);
        assert forall|k: int| 0 <= k < rest.len() implies #[trigger] rest[k] < smaller.len() - k by {
            assert(rest[k] == picks[k + 1]);
        }
        assert forall|a: int, b: int| 0 <= a < b < smaller.len() implies smaller[a] != smaller[b] by {
            let a2 = if a < first { a } else { a + 1 };
            let b2 = if b < first { b } else { b + 1 };
            assert(pool[a2] != pool[b2]);
        }
        lemma_picked_members(smaller, rest);
        let tail = picked(smaller, rest);
        let all = picked(pool, picks);
        assert(all =~= seq![pool[first]] + tail);
        assert forall|x: Point| #[trigger] smaller.contains(x) implies pool.contains(x) && x != pool[first] by {
            let k = choose|k: int| 0 <= k < smaller.len() && smaller[k] == x;
            let k2 = if k < first { k } else { k + 1 };
            assert(pool[k2] == x);
        }
        assert forall|k: int| 0 <= k < picks.len() implies pool.contains(#[trigger] all[k]) by {
            if k > 0 {
                assert(all[k] == tail[k - 1]);
                assert(smaller.contains(tail[k - 1]));
            }
        }
        assert forall|a: int, b: int| 0 <= a < b < all.len() implies all[a] != all[b] by {
            assert(all[b] == tail[b - 1]);
            assert(smaller.contains(tail[b - 1]));
            if a > 0 {
                assert(all[a] == tail[a - 1]);
            }
        }
    }
}

/// The tiles that the draws `picks` take from `pool`, each draw an index into what the
/// earlier draws left.
pub fn take_spawns(pool: Vec<Point>, picks: &Vec<usize>) -> (r: Vec<Point>)
    requires
        picks_fit(pool@.len() as int, picks@),
    ensures
        r@ == picked(pool@, picks@),
{
    let ghost full = pool@;
    let mut remaining = pool;
    let mut out: Vec<Point> = Vec::new();
    let mut k: usize = 0;
    while k < picks.len()
        invariant
            k <= picks@.len(),
            picks_fit(full.len() as int, picks@),
            remaining@ == left_after(full, picks@.take(k as int)),
            out@ == picked(full, picks@.take(k as int)),
        decreases picks@.len() - k,
    {
        let t = picks[k];
        proof {
            assert(picks_fit(full.len() as int, picks@.take(k as int)));
            lemma_pick_more(full, picks@.take(k as int), t);
            assert(picks@.take(k as int + 1) =~= picks@.take(k as int).push(t));
        }
        let p = remaining.remove(t);
        out.push(p);
        k = k + 1;
    }
    assert(picks@.take(picks@.len() as int) =~= picks@);
    out
}

pub struct MapBuilder {
    pub map: GridMap,
    pub rooms: Vec<Rect>,
    pub monster_spawns: Vec<Point>,
    pub player_start: Point,
    pub amulet_start: Point,
}

impl MapBuilder {
    /// A finished layout: the player starts on floor, the amulet lies on the farthest
    /// tile reachable from there, and every monster spawn is on floor.
    pub open spec fn valid(&self) -> bool {
        &&& self.map.wf()
        &&& point_in_bounds(self.player_start)
        &&& self.map.is_floor(point_idx(self.player_start))
        &&& point_in_bounds(self.amulet_start)
        &&& is_farthest(self.map.tiles@, self.player_start, self.amulet_start)
        &&& forall|k: int|
            0 <= k < self.monster_spawns@.len() ==> point_in_bounds(
                #[trigger] self.monster_spawns@[k],
            ) && self.map.is_floor(point_idx(self.monster_spawns@[k]))
    }

    /// A level from the strategy `kind`, with that strategy's guarantees.
    pub fn build(kind: ArchitectKind, rng: &mut RandomNumberGenerator) -> (r: Result<MapBuilder, GenError>)
        ensures
            Self::build_post(kind, r),
    {
        match kind {
            ArchitectKind::CellularAutomata => {
                let mut a = automatas::CellularAutomataArchitect {};
                a.new(rng)
            },
            ArchitectKind::Rooms => {
                let mut a = rooms::RoomArchitect {};
                a.new(rng)
            },
            ArchitectKind::Empty => {
                let mut a = empty::EmptyArchitect {};
                Ok(a.new(rng))
            },
            ArchitectKind::DrunkardsWalk => {
                let mut a = drunkard::DrunkardsWalkArchitect {};
                a.new(rng)
            },
        }
    }

    /// A level from a strategy drawn uniformly among the four, with the guarantees of
    /// the strategy drawn.
    pub fn new(rng: &mut RandomNumberGenerator) -> (r: Result<MapBuilder, GenError>)
        ensures
            exists|kind: ArchitectKind| #[trigger] Self::build_post(kind, r),
    {
        let method_seed = rng_range(rng, 0, 4);
        let kind = ArchitectKind::from_draw(method_seed);
        let r = MapBuilder::build(kind, rng);
        assert(Self::build_post(kind, r));
        r
    }

    /// What `build` promises for `kind`.
    pub open spec fn build_post(kind: ArchitectKind, r: Result<MapBuilder, GenError>) -> bool {
        &&& r is Ok ==> r->Ok_0.valid()
        &&& kind == ArchitectKind::CellularAutomata ==> match r {
            Ok(mb) => mb.cave_level(mb.player_start),
            Err(e) => e == GenError::NoFloor || e == GenError::SpawnPoolExhausted,
        }
        &&& kind == ArchitectKind::Rooms ==> match r {
            Ok(mb) => mb.rooms_level(),
            Err(e) => e == GenError::RoomPlacement,
        }
        &&& kind == ArchitectKind::Empty ==> r is Ok && r->Ok_0.empty_level()
        &&& kind == ArchitectKind::DrunkardsWalk ==> match r {
            Ok(mb) => mb.cave_level(Point { x: 40, y: 25 }),
            Err(e) => e == GenError::SpawnPoolExhausted,
        }
    }

    /// A rooms level: `NUM_ROOMS` drawn, disjoint, carved rooms joined by corridors, the
    /// player at the centre of the first room and a monster at the centre of each other.
    pub open spec fn rooms_level(&self) -> bool {
        &&& self.valid()
        &&& self.rooms@.len() == NUM_ROOMS
        &&& rooms_in_grid(self.rooms@)
        &&& forall|k: int| 0 <= k < self.rooms@.len() ==> room_drawn(#[trigger] self.rooms@[k])
        &&& rooms_disjoint(self.rooms@)
        &&& rooms_carved(self.map.tiles@, self.rooms@)
        &&& corridors_join(self.map.tiles@, stable_sorted_by_center_x(self.rooms@))
        &&& self.player_start == self.rooms@[0].spec_center()
        &&& self.monster_spawns@.len() == self.rooms@.len() - 1
        &&& forall|k: int|
            0 <= k < self.monster_spawns@.len() ==> #[trigger] self.monster_spawns@[k]
                == self.rooms@[k + 1].spec_center()
    }

    /// An open level: every tile floor, the player at the centre, `NUM_MONSTERS` monsters
    /// on cells off the top and left border.
    pub open spec fn empty_level(&self) -> bool {
        &&& self.valid()
        &&& forall|i: int| 0 <= i < NUM_TILES ==> #[trigger] self.map.tiles@[i] == TileType::Floor
        &&& self.player_start.x == SCREEN_WIDTH / 2
        &&& self.player_start.y == SCREEN_HEIGHT / 2
        &&& self.rooms@.len() == 0
        &&& self.monster_spawns@.len() == NUM_MONSTERS
        &&& forall|k: int|
            0 <= k < self.monster_spawns@.len() ==> 1 <= (#[trigger] self.monster_spawns@[k]).x
                < SCREEN_WIDTH && 1 <= self.monster_spawns@[k].y < SCREEN_HEIGHT
    }

    /// A cave level settled around `start`: valid, every floor tile reachable from the
    /// player at `start`, no rooms, and `NUM_MONSTERS` distinct spawns from the spawn pool.
    pub open spec fn cave_level(&self, start: Point) -> bool {
        &&& self.valid()
        &&& self.player_start == start
        &&& connected_from(self.map.tiles@, start)
        &&& self.rooms@.len() == 0
        &&& self.monster_spawns@.len() == NUM_MONSTERS
        &&& self.monster_spawns@.no_duplicates()
        &&& forall|k: int|
            0 <= k < self.monster_spawns@.len() ==> spawn_pool(
                self.map.tiles@,
                start,
                NUM_TILES as int,
            ).contains(#[trigger] self.monster_spawns@[k])
    }

    /// Settles a dug cave around `start`: walls off what `start` cannot reach, draws the
    /// monsters from the spawn pool of `start` and puts the amulet on the farthest tile.
    /// Fails exactly when the pruned grid's spawn pool is too small.
    pub fn settle_cave(map: GridMap, start: Point, rng: &mut RandomNumberGenerator) -> (r: Result<MapBuilder, GenError>)
        requires
            map.wf(),
            point_in_bounds(start),
            map.is_floor(point_idx(start)),
        ensures
            forall|d: Seq<u32>|
                #[trigger] is_distance_field(map.tiles@, seq![point_idx(start) as usize], SEARCH_RADIUS, d)
                    ==> match r {
                    Ok(mb) => mb.map.tiles@ == pruned_with(map.tiles@, d) && spawn_pool(
                        pruned_with(map.tiles@, d),
                        start,
                        NUM_TILES as int,
                    ).len() >= NUM_MONSTERS,
                    Err(e) => e == GenError::SpawnPoolExhausted && spawn_pool(
                        pruned_with(map.tiles@, d),
                        start,
                        NUM_TILES as int,
                    ).len() < NUM_MONSTERS,
                },
            r is Ok ==> r->Ok_0.cave_level(start),
            r is Err ==> r->Err_0 == GenError::SpawnPoolExhausted,
    {
        let ghost dug = map.tiles@;
        let mut mb = MapBuilder {
            map,
            rooms: Vec::new(),
            monster_spawns: Vec::new(),
            player_start: start,
            amulet_start: start,
        };
        mb.prune_unreachable(start);
        let pool = mb.spawn_candidates(&start);
        if pool.len() < NUM_MONSTERS {
            return Err(GenError::SpawnPoolExhausted);
        }
        let spawns = mb.spawn_monster(&start, rng);
        mb.monster_spawns = spawns;
        mb.amulet_start = mb.find_most_distant();
        Ok(mb)
    }

    /// An empty layout on a grid of walls.
    pub fn blank() -> (mb: MapBuilder)
        ensures
            mb.map.wf(),
            forall|i: int| 0 <= i < mb.map.tiles@.len() ==> mb.map.tiles@[i] == TileType::Wall,
            mb.rooms@.len() == 0,
            mb.monster_spawns@.len() == 0,
            mb.player_start == (Point { x: 0, y: 0 }),
            mb.amulet_start == (Point { x: 0, y: 0 }),
    {
        MapBuilder {
            map: GridMap::new(),
            rooms: Vec::new(),
            monster_spawns: Vec::new(),
            player_start: Point::zero(),
            amulet_start: Point::zero(),
        }
    }

    /// Sets every tile to `tile`.
    pub fn fill(&mut self, tile: TileType)
        requires
            old(self).map.wf(),
        ensures
            final(self).map.wf(),
            forall|i: int| 0 <= i < NUM_TILES ==> final(self).map.tiles@[i] == tile,
            final(self).rooms == old(self).rooms,
            final(self).monster_spawns == old(self).monster_spawns,
            final(self).player_start == old(self).player_start,
            final(self).amulet_start == old(self).amulet_start,
    {
        let mut i: usize = 0;
        while i < NUM_TILES
            invariant
                i <= NUM_TILES,
                self.map.wf(),
                forall|q: int| 0 <= q < i ==> self.map.tiles@[q] == tile,
                self.rooms == old(self).rooms,
                self.monster_spawns == old(self).monster_spawns,
                self.player_start == old(self).player_start,
                self.amulet_start == old(self).amulet_start,
            decreases NUM_TILES - i,
        {
            self.map.tiles.set(i, tile);
            i = i + 1;
        }
    }

    /// The reachable tile farthest in steps from the player's start (the last in
    /// index order among equals).
    pub fn find_most_distant(&self) -> (p: Point)
        requires
            self.map.wf(),
            point_in_bounds(self.player_start),
        ensures
            point_in_bounds(p),
            is_farthest(self.map.tiles@, self.player_start, p),
    {
        let start = self.map.point2d_to_index(self.player_start);
        let sources: Vec<usize> = vec![start];
        assert(sources@ == seq![start]);
        let d = dijkstra_map(&self.map, &sources, SEARCH_RADIUS);
        assert(d@[start as int] == 0) by {
            assert(sources@[0] == start);
        }
        let mut best: usize = start;
        let mut i: usize = 0;
        while i < NUM_TILES
            invariant
                i <= NUM_TILES,
                d@.len() == NUM_TILES,
                valid_idx(best as int),
                reached(d@, best as int),
                forall|q: int| 0 <= q < i && reached(d@, q) ==> d@[q] <= d@[best as int],
                forall|q: int| best < q < i && reached(d@, q) ==> d@[q] < d@[best as int],
            decreases NUM_TILES - i,
        {
            if d[i] != UNREACHABLE && d[i] >= d[best] {
                best = i;
            }
            i = i + 1;
        }
        let p = self.map.index_to_point2d(best);
        assert forall|d2: Seq<u32>|
            #[trigger] is_distance_field(
                self.map.tiles@,
                seq![point_idx(self.player_start) as usize],
                SEARCH_RADIUS,
                d2,
            ) implies {
            &&& reached(d2, point_idx(p))
            &&& forall|q: int| valid_idx(q) && reached(d2, q) ==> d2[q] <= d2[point_idx(p)]
            &&& forall|q: int| point_idx(p) < q < NUM_TILES && reached(d2, q) ==> d2[q] < d2[point_idx(p)]
        } by {
            lemma_field_unique(self.map.tiles@, sources@, SEARCH_RADIUS, d@, d2);
        }
        assert(is_distance_field(self.map.tiles@, seq![point_idx(self.player_start) as usize], SEARCH_RADIUS, d@));
        p
    }

    /// The spawn pool of `start`: the floor tiles more than the spawn distance from it
    /// in a straight line, in index order.
    pub fn spawn_candidates(&self, start: &Point) -> (pool: Vec<Point>)
        requires
            self.map.wf(),
            point_in_bounds(*start),
        ensures
            pool@ == spawn_pool(self.map.tiles@, *start, NUM_TILES as int),
    {
        let mut pool: Vec<Point> = Vec::new();
        let mut i: usize = 0;
        while i < NUM_TILES
            invariant
                i <= NUM_TILES,
                self.map.wf(),
                point_in_bounds(*start),
                pool@ == spawn_pool(self.map.tiles@, *start, i as int),
            decreases NUM_TILES - i,
        {
            let p = self.map.index_to_point2d(i);
            if self.map.tiles[i] == TileType::Floor && distance_squared(*start, p)
                > SPAWN_MIN_DIST_SQ as i128 {
                pool.push(p);
            }
            i = i + 1;
        }
        pool
    }

    /// Draws `NUM_MONSTERS` tiles from the spawn pool of `start` without replacement:
    /// each draw is an index into what is left of the pool, and `take_spawns` turns the
    /// draws into tiles. The pool must hold at least `NUM_MONSTERS` tiles.
    pub fn spawn_monster(&self, start: &Point, rng: &mut RandomNumberGenerator) -> (r: Vec<Point>)
        requires
            self.map.wf(),
            point_in_bounds(*start),
            spawn_pool(self.map.tiles@, *start, NUM_TILES as int).len() >= NUM_MONSTERS,
        ensures
            exists|picks: Seq<usize>|
                #![trigger picked(spawn_pool(self.map.tiles@, *start, NUM_TILES as int), picks)]
                picks.len() == NUM_MONSTERS && picks_fit(
                    spawn_pool(self.map.tiles@, *start, NUM_TILES as int).len() as int,
                    picks,
                ) && r@ == picked(spawn_pool(self.map.tiles@, *start, NUM_TILES as int), picks),
            r@.len() == NUM_MONSTERS,
            r@.no_duplicates(),
            forall|k: int|
                0 <= k < r@.len() ==> spawn_pool(self.map.tiles@, *start, NUM_TILES as int).contains(
                    #[trigger] r@[k],
                ),
            forall|k: int|
                0 <= k < r@.len() ==> point_in_bounds(#[trigger] r@[k]) && self.map.is_floor(
                    point_idx(r@[k]),
                ) && dist_sq(*start, r@[k]) > SPAWN_MIN_DIST_SQ,
    {
        let pool = self.spawn_candidates(start);
        let ghost full = pool@;
        proof {
            lemma_spawn_pool(self.map.tiles@, *start, NUM_TILES as int);
        }
        let mut remaining: Vec<Point> = pool.clone();
        assert(remaining@ =~= full);
        let mut picks: Vec<usize> = Vec::new();
        let mut n: usize = 0;
        while n < NUM_MONSTERS
            invariant
                n <= NUM_MONSTERS,
                full == pool@,
                full.len() >= NUM_MONSTERS,
                full.len() <= NUM_TILES,
                picks@.len() == n,
                picks_fit(full.len() as int, picks@),
                remaining@ == left_after(full, picks@),
                remaining@.len() == full.len() - n,
            decreases NUM_MONSTERS - n,
        {
            let t: usize = match rng_slice_index(rng, &remaining) {
                Some(t) => t,
                None => {
                    assert(false);
                    0
                },
            };
            proof {
                lemma_pick_more(full, picks@, t);
            }
            picks.push(t);
            remaining.remove(t);
            n = n + 1;
        }
        proof {
            lemma_spawn_pool(self.map.tiles@, *start, NUM_TILES as int);
            lemma_picked_members(full, picks@);
        }
        let spawns = take_spawns(pool, &picks);
        assert forall|k: int| 0 <= k < spawns@.len() implies point_in_bounds(#[trigger] spawns@[k])
            && self.map.is_floor(point_idx(spawns@[k])) && dist_sq(*start, spawns@[k]) > SPAWN_MIN_DIST_SQ by {
            assert(full.contains(spawns@[k]));
            let j = choose|j: int| 0 <= j < full.len() && full[j] == spawns@[k];
            assert(full[j] == spawns@[k]);
        }
        spawns
    }

    /// Walls off every tile farther than `PRUNE_DISTANCE` steps from `start`, which,
    /// the search radius being shorter, is every tile the field from `start` leaves
    /// unreached.
    pub fn prune_unreachable(&mut self, start: Point)
        requires
            old(self).map.wf(),
            point_in_bounds(start),
        ensures
            final(self).map.wf(),
            connected_from(final(self).map.tiles@, start),
            forall|d: Seq<u32>|
                #[trigger] is_distance_field(
                    old(self).map.tiles@,
                    seq![point_idx(start) as usize],
                    SEARCH_RADIUS,
                    d,
                ) ==> final(self).map.tiles@ == pruned_with(old(self).map.tiles@, d),
            final(self).map.tiles@[point_idx(start)] == old(self).map.tiles@[point_idx(start)],
            forall|i: int|
                0 <= i < NUM_TILES && #[trigger] final(self).map.tiles@[i] == TileType::Floor
                    ==> old(self).map.tiles@[i] == TileType::Floor,
            final(self).rooms == old(self).rooms,
            final(self).monster_spawns == old(self).monster_spawns,
            final(self).player_start == old(self).player_start,
            final(self).amulet_start == old(self).amulet_start,
    {
        let sources: Vec<usize> = vec![self.map.point2d_to_index(start)];
        assert(sources@ == seq![point_idx(start) as usize]);
        let dijkstra = dijkstra_map(&self.map, &sources, SEARCH_RADIUS);
        let ghost before = self.map.tiles@;
        let mut i: usize = 0;
        while i < NUM_TILES
            invariant
                i <= NUM_TILES,
                self.map.wf(),
                dijkstra@.len() == NUM_TILES,
                forall|q: int| 0 <= q < NUM_TILES && reached(dijkstra@, q) ==> dijkstra@[q] <= SEARCH_RADIUS,
                forall|q: int|
                    0 <= q < NUM_TILES ==> #[trigger] self.map.tiles@[q] == if q < i && !reached(dijkstra@, q) {
                        TileType::Wall
                    } else {
                        before[q]
                    },
                self.rooms == old(self).rooms,
                self.monster_spawns == old(self).monster_spawns,
                self.player_start == old(self).player_start,
                self.amulet_start == old(self).amulet_start,
            decreases NUM_TILES - i,
        {
            if dijkstra[i] > PRUNE_DISTANCE {
                self.map.tiles.set(i, TileType::Wall);
            }
            i = i + 1;
        }
        proof {
            assert(dijkstra@[point_idx(start)] == 0) by {
                assert(sources@[0] as int == point_idx(start));
            }
            lemma_pruned_connected(before, start, dijkstra@, self.map.tiles@);
            assert(self.map.tiles@ =~= pruned_with(before, dijkstra@));
            assert forall|d: Seq<u32>|
                #[trigger] is_distance_field(
                    before,
                    seq![point_idx(start) as usize],
                    SEARCH_RADIUS,
                    d,
                ) implies self.map.tiles@ == pruned_with(before, d) by {
                lemma_field_unique(before, sources@, SEARCH_RADIUS, dijkstra@, d);
            }
        }
    }

    /// Turns to floor the cells of row `y` from `x1` to `x2`, skipping those off the grid.
    pub fn apply_horizontal_tunnel(&mut self, x1: i32, x2: i32, y: i32)
        requires
            old(self).map.wf(),
        ensures
            final(self).map.wf(),
            forall|i: int|
                0 <= i < NUM_TILES ==> #[trigger] final(self).map.tiles@[i] == if on_hline(
                    i,
                    x1 as int,
                    x2 as int,
                    y as int,
                ) {
                    TileType::Floor
                } else {
                    old(self).map.tiles@[i]
                },
            final(self).rooms == old(self).rooms,
            final(self).monster_spawns == old(self).monster_spawns,
            final(self).player_start == old(self).player_start,
            final(self).amulet_start == old(self).amulet_start,
    {
        let low: i32 = if x1 < x2 { x1 } else { x2 };
        let high: i32 = if x1 < x2 { x2 } else { x1 };
        let lo: i32 = if low < 0 { 0 } else { low };
        let hi: i32 = if high > SCREEN_WIDTH - 1 { SCREEN_WIDTH - 1 } else { high };
        let mut x: i32 = lo;
        while x <= hi
            invariant
                lo <= x,
                x <= hi + 1 || x == lo,
                lo == (if low < 0 { 0 } else { low }),
                hi == (if high > 79 { 79 } else { high }),
                low == (if x1 < x2 { x1 } else { x2 }),
                high == (if x1 < x2 { x2 } else { x1 }),
                self.map.wf(),
                forall|i: int|
                    0 <= i < NUM_TILES ==> #[trigger] self.map.tiles@[i] == if row(i) == y && lo <= col(i)
                        < x {
                        TileType::Floor
                    } else {
                        old(self).map.tiles@[i]
                    },
                self.rooms == old(self).rooms,
                self.monster_spawns == old(self).monster_spawns,
                self.player_start == old(self).player_start,
                self.amulet_start == old(self).amulet_start,
            decreases hi + 1 - x,
        {
            match self.map.try_idx(Point::new(x, y)) {
                Some(idx) => {
                    proof {
                        lemma_idx_of(x as int, y as int);
                    }
                    self.map.tiles.set(idx, TileType::Floor);
                },
                None => {
                    assert forall|i: int| 0 <= i < NUM_TILES implies !(row(i) == y && col(i) == x) by {
                        lemma_col_row(i);
                    }
                },
            }
            x = x + 1;
        }
        assert forall|i: int| 0 <= i < NUM_TILES implies #[trigger] self.map.tiles@[i] == if on_hline(
            i,
            x1 as int,
            x2 as int,
            y as int,
        ) {
            TileType::Floor
        } else {
            old(self).map.tiles@[i]
        } by {
            lemma_col_row(i);
        }
    }

    /// Turns to floor the cells of column `x` from `y1` to `y2`, skipping those off the grid.
    pub fn apply_vertical_tunnel(&mut self, y1: i32, y2: i32, x: i32)
        requires
            old(self).map.wf(),
        ensures
            final(self).map.wf(),
            forall|i: int|
                0 <= i < NUM_TILES ==> #[trigger] final(self).map.tiles@[i] == if on_vline(
                    i,
                    y1 as int,
                    y2 as int,
                    x as int,
                ) {
                    TileType::Floor
                } else {
                    old(self).map.tiles@[i]
                },
            final(self).rooms == old(self).rooms,
            final(self).monster_spawns == old(self).monster_spawns,
            final(self).player_start == old(self).player_start,
            final(self).amulet_start == old(self).amulet_start,
    {
        let low: i32 = if y1 < y2 { y1 } else { y2 };
        let high: i32 = if y1 < y2 { y2 } else { y1 };
        let lo: i32 = if low < 0 { 0 } else { low };
        let hi: i32 = if high > SCREEN_HEIGHT - 1 { SCREEN_HEIGHT - 1 } else { high };
        let mut y: i32 = lo;
        while y <= hi
            invariant
                lo <= y,
                y <= hi + 1 || y == lo,
                lo == (if low < 0 { 0 } else { low }),
                hi == (if high > 49 { 49 } else { high }),
                low == (if y1 < y2 { y1 } else { y2 }),
                high == (if y1 < y2 { y2 } else { y1 }),
                self.map.wf(),
                forall|i: int|
                    0 <= i < NUM_TILES ==> #[trigger] self.map.tiles@[i] == if col(i) == x && lo <= row(i)
                        < y {
                        TileType::Floor
                    } else {
                        old(self).map.tiles@[i]
                    },
                self.rooms == old(self).rooms,
                self.monster_spawns == old(self).monster_spawns,
                self.player_start == old(self).player_start,
                self.amulet_start == old(self).amulet_start,
            decreases hi + 1 - y,
        {
            match self.map.try_idx(Point::new(x, y)) {
                Some(idx) => {
                    proof {
                        lemma_idx_of(x as int, y as int);
                    }
                    self.map.tiles.set(idx, TileType::Floor);
                },
                None => {
                    assert forall|i: int| 0 <= i < NUM_TILES implies !(row(i) == y && col(i) == x) by {
                        lemma_col_row(i);
                    }
                },
            }
            y = y + 1;
        }
        assert forall|i: int| 0 <= i < NUM_TILES implies #[trigger] self.map.tiles@[i] == if on_vline(
            i,
            y1 as int,
            y2 as int,
            x as int,
        ) {
            TileType::Floor
        } else {
            old(self).map.tiles@[i]
        } by {
            lemma_col_row(i);
        }
    }

    /// Turns to floor every cell of `room` off the top and left border.
    fn carve_room(&mut self, room: &Rect)
        requires
            old(self).map.wf(),
            room.wf(),
        ensures
            final(self).map.wf(),
            forall|i: int|
                0 <= i < NUM_TILES ==> #[trigger] final(self).map.tiles@[i] == if carved_by(*room, i) {
                    TileType::Floor
                } else {
                    old(self).map.tiles@[i]
                },
            final(self).rooms == old(self).rooms,
            final(self).monster_spawns == old(self).monster_spawns,
            final(self).player_start == old(self).player_start,
            final(self).amulet_start == old(self).amulet_start,
    {
        let mut y: i32 = room.y1;
        while y < room.y2
            invariant
                room.wf(),
                room.y1 <= y <= room.y2,
                self.map.wf(),
                forall|i: int|
                    0 <= i < NUM_TILES ==> #[trigger] self.map.tiles@[i] == if carved_by(*room, i)
                        && row(i) < y {
                        TileType::Floor
                    } else {
                        old(self).map.tiles@[i]
                    },
                self.rooms == old(self).rooms,
                self.monster_spawns == old(self).monster_spawns,
                self.player_start == old(self).player_start,
                self.amulet_start == old(self).amulet_start,
            decreases room.y2 - y,
        {
            let mut x: i32 = room.x1;
            while x < room.x2
                invariant
                    room.wf(),
                    room.y1 <= y < room.y2,
                    room.x1 <= x <= room.x2,
                    self.map.wf(),
                    forall|i: int|
                        0 <= i < NUM_TILES ==> #[trigger] self.map.tiles@[i] == if carved_by(*room, i)
                            && (row(i) < y || (row(i) == y && col(i) < x)) {
                            TileType::Floor
                        } else {
                            old(self).map.tiles@[i]
                        },
                    self.rooms == old(self).rooms,
                    self.monster_spawns == old(self).monster_spawns,
                    self.player_start == old(self).player_start,
                    self.amulet_start == old(self).amulet_start,
                decreases room.x2 - x,
            {
                if x > 0 && x < SCREEN_WIDTH && y > 0 && y < SCREEN_HEIGHT {
                    let idx = map_idx(x, y);
                    proof {
                        lemma_idx_of(x as int, y as int);
                    }
                    let ghost before = self.map.tiles@;
                    self.map.tiles.set(idx, TileType::Floor);
                    assert forall|i: int|
                        0 <= i < NUM_TILES implies #[trigger] self.map.tiles@[i] == if carved_by(*room, i)
                            && (row(i) < y || (row(i) == y && col(i) < x + 1)) {
                            TileType::Floor
                        } else {
                            old(self).map.tiles@[i]
                        } by {
                        lemma_col_row(i);
                        if i != idx as int {
                            assert(self.map.tiles@[i] == before[i]);
                        }
                    }
                } else {
                    assert forall|i: int| 0 <= i < NUM_TILES implies !(carved_by(*room, i) && row(i) == y && col(i) == x) by {
                        lemma_col_row(i);
                    }
                }
                x = x + 1;
            }
            y = y + 1;
        }
    }

    /// Keeps `room` when it intersects no room kept so far: carves it to floor and adds
    /// it to the list. Otherwise nothing changes.
    pub fn try_place_room(&mut self, room: &Rect) -> (placed: bool)
        requires
            old(self).map.wf(),
            room.wf(),
        ensures
            final(self).map.wf(),
            placed == !exists|q: int|
                0 <= q < old(self).rooms@.len() && (#[trigger] old(self).rooms@[q]).spec_intersect(
                    *room,
                ),
            placed ==> final(self).rooms@ == old(self).rooms@.push(*room),
            placed ==> forall|i: int|
                0 <= i < NUM_TILES ==> #[trigger] final(self).map.tiles@[i] == if carved_by(*room, i) {
                    TileType::Floor
                } else {
                    old(self).map.tiles@[i]
                },
            !placed ==> final(self).rooms == old(self).rooms,
            !placed ==> final(self).map.tiles@ == old(self).map.tiles@,
            final(self).monster_spawns == old(self).monster_spawns,
            final(self).player_start == old(self).player_start,
            final(self).amulet_start == old(self).amulet_start,
    {
        let mut overlap = false;
        let mut k: usize = 0;
        while k < self.rooms.len()
            invariant
                k <= self.rooms@.len(),
                overlap <==> exists|q: int|
                    0 <= q < k && (#[trigger] self.rooms@[q]).spec_intersect(*room),
            decreases self.rooms@.len() - k,
        {
            if self.rooms[k].intersect(room) {
                overlap = true;
            }
            k = k + 1;
        }
        if overlap {
            false
        } else {
            self.carve_room(room);
            self.rooms.push(*room);
            true
        }
    }

    /// Draws rooms at random (corner and sides as `room_drawn` says) and keeps each that
    /// intersects none kept before, until `NUM_ROOMS` are kept; each kept room is carved
    /// to floor and no other tile changes. Fails only when `MAX_ROOM_ATTEMPTS` draws
    /// have not brought the list to `NUM_ROOMS`.
    pub fn build_random_rooms(&mut self, rng: &mut RandomNumberGenerator) -> (r: Result<(), GenError>)
        requires
            old(self).map.wf(),
        ensures
            final(self).map.wf(),
            old(self).rooms@.len() <= final(self).rooms@.len(),
            old(self).rooms@ == final(self).rooms@.subrange(0, old(self).rooms@.len() as int),
            forall|k: int|
                old(self).rooms@.len() <= k < final(self).rooms@.len() ==> room_drawn(
                    #[trigger] final(self).rooms@[k],
                ),
            forall|a: int, b: int|
                0 <= a < b < final(self).rooms@.len() && old(self).rooms@.len() <= b ==> !(
                #[trigger] final(self).rooms@[a]).spec_intersect(#[trigger] final(self).rooms@[b]),
            rooms_disjoint(old(self).rooms@) ==> rooms_disjoint(final(self).rooms@),
            forall|i: int|
                0 <= i < NUM_TILES ==> #[trigger] final(self).map.tiles@[i] == if carved_by_any(
                    final(self).rooms@,
                    old(self).rooms@.len() as int,
                    i,
                ) {
                    TileType::Floor
                } else {
                    old(self).map.tiles@[i]
                },
            r is Ok <==> final(self).rooms@.len() >= NUM_ROOMS,
            old(self).rooms@.len() <= NUM_ROOMS ==> final(self).rooms@.len() <= NUM_ROOMS,
            r is Err ==> r->Err_0 == GenError::RoomPlacement,
            final(self).monster_spawns == old(self).monster_spawns,
            final(self).player_start == old(self).player_start,
            final(self).amulet_start == old(self).amulet_start,
    {
        let ghost n0 = old(self).rooms@.len() as int;
        let mut attempts: u32 = 0;
        while self.rooms.len() < NUM_ROOMS && attempts < MAX_ROOM_ATTEMPTS
            invariant
                self.map.wf(),
                n0 == old(self).rooms@.len(),
                n0 <= self.rooms@.len(),
                old(self).rooms@ == self.rooms@.subrange(0, n0),
                n0 <= NUM_ROOMS ==> self.rooms@.len() <= NUM_ROOMS,
                forall|k: int| n0 <= k < self.rooms@.len() ==> room_drawn(#[trigger] self.rooms@[k]),
                forall|a: int, b: int|
                    0 <= a < b < self.rooms@.len() && n0 <= b ==> !(#[trigger] self.rooms@[a]).spec_intersect(
                        #[trigger] self.rooms@[b],
                    ),
                forall|i: int|
                    0 <= i < NUM_TILES ==> #[trigger] self.map.tiles@[i] == if carved_by_any(
                        self.rooms@,
                        n0,
                        i,
                    ) {
                        TileType::Floor
                    } else {
                        old(self).map.tiles@[i]
                    },
                self.monster_spawns == old(self).monster_spawns,
                self.player_start == old(self).player_start,
                self.amulet_start == old(self).amulet_start,
            decreases MAX_ROOM_ATTEMPTS - attempts,
        {
            attempts = attempts + 1;
            let room = Rect::with_size(
                rng_range(rng, 1, SCREEN_WIDTH - 10),
                rng_range(rng, 1, SCREEN_HEIGHT - 10),
                rng_range(rng, 2, 10),
                rng_range(rng, 2, 10),
            );
            let ghost rooms_before = self.rooms@;
            let ghost tiles_before = self.map.tiles@;
            let placed = self.try_place_room(&room);
            proof {
                if placed {
                    assert(self.rooms@.subrange(0, n0) =~= rooms_before.subrange(0, n0));
                    assert forall|k: int| n0 <= k < self.rooms@.len() implies room_drawn(
                        #[trigger] self.rooms@[k],
                    ) by {
                        if k < rooms_before.len() {
                            assert(self.rooms@[k] == rooms_before[k]);
                        }
                    }
                    assert forall|a: int, b: int|
                        0 <= a < b < self.rooms@.len() && n0 <= b implies !(
                        #[trigger] self.rooms@[a]).spec_intersect(#[trigger] self.rooms@[b]) by {
                        if b == rooms_before.len() {
                            assert(self.rooms@[a] == rooms_before[a]);
                            assert(!rooms_before[a].spec_intersect(room));
                        } else {
                            assert(self.rooms@[a] == rooms_before[a]);
                            assert(self.rooms@[b] == rooms_before[b]);
                        }
                    }
                    assert forall|i: int| 0 <= i < NUM_TILES implies #[trigger] self.map.tiles@[i]
                        == if carved_by_any(self.rooms@, n0, i) {
                        TileType::Floor
                    } else {
                        old(self).map.tiles@[i]
                    } by {
                        let last = rooms_before.len() as int;
                        assert(self.rooms@[last] == room);
                        if carved_by(room, i) {
                            assert(carved_by(self.rooms@[last], i));
                        } else {
                            assert(self.map.tiles@[i] == tiles_before[i]);
                            if carved_by_any(rooms_before, n0, i) {
                                let k = choose|k: int|
                                    n0 <= k < rooms_before.len() && #[trigger] carved_by(
                                        rooms_before[k],
                                        i,
                                    );
                                assert(self.rooms@[k] == rooms_before[k]);
                                assert(carved_by(self.rooms@[k], i));
                            }
                            if carved_by_any(self.rooms@, n0, i) {
                                let k = choose|k: int|
                                    n0 <= k < self.rooms@.len() && #[trigger] carved_by(
                                        self.rooms@[k],
                                        i,
                                    );
                                assert(k < last);
                                assert(self.rooms@[k] == rooms_before[k]);
                                assert(carved_by(rooms_before[k], i));
                            }
                        }
                    }
                }
            }
        }
        proof {
            assert forall|a: int, b: int|
                0 <= a < self.rooms@.len() && 0 <= b < self.rooms@.len() && a != b && rooms_disjoint(
                    old(self).rooms@,
                ) implies !(#[trigger] self.rooms@[a]).spec_intersect(#[trigger] self.rooms@[b]) by {
                if a < n0 && b < n0 {
                    assert(self.rooms@[a] == old(self).rooms@[a]);
                    assert(self.rooms@[b] == old(self).rooms@[b]);
                } else if a < b {
                } else {
                    assert(!self.rooms@[b].spec_intersect(self.rooms@[a]));
                }
            }
        }
        if self.rooms.len() < NUM_ROOMS {
            Err(GenError::RoomPlacement)
        } else {
            Ok(())
        }
    }

    /// Carves the L-shaped corridor from `a` to `b`: along row `a.y` then column `b.x`
    /// when `horizontal_first`, else along column `a.x` then row `b.y`.
    pub fn join_rooms(&mut self, a: Point, b: Point, horizontal_first: bool)
        requires
            old(self).map.wf(),
        ensures
            final(self).map.wf(),
            final(self).map.tiles@ == with_corridor(old(self).map.tiles@, a, b, horizontal_first),
            horizontal_first ==> carved_h_then_v(final(self).map.tiles@, a, b),
            !horizontal_first ==> carved_v_then_h(final(self).map.tiles@, a, b),
            final(self).rooms == old(self).rooms,
            final(self).monster_spawns == old(self).monster_spawns,
            final(self).player_start == old(self).player_start,
            final(self).amulet_start == old(self).amulet_start,
    {
        if horizontal_first {
            self.apply_horizontal_tunnel(a.x, b.x, a.y);
            self.apply_vertical_tunnel(a.y, b.y, b.x);
        } else {
            self.apply_vertical_tunnel(a.y, b.y, a.x);
            self.apply_horizontal_tunnel(a.x, b.x, b.y);
        }
        assert(self.map.tiles@ =~= with_corridor(old(self).map.tiles@, a, b, horizontal_first));
    }

    /// Joins each room to the one before it, in the stable order of their centres'
    /// columns, with `join_rooms`, whose leg order one coin flip per pair chooses. No
    /// tile off those corridors changes.
    pub fn build_corridors(&mut self, rng: &mut RandomNumberGenerator)
        requires
            old(self).map.wf(),
            forall|k: int|
                0 <= k < old(self).rooms@.len() ==> (#[trigger] old(self).rooms@[k]).wf()
                    && old(self).rooms@[k].center_fits(),
        ensures
            final(self).map.wf(),
            floors_kept(old(self).map.tiles@, final(self).map.tiles@),
            stable_sorted_by_center_x(old(self).rooms@).to_multiset() == old(self).rooms@.to_multiset(),
            forall|a: int, b: int|
                0 <= a < b < stable_sorted_by_center_x(old(self).rooms@).len() ==> (
                #[trigger] stable_sorted_by_center_x(old(self).rooms@)[a]).spec_center().x <= (
                #[trigger] stable_sorted_by_center_x(old(self).rooms@)[b]).spec_center().x,
            corridors_join(final(self).map.tiles@, stable_sorted_by_center_x(old(self).rooms@)),
            exists|coins: Seq<bool>|
                (coins.len() + 1 == stable_sorted_by_center_x(old(self).rooms@).len() || (coins.len() == 0
                    && old(self).rooms@.len() == 0)) && #[trigger] with_corridors(
                    old(self).map.tiles@,
                    stable_sorted_by_center_x(old(self).rooms@),
                    coins,
                    coins.len() as int,
                ) == final(self).map.tiles@,
            final(self).rooms == old(self).rooms,
            final(self).monster_spawns == old(self).monster_spawns,
            final(self).player_start == old(self).player_start,
            final(self).amulet_start == old(self).amulet_start,
    {
        let mut rooms: Vec<Rect> = self.rooms.clone();
        assert(rooms@ =~= self.rooms@);
        let ghost unsorted = rooms@;
        sort_by_center_x(&mut rooms);
        proof {
            unsorted.to_multiset_ensures();
            rooms@.to_multiset_ensures();
            assert forall|q: int| 0 <= q < rooms@.len() implies (#[trigger] rooms@[q]).wf() && rooms@[q].center_fits() by {
                assert(rooms@.to_multiset().count(rooms@[q]) > 0);
                assert(unsorted.contains(rooms@[q]));
            }
        }
        let ghost mut coins: Seq<bool> = Seq::empty();
        let mut i: usize = 1;
        while i < rooms.len()
            invariant
                1 <= i,
                i <= rooms@.len() || i == 1,
                forall|q: int| 0 <= q < rooms@.len() ==> (#[trigger] rooms@[q]).wf() && rooms@[q].center_fits(),
                rooms@ == stable_sorted_by_center_x(old(self).rooms@),
                coins.len() == i - 1,
                self.map.tiles@ == with_corridors(old(self).map.tiles@, rooms@, coins, i - 1),
                forall|k: int|
                    1 <= k < i && k < rooms@.len() ==> corridor_carved(
                        self.map.tiles@,
                        rooms@[k - 1].spec_center(),
                        (#[trigger] rooms@[k]).spec_center(),
                    ),
                self.map.wf(),
                floors_kept(old(self).map.tiles@, self.map.tiles@),
                self.rooms == old(self).rooms,
                self.monster_spawns == old(self).monster_spawns,
                self.player_start == old(self).player_start,
                self.amulet_start == old(self).amulet_start,
            decreases rooms@.len() - i,
        {
            let ghost before = self.map.tiles@;
            let prev = rooms[i - 1].center();
            let new = rooms[i].center();
            let horizontal_first = rng_range(rng, 0, 2) == 1;
            self.join_rooms(prev, new, horizontal_first);
            proof {
                let grown = coins.push(horizontal_first);
                lemma_with_corridors_prefix(old(self).map.tiles@, rooms@, coins, grown, i - 1);
                coins = grown;
                assert(self.map.tiles@ == with_corridors(old(self).map.tiles@, rooms@, coins, i as int));
                assert forall|q: int|
                    0 <= q < old(self).map.tiles@.len() && old(self).map.tiles@[q] == TileType::Floor implies #[trigger] self.map.tiles@[q] == TileType::Floor by {
                    assert(before[q] == TileType::Floor);
                }
                assert forall|k: int|
                    1 <= k < i + 1 && k < rooms@.len() implies corridor_carved(
                        self.map.tiles@,
                        rooms@[k - 1].spec_center(),
                        (#[trigger] rooms@[k]).spec_center(),
                    ) by {
                    let a = rooms@[k - 1].spec_center();
                    let b = rooms@[k].spec_center();
                    if k == i {
                        assert(a == prev && b == new);
                    } else {
                        assert(corridor_carved(before, a, b));
                        if carved_h_then_v(before, a, b) {
                            assert forall|q: int|
                                valid_idx(q) && (on_hline(q, a.x as int, b.x as int, a.y as int)
                                    || on_vline(q, a.y as int, b.y as int, b.x as int)) implies #[trigger] self.map.tiles@[q]
                                == TileType::Floor by {
                                assert(before[q] == TileType::Floor);
                            }
                        } else {
                            assert forall|q: int|
                                valid_idx(q) && (on_vline(q, a.y as int, b.y as int, a.x as int)
                                    || on_hline(q, a.x as int, b.x as int, b.y as int)) implies #[trigger] self.map.tiles@[q]
                                == TileType::Floor by {
                                assert(before[q] == TileType::Floor);
                            }
                        }
                    }
                }
            }
            i = i + 1;
        }
        assert(corridors_join(self.map.tiles@, rooms@));
        assert(with_corridors(old(self).map.tiles@, rooms@, coins, coins.len() as int) == self.map.tiles@);
        proof {
            unsorted.to_multiset_ensures();
            rooms@.to_multiset_ensures();
            vstd::seq_lib::to_multiset_len(unsorted);
            vstd::seq_lib::to_multiset_len(rooms@);
            assert(rooms@.len() == old(self).rooms@.len());
            assert((coins.len() + 1 == rooms@.len() || (coins.len() == 0 && old(self).rooms@.len() == 0))
                && with_corridors(old(self).map.tiles@, rooms@, coins, coins.len() as int) == self.map.tiles@);
        }
    }
}

} // verus!

pub mod automatas;
pub mod drunkard;
pub mod empty;
pub mod rooms;
