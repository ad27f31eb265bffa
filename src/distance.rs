//! Single- or multi-source step distances over the passable tiles of the grid.
use vstd::prelude::*;
use crate::map::{
    col, idx_of, in_bounds, lemma_col_row, lemma_idx_of, row, valid_idx, GridMap, TileType,
};
use crate::{NUM_TILES, SCREEN_HEIGHT, SCREEN_WIDTH};

verus! {

/// The value of a tile that no source reaches within the radius.
pub const UNREACHABLE: u32 = 4294967295;

/// Two distinct cells that touch, orthogonally or diagonally.
pub open spec fn adjacent(i: int, j: int) -> bool {
    &&& valid_idx(i)
    &&& valid_idx(j)
    &&& i != j
    &&& -1 <= col(i) - col(j) <= 1
    &&& -1 <= row(i) - row(j) <= 1
}

pub open spec fn passable(tiles: Seq<TileType>, i: int) -> bool {
    tiles[i] == TileType::Floor
}

pub open spec fn reached(d: Seq<u32>, i: int) -> bool {
    d[i] != UNREACHABLE
}

pub open spec fn valid_sources(sources: Seq<usize>) -> bool {
    forall|k: int| 0 <= k < sources.len() ==> valid_idx(#[trigger] sources[k] as int)
}

/// `d` gives, for every tile, the fewest steps between passable tiles from the
/// nearest source, or `UNREACHABLE` where that exceeds `radius` or no path exists:
/// sources are at 0 and nothing else is, each reached tile beyond a source is
/// passable and one step further than some reached neighbour, and no passable
/// neighbour of a tile closer than `radius` is more than one step further.
pub open spec fn is_distance_field(
    tiles: Seq<TileType>,
    sources: Seq<usize>,
    radius: u32,
    d: Seq<u32>,
) -> bool {
    &&& d.len() == NUM_TILES as int
    &&& forall|k: int| 0 <= k < sources.len() ==> d[#[trigger] sources[k] as int] == 0
    &&& forall|i: int| valid_idx(i) && #[trigger] d[i] == 0 ==> sources.contains(i as usize)
    &&& forall|i: int| valid_idx(i) && reached(d, i) ==> #[trigger] d[i] <= radius
    &&& forall|i: int|
        valid_idx(i) && reached(d, i) && #[trigger] d[i] > 0 ==> passable(tiles, i) && exists|
            j: int,
        |
            #[trigger] adjacent(i, j) && reached(d, j) && d[j] + 1 == d[i]
    &&& forall|i: int, j: int|
        #[trigger] adjacent(i, j) && reached(d, i) && d[i] < radius && passable(tiles, j)
            ==> reached(d, j) && d[j] <= d[i] + 1
}

/// A field on a second grid is never further than one on a first grid, from the
/// same sources, wherever the first grid's reached passable tiles stay passable.
pub proof fn lemma_field_le(
    t1: Seq<TileType>,
    t2: Seq<TileType>,
    sources: Seq<usize>,
    radius: u32,
    d1: Seq<u32>,
    d2: Seq<u32>,
)
    requires
        radius < UNREACHABLE,
        is_distance_field(t1, sources, radius, d1),
        is_distance_field(t2, sources, radius, d2),
        forall|i: int| valid_idx(i) && reached(d1, i) && passable(t1, i) ==> passable(t2, i),
    ensures
        forall|i: int| valid_idx(i) && reached(d1, i) ==> reached(d2, i) && d2[i] <= d1[i],
{
    assert forall|i: int| valid_idx(i) && reached(d1, i) implies reached(d2, i) && d2[i]
        <= d1[i] by {
        lemma_field_le_at(t1, t2, sources, radius, d1, d2, d1[i] as nat);
    }
}

proof fn lemma_field_le_at(
    t1: Seq<TileType>,
    t2: Seq<TileType>,
    sources: Seq<usize>,
    radius: u32,
    d1: Seq<u32>,
    d2: Seq<u32>,
    n: nat,
)
    requires
        radius < UNREACHABLE,
        is_distance_field(t1, sources, radius, d1),
        is_distance_field(t2, sources, radius, d2),
        forall|i: int| valid_idx(i) && reached(d1, i) && passable(t1, i) ==> passable(t2, i),
    ensures
        forall|i: int|
            valid_idx(i) && reached(d1, i) && d1[i] == n ==> reached(d2, i) && d2[i] <= n,
    decreases n,
{
    if n > 0 {
        lemma_field_le_at(t1, t2, sources, radius, d1, d2, (n - 1) as nat);
    }
    assert forall|i: int| valid_idx(i) && reached(d1, i) && d1[i] == n implies reached(d2, i)
        && d2[i] <= n by {
        if n == 0 {
            assert(d1[i] == 0);
            let k = choose|k: int| 0 <= k < sources.len() && sources[k] == i as usize;
            assert(d2[sources[k] as int] == 0);
        } else {
            assert(d1[i] > 0);
            let j = choose|j: int| #[trigger] adjacent(i, j) && reached(d1, j) && d1[j] + 1 == d1[i];
            assert(d1[j] <= radius);
            assert(adjacent(j, i));
        }
    }
}

/// Two fields of the same grid, sources and radius are equal.
pub proof fn lemma_field_unique(
    tiles: Seq<TileType>,
    sources: Seq<usize>,
    radius: u32,
    d1: Seq<u32>,
    d2: Seq<u32>,
)
    requires
        radius < UNREACHABLE,
        is_distance_field(tiles, sources, radius, d1),
        is_distance_field(tiles, sources, radius, d2),
    ensures
        d1 == d2,
{
    lemma_field_le(tiles, tiles, sources, radius, d1, d2);
    lemma_field_le(tiles, tiles, sources, radius, d2, d1);
    assert forall|i: int| 0 <= i < d1.len() implies d1[i] == d2[i] by {
        if reached(d1, i) || reached(d2, i) {
        }
    }
    assert(d1 =~= d2);
}

/// Every source is at distance 0, and every other reached tile has a neighbour that is
/// passable or a source and strictly closer.
pub proof fn lemma_distance_field_descent(
    tiles: Seq<TileType>,
    sources: Seq<usize>,
    radius: u32,
    d: Seq<u32>,
)
    requires
        is_distance_field(tiles, sources, radius, d),
    ensures
        forall|k: int| 0 <= k < sources.len() ==> d[#[trigger] sources[k] as int] == 0,
        forall|i: int|
            valid_idx(i) && reached(d, i) && !sources.contains(i as usize) ==> exists|j: int|
                #[trigger] adjacent(i, j) && reached(d, j) && d[j] < d[i] && (passable(tiles, j)
                    || sources.contains(j as usize)),
{
    assert forall|i: int| valid_idx(i) && reached(d, i) && !sources.contains(i as usize) implies exists|j: int|
        #[trigger] adjacent(i, j) && reached(d, j) && d[j] < d[i] && (passable(tiles, j)
            || sources.contains(j as usize)) by {
        assert(d[i] != 0);
        assert(d[i] > 0);
        let j = choose|j: int| #[trigger] adjacent(i, j) && reached(d, j) && d[j] + 1 == d[i];
        if d[j] == 0 {
            assert(sources.contains(j as usize));
        } else {
            assert(d[j] > 0);
        }
    }
}

/// Marks as one step further than `i` every unreached passable neighbour of `i`.
fn relax_neighbors(map: &GridMap, d: &mut Vec<u32>, i: usize, level: u32)
    requires
        map.wf(),
        old(d)@.len() == NUM_TILES as int,
        valid_idx(i as int),
        old(d)@[i as int] == level,
        level < UNREACHABLE - 1,
    ensures
        final(d)@.len() == NUM_TILES as int,
        forall|q: int| #[trigger]
            valid_idx(q) && reached(old(d)@, q) ==> final(d)@[q] == old(d)@[q],
        forall|q: int|
            valid_idx(q) && !reached(old(d)@, q) && #[trigger] reached(final(d)@, q) ==> final(d)@[q]
                == level + 1 && passable(map.tiles@, q) && adjacent(q, i as int),
        forall|j: int|
            #[trigger] adjacent(i as int, j) && passable(map.tiles@, j) ==> reached(final(d)@, j),
{
    let ghost d0 = d@;
    proof {
        lemma_col_row(i as int);
    }
    let w: usize = SCREEN_WIDTH as usize;
    let x: i32 = (i % w) as i32;
    let y: i32 = (i / w) as i32;
    let mut dy: i32 = 0;
    while dy < 3
        invariant
            map.wf(),
            0 <= dy <= 3,
            valid_idx(i as int),
            x == col(i as int),
            y == row(i as int),
            in_bounds(x as int, y as int),
            d@.len() == NUM_TILES as int,
            d0.len() == NUM_TILES as int,
            d@[i as int] == level,
            level < UNREACHABLE - 1,
            forall|q: int| valid_idx(q) && #[trigger] reached(d0, q) ==> d@[q] == d0[q],
            forall|q: int|
                valid_idx(q) && !reached(d0, q) && #[trigger] reached(d@, q) ==> d@[q] == level + 1
                    && passable(map.tiles@, q) && adjacent(q, i as int),
            forall|j: int|
                #[trigger] adjacent(i as int, j) && passable(map.tiles@, j) && row(j) - y + 1 < dy
                    ==> reached(d@, j),
        decreases 3 - dy,
    {
        let mut dx: i32 = 0;
        while dx < 3
            invariant
                map.wf(),
                0 <= dy < 3,
                0 <= dx <= 3,
                valid_idx(i as int),
                x == col(i as int),
                y == row(i as int),
                in_bounds(x as int, y as int),
                d@.len() == NUM_TILES as int,
                d0.len() == NUM_TILES as int,
                d@[i as int] == level,
                level < UNREACHABLE - 1,
                forall|q: int| valid_idx(q) && #[trigger] reached(d0, q) ==> d@[q] == d0[q],
                forall|q: int|
                    valid_idx(q) && !reached(d0, q) && #[trigger] reached(d@, q) ==> d@[q] == level
                        + 1 && passable(map.tiles@, q) && adjacent(q, i as int),
                forall|j: int|
                    #[trigger] adjacent(i as int, j) && passable(map.tiles@, j) && (row(j) - y + 1
                        < dy || (row(j) - y + 1 == dy && col(j) - x + 1 < dx)) ==> reached(d@, j),
            decreases 3 - dx,
        {
            let nx: i32 = x + dx - 1;
            let ny: i32 = y + dy - 1;
            if (dx != 1 || dy != 1) && nx >= 0 && nx < SCREEN_WIDTH && ny >= 0 && ny
                < SCREEN_HEIGHT {
                proof {
                    lemma_idx_of(nx as int, ny as int);
                }
                let j: usize = (ny * SCREEN_WIDTH + nx) as usize;
                assert(j as int == idx_of(nx as int, ny as int));
                if map.tiles[j] == TileType::Floor && d[j] == UNREACHABLE {
                    assert(adjacent(j as int, i as int));
                    let ghost before = d@;
                    d.set(j, level + 1);
                    assert forall|q: int|
                        valid_idx(q) && !reached(d0, q) && #[trigger] reached(d@, q) implies d@[q]
                            == level + 1 && passable(map.tiles@, q) && adjacent(q, i as int) by {
                        if q != j as int {
                            assert(d@[q] == before[q]);
                            assert(reached(before, q));
                        }
                    }
                }
                assert forall|q: int|
                    #[trigger] adjacent(i as int, q) && passable(map.tiles@, q) && (row(q) - y + 1
                        < dy || (row(q) - y + 1 == dy && col(q) - x + 1 < dx + 1)) implies reached(
                    d@,
                    q,
                ) by {
                    if row(q) - y + 1 == dy && col(q) - x + 1 == dx {
                        lemma_col_row(q);
                    }
                }
            } else {
                assert forall|q: int|
                    #[trigger] adjacent(i as int, q) && passable(map.tiles@, q) && (row(q) - y + 1
                        < dy || (row(q) - y + 1 == dy && col(q) - x + 1 < dx + 1)) implies reached(
                    d@,
                    q,
                ) by {
                    if row(q) - y + 1 == dy && col(q) - x + 1 == dx {
                        lemma_col_row(q);
                    }
                }
            }
            dx = dx + 1;
        }
        dy = dy + 1;
    }
}

/// The distance field of `map` from `sources`, cut off at `radius` steps.
pub fn dijkstra_map(map: &GridMap, sources: &Vec<usize>, radius: u32) -> (d: Vec<u32>)
    requires
        map.wf(),
        valid_sources(sources@),
        radius < UNREACHABLE - 1,
    ensures
        is_distance_field(map.tiles@, sources@, radius, d@),
{
    let mut d: Vec<u32> = Vec::new();
    let mut i: usize = 0;
    while i < NUM_TILES
        invariant
            i <= NUM_TILES,
            d@.len() == i,
            forall|q: int| 0 <= q < i ==> d@[q] == UNREACHABLE,
        decreases NUM_TILES - i,
    {
        d.push(UNREACHABLE);
        i = i + 1;
    }
    let mut k: usize = 0;
    while k < sources.len()
        invariant
            k <= sources@.len(),
            valid_sources(sources@),
            d@.len() == NUM_TILES as int,
            forall|q: int| 0 <= q < k ==> d@[#[trigger] sources@[q] as int] == 0,
            forall|q: int| 0 <= q < d@.len() ==> #[trigger] d@[q] == 0 || d@[q] == UNREACHABLE,
            forall|q: int| 0 <= q < d@.len() && #[trigger] d@[q] == 0 ==> sources@.contains(q as usize),
        decreases sources@.len() - k,
    {
        let s = sources[k];
        assert(valid_idx(sources@[k as int] as int));
        assert(sources@[k as int] == s);
        d.set(s, 0);
        k = k + 1;
    }
    let ghost mut parent: Seq<int> = Seq::new(NUM_TILES as nat, |q: int| q);
    let mut level: u32 = 0;
    while level < radius
        invariant
            map.wf(),
            valid_sources(sources@),
            radius < UNREACHABLE - 1,
            level <= radius,
            d@.len() == NUM_TILES as int,
            parent.len() == NUM_TILES as int,
            forall|q: int| 0 <= q < sources@.len() ==> d@[#[trigger] sources@[q] as int] == 0,
            forall|q: int| valid_idx(q) && #[trigger] d@[q] == 0 ==> sources@.contains(q as usize),
            forall|q: int| valid_idx(q) && reached(d@, q) ==> #[trigger] d@[q] <= level,
            forall|q: int|
                valid_idx(q) && reached(d@, q) && #[trigger] d@[q] > 0 ==> passable(map.tiles@, q)
                    && adjacent(q, parent[q]) && reached(d@, parent[q]) && d@[parent[q]] + 1
                    == d@[q],
            forall|a: int, j: int|
                #[trigger] adjacent(a, j) && reached(d@, a) && d@[a] < level && passable(
                    map.tiles@,
                    j,
                ) ==> reached(d@, j) && d@[j] <= d@[a] + 1,
        decreases radius - level,
    {
        let mut i: usize = 0;
        while i < NUM_TILES
            invariant
                map.wf(),
                valid_sources(sources@),
                radius < UNREACHABLE - 1,
                level < radius,
                i <= NUM_TILES,
                d@.len() == NUM_TILES as int,
                parent.len() == NUM_TILES as int,
                forall|q: int| 0 <= q < sources@.len() ==> d@[#[trigger] sources@[q] as int] == 0,
                forall|q: int| valid_idx(q) && #[trigger] d@[q] == 0 ==> sources@.contains(q as usize),
                forall|q: int| valid_idx(q) && reached(d@, q) ==> #[trigger] d@[q] <= level + 1,
                forall|q: int|
                    valid_idx(q) && reached(d@, q) && #[trigger] d@[q] > 0 ==> passable(map.tiles@, q)
                        && adjacent(q, parent[q]) && reached(d@, parent[q]) && d@[parent[q]] + 1
                        == d@[q],
                forall|a: int, j: int|
                    #[trigger] adjacent(a, j) && reached(d@, a) && d@[a] < level && passable(
                        map.tiles@,
                        j,
                    ) ==> reached(d@, j) && d@[j] <= d@[a] + 1,
                forall|a: int, j: int|
                    #[trigger] adjacent(a, j) && a < i && d@[a] == level && passable(map.tiles@, j)
                        ==> reached(d@, j) && d@[j] <= level + 1,
            decreases NUM_TILES - i,
        {
            if d[i] == level {
                let ghost before = d@;
                relax_neighbors(map, &mut d, i, level);
                proof {
                    parent = Seq::new(
                        NUM_TILES as nat,
                        |q: int|
                            if !reached(before, q) && reached(d@, q) {
                                i as int
                            } else {
                                parent[q]
                            },
                    );
                    assert forall|q: int| valid_idx(q) && reached(d@, q) && #[trigger] d@[q] > 0 implies passable(map.tiles@, q)
                        && adjacent(q, parent[q]) && reached(d@, parent[q]) && d@[parent[q]] + 1
                        == d@[q] by {
                        if reached(before, q) {
                            assert(d@[q] == before[q]);
                            let p = parent[q];
                            assert(reached(before, p));
                        }
                    }
                    assert forall|q: int| valid_idx(q) && #[trigger] d@[q] == 0 implies sources@.contains(
                        q as usize,
                    ) by {
                        assert(reached(d@, q));
                        if !reached(before, q) {
                            assert(d@[q] == level + 1);
                        }
                    }
                    assert forall|a: int, j: int|
                        #[trigger] adjacent(a, j) && reached(d@, a) && d@[a] < level && passable(
                            map.tiles@,
                            j,
                        ) implies reached(d@, j) && d@[j] <= d@[a] + 1 by {
                        if !reached(before, a) {
                            assert(d@[a] == level + 1);
                        } else {
                            assert(before[a] == d@[a]);
                            assert(reached(before, j));
                        }
                    }
                    assert forall|a: int, j: int|
                        #[trigger] adjacent(a, j) && a < i + 1 && d@[a] == level && passable(map.tiles@, j)
                            implies reached(d@, j) && d@[j] <= level + 1 by {
                        if a == i as int {
                        } else if !reached(before, a) {
                            assert(reached(d@, a));
                            assert(d@[a] == level + 1);
                        } else {
                            assert(before[a] == d@[a]);
                            assert(reached(before, j));
                        }
                    }
                }
            }
            i = i + 1;
        }
        level = level + 1;
    }
    proof {
        assert forall|q: int| valid_idx(q) && reached(d@, q) && #[trigger] d@[q] > 0 implies passable(map.tiles@, q)
            && exists|j: int| #[trigger] adjacent(q, j) && reached(d@, j) && d@[j] + 1 == d@[q] by {
            assert(adjacent(q, parent[q]));
        }
    }
    d
}

} // verus!
