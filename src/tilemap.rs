//! The level's tiles: a map from grid coordinates to tile kinds, and the
//! generator that lays out rooms and corridors and places the ladders.

use crate::misc::{direction_from_index, step, Direction, IVec2};
use crate::enemy::{base_health, get_enemy, is_pickup, possible_type, sprite_ok, Element, Enemy, EnemyType, FINAL_DEPTH, WEIGHT_ROWS};
use crate::rng::{choose_one, random_range, shuffle_cells};
use itertools::Itertools;
use vstd::arithmetic::div_mod::lemma_fundamental_div_mod_converse;
use vstd::prelude::*;

verus! {

/// What stands on a tile. `Enemy` marks a floor tile where a creature spawns.
#[derive(Clone, Copy, Debug, PartialEq, Eq, Structural)]
pub enum Tile {
    Ground,
    Enemy,
    Path,
    Wall,
    LadderDown,
    LadderUp,
    Final,
}

/// No coordinate occurs twice.
pub open spec fn keys_unique(s: Seq<(IVec2, Tile)>) -> bool {
    forall|i: int, j: int| 0 <= i < j < s.len() ==> s[i].0 != s[j].0
}

/// The tile stored at `p`, if any.
pub open spec fn spec_find(s: Seq<(IVec2, Tile)>, p: IVec2) -> Option<Tile> {
    if exists|i: int| 0 <= i < s.len() && s[i].0 == p {
        let i = choose|i: int| 0 <= i < s.len() && s[i].0 == p;
        Some(s[i].1)
    } else {
        None
    }
}

/// How many tiles are of kind `k`.
pub open spec fn count_kind(s: Seq<(IVec2, Tile)>, k: Tile) -> nat
    decreases s.len(),
{
    if s.len() == 0 {
        0
    } else {
        count_kind(s.drop_last(), k) + (if s.last().1 == k { 1nat } else { 0nat })
    }
}

pub proof fn lemma_find_at(s: Seq<(IVec2, Tile)>, i: int)
    requires
        keys_unique(s),
        0 <= i < s.len(),
    ensures
        spec_find(s, s[i].0) == Some(s[i].1),
{
    let j = choose|j: int| 0 <= j < s.len() && s[j].0 == s[i].0;
    assert(j == i);
}

proof fn lemma_count_update(s: Seq<(IVec2, Tile)>, i: int, e: (IVec2, Tile), k: Tile)
    requires
        0 <= i < s.len(),
    ensures
        count_kind(s.update(i, e), k) + (if s[i].1 == k { 1nat } else { 0nat })
            == count_kind(s, k) + (if e.1 == k { 1nat } else { 0nat }),
    decreases s.len(),
{
    let u = s.update(i, e);
    if i == s.len() - 1 {
        assert(u.drop_last() =~= s.drop_last());
    } else {
        assert(u.drop_last() =~= s.drop_last().update(i, e));
        lemma_count_update(s.drop_last(), i, e, k);
    }
}

proof fn lemma_count_push(s: Seq<(IVec2, Tile)>, e: (IVec2, Tile), k: Tile)
    ensures
        count_kind(s.push(e), k) == count_kind(s, k) + (if e.1 == k { 1nat } else { 0nat }),
{
    assert(s.push(e).drop_last() =~= s);
}

/// A kind that no tile has counts zero; a kind that some tile has counts at
/// least one.
pub proof fn lemma_count_zero(s: Seq<(IVec2, Tile)>, k: Tile)
    ensures
        (count_kind(s, k) == 0) <==> (forall|i: int| 0 <= i < s.len() ==> s[i].1 != k),
    decreases s.len(),
{
    if s.len() > 0 {
        lemma_count_zero(s.drop_last(), k);
        if count_kind(s, k) == 0 {
            assert forall|i: int| 0 <= i < s.len() implies s[i].1 != k by {
                if i < s.len() - 1 {
                    assert(s.drop_last()[i] == s[i]);
                }
            }
        } else {
            if s.last().1 != k {
                let i = choose|i: int| 0 <= i < s.drop_last().len() && s.drop_last()[i].1 == k;
                assert(s[i].1 == k);
            }
        }
    }
}

/// The tiles of one level, each coordinate at most once.
pub struct Tilemap {
    tiles: Vec<(IVec2, Tile)>,
}

impl View for Tilemap {
    type V = Seq<(IVec2, Tile)>;

    closed spec fn view(&self) -> Seq<(IVec2, Tile)> {
        self.tiles@
    }
}

impl Tilemap {
    /// Every coordinate appears at most once.
    pub open spec fn wf(&self) -> bool {
        keys_unique(self@)
    }

    pub open spec fn spec_get(&self, p: IVec2) -> Option<Tile> {
        spec_find(self@, p)
    }

    pub open spec fn count(&self, k: Tile) -> nat {
        count_kind(self@, k)
    }

    /// An empty map.
    pub fn new() -> (r: Tilemap)
        ensures
            r.wf(),
            r@.len() == 0,
    {
        Tilemap { tiles: Vec::new() }
    }

    /// The number of tiles.
    pub fn len(&self) -> (r: usize)
        ensures
            r == self@.len(),
    {
        self.tiles.len()
    }

    /// The coordinate and kind of the `i`-th tile, in storage order.
    pub fn entry(&self, i: usize) -> (r: (IVec2, Tile))
        requires
            i < self@.len(),
        ensures
            r == self@[i as int],
    {
        self.tiles[i]
    }

    fn index_of(&self, pos: IVec2) -> (r: Option<usize>)
        ensures
            match r {
                Some(i) => i < self@.len() && self@[i as int].0 == pos,
                None => forall|i: int| 0 <= i < self@.len() ==> self@[i].0 != pos,
            },
    {
        let mut i: usize = 0;
        while i < self.tiles.len()
            invariant
                i <= self@.len(),
                self@ == self.tiles@,
                forall|j: int| 0 <= j < i ==> self@[j].0 != pos,
            decreases self@.len() - i,
        {
            if self.tiles[i].0 == pos {
                return Some(i);
            }
            i = i + 1;
        }
        None
    }

    /// The kind of the tile at `pos`; `None` off the map.
    pub fn get_tile(&self, pos: IVec2) -> (r: Option<Tile>)
        requires
            self.wf(),
        ensures
            r == self.spec_get(pos),
    {
        match self.index_of(pos) {
            Some(i) => {
                proof {
                    lemma_find_at(self@, i as int);
                }
                Some(self.tiles[i].1)
            },
            None => None,
        }
    }

    /// Sets the tile at `pos` to `t`, adding it when absent, and returns the
    /// kind it had before.
    pub fn set_tile(&mut self, pos: IVec2, t: Tile) -> (r: Option<Tile>)
        requires
            old(self).wf(),
        ensures
            final(self).wf(),
            r == old(self).spec_get(pos),
            final(self).spec_get(pos) == Some(t),
            forall|q: IVec2| q != pos ==> final(self).spec_get(q) == old(self).spec_get(q),
            forall|k: Tile|
                #![trigger final(self).count(k)]
                final(self).count(k) + (if r == Some(k) { 1nat } else { 0nat })
                    == old(self).count(k) + (if t == k { 1nat } else { 0nat }),
    {
        let ghost s = self@;
        match self.index_of(pos) {
            Some(i) => {
                proof {
                    lemma_find_at(s, i as int);
                }
                let prev = self.tiles[i].1;
                self.tiles[i] = (pos, t);
                let ghost u = self@;
                proof {
                    assert(u == s.update(i as int, (pos, t)));
                    lemma_find_at(u, i as int);
                    assert forall|q: IVec2| q != pos implies spec_find(u, q) == spec_find(s, q) by {
                        if exists|j: int| 0 <= j < s.len() && s[j].0 == q {
                            let j = choose|j: int| 0 <= j < s.len() && s[j].0 == q;
                            lemma_find_at(s, j);
                            lemma_find_at(u, j);
                        } else {
                            assert(!exists|j: int| 0 <= j < u.len() && u[j].0 == q);
                        }
                    }
                    assert forall|k: Tile| #[trigger] count_kind(u, k) + (if Some(prev) == Some(k) { 1nat } else { 0nat })
                        == count_kind(s, k) + (if t == k { 1nat } else { 0nat }) by {
                        lemma_count_update(s, i as int, (pos, t), k);
                    }
                }
                Some(prev)
            },
            None => {
                self.tiles.push((pos, t));
                let ghost u = self@;
                proof {
                    assert(u == s.push((pos, t)));
                    lemma_find_at(u, s.len() as int);
                    assert forall|q: IVec2| q != pos implies spec_find(u, q) == spec_find(s, q) by {
                        if exists|j: int| 0 <= j < s.len() && s[j].0 == q {
                            let j = choose|j: int| 0 <= j < s.len() && s[j].0 == q;
                            lemma_find_at(s, j);
                            lemma_find_at(u, j);
                        } else {
                            assert(!exists|j: int| 0 <= j < u.len() && u[j].0 == q);
                        }
                    }
                    assert forall|k: Tile| #[trigger] count_kind(u, k)
                        == count_kind(s, k) + (if t == k { 1nat } else { 0nat }) by {
                        lemma_count_push(s, (pos, t), k);
                    }
                }
                None
            },
        }
    }
}

/// Width and height of the slot that each room owns on the room grid.
pub const ROOM_SEP_X: u32 = 15;
pub const ROOM_SEP_Y: u32 = 11;

/// The most rooms a level may have: room placement moves at most
/// `WALK_STEPS + 1` cells per room, so with this many rooms every tile
/// coordinate still fits an `i32`.
pub const MAX_ROOMS: u32 = 2_000_000;

/// Random steps that room placement takes before it heads straight east.
pub const WALK_STEPS: u32 = 64;

/// No room-grid cell lies further than this from the origin.
pub const GRID_LIMIT: i32 = 130_000_000;

pub open spec fn in_grid(c: IVec2) -> bool {
    -GRID_LIMIT <= c.x <= GRID_LIMIT && -GRID_LIMIT <= c.y <= GRID_LIMIT
}

/// The pairs of `x0..=x1` and `y0..=y1`, the first coordinate outermost.
pub open spec fn grid(x0: u32, x1: u32, y0: u32, y1: u32) -> Seq<(u32, u32)> {
    let nx = x1 + 1 - x0;
    let ny = y1 + 1 - y0;
    Seq::new((nx * ny) as nat, |i: int| ((x0 + i / ny) as u32, (y0 + i % ny) as u32))
}

/// Relies on `itertools::Itertools::cartesian_product`: it yields every pair
/// of the two ranges, the first range outermost.
#[verifier::external_body]
fn grid_cells(x0: u32, x1: u32, y0: u32, y1: u32) -> (r: Vec<(u32, u32)>)
    requires
        x0 <= x1 + 1,
        y0 <= y1 + 1,
        x1 < u32::MAX,
        y1 < u32::MAX,
    ensures
        r@ == grid(x0, x1, y0, y1),
{
    (x0..=x1).cartesian_product(y0..=y1).collect()
}

proof fn lemma_grid_bounds(x0: u32, x1: u32, y0: u32, y1: u32, i: int)
    requires
        x0 <= x1 + 1,
        y0 <= y1 + 1,
        0 <= i < grid(x0, x1, y0, y1).len(),
    ensures
        x0 <= grid(x0, x1, y0, y1)[i].0 <= x1,
        y0 <= grid(x0, x1, y0, y1)[i].1 <= y1,
{
    let nx = x1 + 1 - x0;
    let ny = y1 + 1 - y0;
    assert(0 <= i / ny < nx && 0 <= i % ny < ny) by (nonlinear_arith)
        requires 0 <= i < nx * ny, nx >= 0, ny >= 0;
}

/// Whether `cells[from..]` holds `c`.
fn contains_from(cells: &Vec<IVec2>, c: IVec2, from: usize) -> (r: bool)
    ensures
        r == exists|i: int| from <= i < cells@.len() && cells@[i] == c,
{
    let mut i: usize = from;
    while i < cells.len()
        invariant
            from <= i,
            forall|j: int| from <= j < i && j < cells@.len() ==> cells@[j] != c,
        decreases cells@.len() - i,
    {
        if cells[i] == c {
            assert(from <= i < cells@.len() && cells@[i as int] == c);
            return true;
        }
        i = i + 1;
    }
    false
}

/// Lays out `n` rooms on the room grid by a random walk from the origin:
/// from the last claimed cell it steps in random directions until it stands
/// on a free cell, and claims it. After a bounded number of random steps it
/// walks east, past every claimed cell if need be, so the walk always ends.
pub fn place_rooms(n: u32) -> (r: Vec<IVec2>)
    requires
        n <= MAX_ROOMS,
    ensures
        r@.len() == n,
        forall|i: int, j: int| 0 <= i < j < r@.len() ==> r@[i] != r@[j],
        forall|i: int| 0 <= i < r@.len() ==> in_grid(#[trigger] r@[i]),
        n > 0 ==> r@[0] == (IVec2 { x: 0, y: 0 }),
        forall|m: int| 1 <= m < r@.len() ==> next_to_some(r@, m, #[trigger] r@[m]),
{
    let mut cells: Vec<IVec2> = Vec::new();
    let mut pos = IVec2 { x: 0, y: 0 };
    let mut k: u32 = 0;
    while k < n
        invariant
            k <= n <= MAX_ROOMS,
            cells@.len() == k,
            forall|i: int, j: int| 0 <= i < j < cells@.len() ==> cells@[i] != cells@[j],
            forall|i: int| 0 <= i < cells@.len() ==> {
                let c = #[trigger] cells@[i];
                -k * 65 <= c.x <= k * 65 && -k * 65 <= c.y <= k * 65
            },
            -k * 65 <= pos.x <= k * 65 && -k * 65 <= pos.y <= k * 65,
            k > 0 ==> cells@[0] == (IVec2 { x: 0, y: 0 }),
            k == 0 ==> pos == (IVec2 { x: 0, y: 0 }),
            forall|m: int| 1 <= m < k ==> next_to_some(cells@, m, #[trigger] cells@[m]),
            k > 0 ==> pos == cells@[k - 1],
        decreases n - k,
    {
        let mut taken = contains_from(&cells, pos, 0);
        proof {
            if k > 0 {
                assert(cells@[k - 1] == pos);
            }
        }
        let mut fuel: u32 = WALK_STEPS;
        while taken && fuel > 0
            invariant
                fuel <= WALK_STEPS,
                k < n <= MAX_ROOMS,
                -k * 65 - (WALK_STEPS - fuel) <= pos.x <= k * 65 + (WALK_STEPS - fuel),
                -k * 65 - (WALK_STEPS - fuel) <= pos.y <= k * 65 + (WALK_STEPS - fuel),
                taken == exists|i: int| 0 <= i < cells@.len() && cells@[i] == pos,
                cells@.len() == k,
                forall|i: int| 0 <= i < cells@.len() ==> {
                    let c = #[trigger] cells@[i];
                    -k * 65 <= c.x <= k * 65 && -k * 65 <= c.y <= k * 65
                },
                k > 0 ==> cells@[0] == (IVec2 { x: 0, y: 0 }),
                k == 0 ==> !taken,
                k == 0 ==> pos == (IVec2 { x: 0, y: 0 }),
                forall|m: int| 1 <= m < k ==> next_to_some(cells@, m, #[trigger] cells@[m]),
                k > 0 ==> (taken || next_to_some(cells@, k as int, pos)),
            decreases fuel,
        {
            let dir = direction_from_index(random_range(0, 4));
            let ghost prev = pos;
            proof {
                if k > 0 {
                    let j = choose|j: int| 0 <= j < cells@.len() && cells@[j] == pos;
                    lemma_step_adjacent(cells@, k as int, j, prev, dir);
                }
            }
            pos = step(pos, dir);
            fuel = fuel - 1;
            taken = contains_from(&cells, pos, 0);
        }
        if taken {
            let mut max_x: i32 = pos.x;
            let mut i: usize = 0;
            while i < cells.len()
                invariant
                    i <= cells@.len(),
                    pos.x <= max_x <= k * 65,
                    cells@.len() == k,
                    -k * 65 - WALK_STEPS <= pos.x,
                    -k * 65 - WALK_STEPS <= pos.y <= k * 65 + WALK_STEPS,
                    k > 0 ==> cells@[0] == (IVec2 { x: 0, y: 0 }),
                    taken == exists|i: int| 0 <= i < cells@.len() && cells@[i] == pos,
                    forall|j: int| 0 <= j < i ==> (#[trigger] cells@[j]).x <= max_x,
                    forall|m: int| 1 <= m < k ==> next_to_some(cells@, m, #[trigger] cells@[m]),
                    k > 0,
                    forall|j: int| 0 <= j < cells@.len() ==> {
                        let c = #[trigger] cells@[j];
                        -k * 65 <= c.x <= k * 65 && -k * 65 <= c.y <= k * 65
                    },
                decreases cells@.len() - i,
            {
                if cells[i].x > max_x {
                    max_x = cells[i].x;
                }
                i = i + 1;
            }
            while taken
                invariant
                    pos.x <= max_x + 1,
                    max_x <= k * 65,
                    k < n <= MAX_ROOMS,
                    forall|j: int| 0 <= j < cells@.len() ==> (#[trigger] cells@[j]).x <= max_x,
                    taken == exists|i: int| 0 <= i < cells@.len() && cells@[i] == pos,
                cells@.len() == k,
                forall|i: int| 0 <= i < cells@.len() ==> {
                    let c = #[trigger] cells@[i];
                    -k * 65 <= c.x <= k * 65 && -k * 65 <= c.y <= k * 65
                },
                k > 0 ==> cells@[0] == (IVec2 { x: 0, y: 0 }),
                -k * 65 - WALK_STEPS <= pos.x,
                -k * 65 - WALK_STEPS <= pos.y <= k * 65 + WALK_STEPS,
                forall|m: int| 1 <= m < k ==> next_to_some(cells@, m, #[trigger] cells@[m]),
                k > 0 ==> (taken || next_to_some(cells@, k as int, pos)),
                decreases max_x + 1 - pos.x,
            {
                proof {
                    let j = choose|j: int| 0 <= j < cells@.len() && cells@[j] == pos;
                    assert(cells@[j].x <= max_x);
                    lemma_step_adjacent(cells@, k as int, j, pos, Direction::East);
                }
                pos = step(pos, Direction::East);
                taken = contains_from(&cells, pos, 0);
            }
        }
        let ghost before = cells@;
        cells.push(pos);
        proof {
            assert forall|m: int| 1 <= m < k + 1 implies next_to_some(cells@, m, #[trigger] cells@[m]) by {
                let w = if m < k { before[m] } else { pos };
                assert(cells@[m] == w);
                let j = choose|j: int| 0 <= j < m && #[trigger] adjacent(before[j], w);
                assert(cells@[j] == before[j]);
            }
        }
        k = k + 1;
    }
    cells
}

/// Two cells share a side.
pub open spec fn adjacent(a: IVec2, b: IVec2) -> bool {
    ||| a.y == b.y && (a.x - b.x == 1 || b.x - a.x == 1)
    ||| a.x == b.x && (a.y - b.y == 1 || b.y - a.y == 1)
}

/// Some cell among the first `k` of `cells` shares a side with `p`.
pub open spec fn next_to_some(cells: Seq<IVec2>, k: int, p: IVec2) -> bool {
    exists|j: int| 0 <= j < k && #[trigger] adjacent(cells[j], p)
}

proof fn lemma_step_adjacent(cells: Seq<IVec2>, k: int, j: int, p: IVec2, dir: Direction)
    requires
        0 <= j < k <= cells.len(),
        cells[j] == p,
        i32::MIN < p.x < i32::MAX && i32::MIN < p.y < i32::MAX,
    ensures
        next_to_some(cells, k, crate::player::spec_step(p, dir)),
{
    assert(adjacent(cells[j], crate::player::spec_step(p, dir)));
}

/// `t1` holds no more ladders of either kind than `t0`.
pub open spec fn ladders_kept(t0: Tilemap, t1: Tilemap) -> bool {
    t1.count(Tile::LadderUp) <= t0.count(Tile::LadderUp) && t1.count(Tile::LadderDown) <= t0.count(Tile::LadderDown)
}

/// Holds no ladder of either kind.
pub open spec fn no_ladders(m: Tilemap) -> bool {
    m.count(Tile::LadderUp) == 0 && m.count(Tile::LadderDown) == 0
}

/// Whether `v` holds `c`.
fn contains_cell(v: &Vec<(u32, u32)>, c: (u32, u32)) -> (r: bool)
    ensures
        r == v@.contains(c),
{
    let mut i: usize = 0;
    while i < v.len()
        invariant
            i <= v@.len(),
            forall|j: int| 0 <= j < i ==> v@[j] != c,
        decreases v@.len() - i,
    {
        if v[i].0 == c.0 && v[i].1 == c.1 {
            assert(v@[i as int] == c);
            return true;
        }
        i = i + 1;
    }
    false
}

/// The tile at `(x, y)` within the block whose lower corner is `offset`.
pub open spec fn block_pos(offset: IVec2, x: int, y: int) -> IVec2 {
    IVec2 { x: (offset.x + x) as i32, y: (offset.y + y) as i32 }
}

/// `(x, y)` lies on the wall ring of a room with a floor of `size`.
pub open spec fn on_ring(size: (u32, u32), x: int, y: int) -> bool {
    x == 0 || x == size.0 + 1 || y == 0 || y == size.1 + 1
}

/// `q` lies in the block of a room with a floor of `size` and its lower
/// corner at `offset`, walls included.
pub open spec fn in_block(offset: IVec2, size: (u32, u32), q: IVec2) -> bool {
    offset.x <= q.x <= offset.x + size.0 + 1 && offset.y <= q.y <= offset.y + size.1 + 1
}

/// The kind that stamping a room gives to `(x, y)`.
pub open spec fn stamp_kind(size: (u32, u32), markers: Seq<(u32, u32)>, x: u32, y: u32) -> Tile {
    if on_ring(size, x as int, y as int) {
        Tile::Wall
    } else if markers.contains((x, y)) {
        Tile::Enemy
    } else {
        Tile::Ground
    }
}

/// The largest offset of a room's corner from the origin.
pub const OFFSET_LIMIT: i32 = 1_950_000_100;

/// Stamps a room whose floor is `size` tiles, with its lower corner at
/// `offset`: a ring of walls around a floor of ground. A depth-scaled number
/// of floor tiles, drawn at random, become spawn markers.
pub fn generate_room(tiles: &mut Tilemap, size: (u32, u32), offset: IVec2, level: u32)
    requires
        old(tiles).wf(),
        size.0 <= 16 && size.1 <= 16,
        -OFFSET_LIMIT <= offset.x <= OFFSET_LIMIT,
        -OFFSET_LIMIT <= offset.y <= OFFSET_LIMIT,
    ensures
        final(tiles).wf(),
        ladders_kept(*old(tiles), *final(tiles)),
        forall|x: int, y: int|
            0 <= x <= size.0 + 1 && 0 <= y <= size.1 + 1 ==> {
                let t = #[trigger] final(tiles).spec_get(block_pos(offset, x, y));
                if on_ring(size, x, y) {
                    t == Some(Tile::Wall)
                } else {
                    t == Some(Tile::Ground) || t == Some(Tile::Enemy)
                }
            },
        forall|q: IVec2| !in_block(offset, size, q) ==> #[trigger] final(tiles).spec_get(q) == old(tiles).spec_get(q),
        exists|ms: Seq<(u32, u32)>| {
            &&& #[trigger] room_markers(size, level, ms)
            &&& forall|x: int, y: int|
                1 <= x <= size.0 && 1 <= y <= size.1 ==> #[trigger] final(tiles).spec_get(block_pos(offset, x, y)) == Some(
                    if ms.contains((x as u32, y as u32)) { Tile::Enemy } else { Tile::Ground },
                )
        },
{
    let (sx, sy) = size;
    let num_enemies = random_range(1 + level / 3, 3 + level / 2);
    let mut floor = grid_cells(1, sx, 1, sy);
    let ghost unshuffled = floor@;
    shuffle_cells(&mut floor);
    let take: usize = if (num_enemies as usize) < floor.len() { num_enemies as usize } else { floor.len() };
    let mut markers: Vec<(u32, u32)> = Vec::new();
    let mut m: usize = 0;
    while m < take
        invariant
            take <= floor@.len(),
            m <= take,
            markers@ == floor@.take(m as int),
        decreases take - m,
    {
        markers.push(floor[m]);
        m = m + 1;
        assert(markers@ =~= floor@.take(m as int));
    }
    proof {
        lemma_grid_no_duplicates(1, sx, 1, sy);
        let g = grid(1, sx, 1, sy);
        g.lemma_multiset_has_no_duplicates();
        floor@.lemma_multiset_has_no_duplicates_conv();
        assert forall|k: int| 0 <= k < markers@.len() implies 1 <= (#[trigger] markers@[k]).0 <= sx && 1 <= markers@[k].1 <= sy by {
            let c = floor@[k];
            assert(floor@.contains(c));
            floor@.to_multiset_ensures();
            g.to_multiset_ensures();
            assert(unshuffled == g);
            assert(floor@.to_multiset().count(c) > 0);
            assert(g.to_multiset().count(c) > 0);
            assert(g.contains(c));
            let j = choose|j: int| 0 <= j < g.len() && g[j] == c;
            lemma_grid_bounds(1, sx, 1, sy, j);
        }
        assert(g.len() == sx * sy);
        assert(room_markers(size, level, markers@));
    }
    let cells = grid_cells(0, sx + 1, 0, sy + 1);
    let mut i: usize = 0;
    while i < cells.len()
        invariant
            tiles.wf(),
            ladders_kept(*old(tiles), *tiles),
            cells@ == grid(0, (sx + 1) as u32, 0, (sy + 1) as u32),
            size == (sx, sy),
            sx <= 16 && sy <= 16,
            -OFFSET_LIMIT <= offset.x <= OFFSET_LIMIT,
            -OFFSET_LIMIT <= offset.y <= OFFSET_LIMIT,
            i <= cells@.len(),
            forall|j: int| 0 <= j < i ==> {
                let c = #[trigger] cells@[j];
                tiles.spec_get(block_pos(offset, c.0 as int, c.1 as int)) == Some(stamp_kind(size, markers@, c.0, c.1))
            },
            forall|q: IVec2| !in_block(offset, size, q) ==> #[trigger] tiles.spec_get(q) == old(tiles).spec_get(q),
        decreases cells@.len() - i,
    {
        proof {
            lemma_grid_bounds(0, (sx + 1) as u32, 0, (sy + 1) as u32, i as int);
        }
        let (x, y) = cells[i];
        let kind = if x == 0 || x == sx + 1 || y == 0 || y == sy + 1 {
            Tile::Wall
        } else if contains_cell(&markers, (x, y)) {
            Tile::Enemy
        } else {
            Tile::Ground
        };
        let pos = IVec2 { x: x as i32 + offset.x, y: y as i32 + offset.y };
        tiles.set_tile(pos, kind);
        proof {
            assert(pos == block_pos(offset, x as int, y as int));
            assert forall|j: int| 0 <= j < i + 1 implies {
                let c = #[trigger] cells@[j];
                tiles.spec_get(block_pos(offset, c.0 as int, c.1 as int)) == Some(stamp_kind(size, markers@, c.0, c.1))
            } by {
                let c = cells@[j];
                if block_pos(offset, c.0 as int, c.1 as int) == pos {
                    lemma_grid_bounds(0, (sx + 1) as u32, 0, (sy + 1) as u32, j);
                    assert(c.0 == x && c.1 == y);
                }
            }
        }
        i = i + 1;
    }
    proof {
        let ny = sy + 2;
        assert forall|x: int, y: int| 0 <= x <= size.0 + 1 && 0 <= y <= size.1 + 1 implies #[trigger] tiles.spec_get(block_pos(offset, x, y))
            == Some(stamp_kind(size, markers@, x as u32, y as u32)) by {
            let j = x * ny + y;
            assert(0 <= j < (sx + 2) * ny) by (nonlinear_arith)
                requires 0 <= x <= sx + 1, 0 <= y < ny, j == x * ny + y;
            lemma_fundamental_div_mod_converse(j, ny as int, x, y);
            assert(cells@[j] == (x as u32, y as u32));
        }
        assert forall|x: int, y: int| 1 <= x <= size.0 && 1 <= y <= size.1 implies #[trigger] tiles.spec_get(block_pos(offset, x, y)) == Some(
            if markers@.contains((x as u32, y as u32)) { Tile::Enemy } else { Tile::Ground },
        ) by {
            assert(tiles.spec_get(block_pos(offset, x, y)) == Some(stamp_kind(size, markers@, x as u32, y as u32)));
        }
    }
}

/// The spawn markers of a room with a floor of `size` on depth `level`:
/// distinct floor tiles, as many as a draw `n` with
/// `1 + level / 3 <= n < 3 + level / 2`, or the whole floor when it is
/// smaller than the draw.
pub open spec fn room_markers(size: (u32, u32), level: u32, ms: Seq<(u32, u32)>) -> bool {
    &&& ms.no_duplicates()
    &&& forall|k: int| 0 <= k < ms.len() ==> 1 <= (#[trigger] ms[k]).0 <= size.0 && 1 <= ms[k].1 <= size.1
    &&& ms.len() <= size.0 * size.1
    &&& ms.len() < size.0 * size.1 ==> 1 + level / 3 <= ms.len() < 3 + level / 2
    &&& ms.len() == size.0 * size.1 ==> size.0 * size.1 < 3 + level / 2
}

proof fn lemma_grid_no_duplicates(x0: u32, x1: u32, y0: u32, y1: u32)
    requires
        x0 <= x1 + 1,
        y0 <= y1 + 1,
    ensures
        grid(x0, x1, y0, y1).no_duplicates(),
{
    let g = grid(x0, x1, y0, y1);
    let ny = y1 + 1 - y0;
    assert forall|i: int, j: int| 0 <= i < g.len() && 0 <= j < g.len() && i != j implies g[i] != g[j] by {
        if g[i] == g[j] {
            let nx = x1 + 1 - x0;
            assert(g.len() == nx * ny);
            assert(ny > 0) by (nonlinear_arith)
                requires 0 <= i < nx * ny, nx >= 0;
            assert(0 <= i / ny < nx && 0 <= i % ny < ny) by (nonlinear_arith)
                requires 0 <= i < nx * ny, nx >= 0, ny > 0;
            assert(0 <= j / ny < nx && 0 <= j % ny < ny) by (nonlinear_arith)
                requires 0 <= j < nx * ny, nx >= 0, ny > 0;
            vstd::arithmetic::div_mod::lemma_fundamental_div_mod(i, ny as int);
            vstd::arithmetic::div_mod::lemma_fundamental_div_mod(j, ny as int);
            assert(i / ny == j / ny && i % ny == j % ny);
        }
    }
}

/// The center of a room-grid cell's slot, in tiles.
pub open spec fn slot_center(c: IVec2) -> (int, int) {
    (c.x * ROOM_SEP_X + ROOM_SEP_X / 2, c.y * ROOM_SEP_Y + ROOM_SEP_Y / 2)
}

/// How far a corridor search runs: twice the slot width going north or
/// south, twice the slot height going east or west.
pub open spec fn search_len(dir: Direction) -> int {
    match dir {
        Direction::North | Direction::South => 2 * ROOM_SEP_X,
        Direction::East | Direction::West => 2 * ROOM_SEP_Y,
    }
}

/// The `k`-th tile of the line from the center of cell `a`'s slot toward
/// `dir`.
pub open spec fn line_pt(a: IVec2, dir: Direction, k: int) -> IVec2 {
    let c = slot_center(a);
    match dir {
        Direction::North => IVec2 { x: c.0 as i32, y: (c.1 + k) as i32 },
        Direction::South => IVec2 { x: c.0 as i32, y: (c.1 - k) as i32 },
        Direction::East => IVec2 { x: (c.0 + k) as i32, y: c.1 as i32 },
        Direction::West => IVec2 { x: (c.0 - k) as i32, y: c.1 as i32 },
    }
}

/// The first step at or after `k`, and before the end of the search, whose
/// tile in `t` is a wall; the search length when there is none.
pub open spec fn first_wall_from(t: Tilemap, a: IVec2, dir: Direction, k: int) -> int
    decreases search_len(dir) - k,
{
    if k < 0 || k >= search_len(dir) {
        search_len(dir)
    } else if t.spec_get(line_pt(a, dir, k)) == Some(Tile::Wall) {
        k
    } else {
        first_wall_from(t, a, dir, k + 1)
    }
}

/// The first wall on the line: where carving starts.
pub open spec fn corridor_start(t: Tilemap, a: IVec2, dir: Direction) -> int {
    first_wall_from(t, a, dir, 0)
}

/// The next wall after the start, or the last step of the search: where
/// carving ends.
pub open spec fn corridor_end(t: Tilemap, a: IVec2, dir: Direction) -> int {
    let w = first_wall_from(t, a, dir, corridor_start(t, a, dir) + 1);
    if w >= search_len(dir) { search_len(dir) - 1 } else { w }
}

/// The tile at `q` after carving the corridor from `a` toward `dir` on `t`:
/// the steps from the first wall to the next wall, both included, become
/// paths, and nothing is carved when the line meets no wall.
pub open spec fn carved_get(t: Tilemap, a: IVec2, dir: Direction, q: IVec2) -> Option<Tile> {
    let w0 = corridor_start(t, a, dir);
    let w1 = corridor_end(t, a, dir);
    if w0 < search_len(dir) && exists|k: int| w0 <= k <= w1 && q == #[trigger] line_pt(a, dir, k) {
        Some(Tile::Path)
    } else {
        t.spec_get(q)
    }
}

proof fn lemma_first_wall_range(t: Tilemap, a: IVec2, dir: Direction, k: int)
    requires
        0 <= k <= search_len(dir),
    ensures
        k <= first_wall_from(t, a, dir, k) <= search_len(dir),
    decreases search_len(dir) - k,
{
    if k < search_len(dir) {
        lemma_first_wall_range(t, a, dir, k + 1);
    }
}

proof fn lemma_first_wall_skip(t: Tilemap, a: IVec2, dir: Direction, k: int, j: int)
    requires
        0 <= k <= j <= search_len(dir),
        forall|m: int| k <= m < j ==> t.spec_get(#[trigger] line_pt(a, dir, m)) != Some(Tile::Wall),
    ensures
        first_wall_from(t, a, dir, k) == first_wall_from(t, a, dir, j),
    decreases j - k,
{
    if k < j {
        lemma_first_wall_skip(t, a, dir, k + 1, j);
    }
}

/// Carves a corridor from the center of cell `a` toward its neighbour in
/// direction `dir`: along that line the first wall becomes a path, and so does
/// every tile after it, up to and including the next wall. A line that meets
/// no wall within its search distance carves nothing.
pub fn carve_corridor(tiles: &mut Tilemap, a: IVec2, dir: Direction)
    requires
        old(tiles).wf(),
        in_grid(a),
    ensures
        final(tiles).wf(),
        ladders_kept(*old(tiles), *final(tiles)),
        forall|q: IVec2| #[trigger] final(tiles).spec_get(q) == carved_get(*old(tiles), a, dir, q),
        forall|q: IVec2| #[trigger] final(tiles).spec_get(q) == old(tiles).spec_get(q) || final(tiles).spec_get(q) == Some(Tile::Path),
        forall|q: IVec2| off_lines(q) ==> #[trigger] final(tiles).spec_get(q) == old(tiles).spec_get(q),
        forall|q: IVec2| #[trigger] final(tiles).spec_get(q) is Some ==> old(tiles).spec_get(q) is Some || exists|k: int|
            0 <= k < search_len(dir) && q == #[trigger] line_pt(a, dir, k),
{
    let ghost t0 = *tiles;
    let sep: u32 = match dir {
        Direction::North | Direction::South => ROOM_SEP_X * 2,
        Direction::East | Direction::West => ROOM_SEP_Y * 2,
    };
    proof {
        assert(-GRID_LIMIT * 15 <= a.x * 15 <= GRID_LIMIT * 15) by (nonlinear_arith)
            requires -GRID_LIMIT <= a.x <= GRID_LIMIT;
        assert(-GRID_LIMIT * 11 <= a.y * 11 <= GRID_LIMIT * 11) by (nonlinear_arith)
            requires -GRID_LIMIT <= a.y <= GRID_LIMIT;
    }
    let mut pos = IVec2 {
        x: a.x * ROOM_SEP_X as i32 + (ROOM_SEP_X / 2) as i32,
        y: a.y * ROOM_SEP_Y as i32 + (ROOM_SEP_Y / 2) as i32,
    };
    let mut first_wall = false;
    let mut done = false;
    let mut p: u32 = 0;
    let ghost mut w0: int = 0;
    while p < sep && !done
        invariant
            tiles.wf(),
            ladders_kept(*old(tiles), *tiles),
            in_grid(a),
            sep == search_len(dir),
            p <= sep,
            pos == line_pt(a, dir, p as int),
            -1_960_000_000 - p <= pos.x <= 1_960_000_000 + p,
            -1_960_000_000 - p <= pos.y <= 1_960_000_000 + p,
            !first_wall ==> {
                &&& corridor_start(t0, a, dir) == first_wall_from(t0, a, dir, p as int)
                &&& forall|q: IVec2| #[trigger] tiles.spec_get(q) == t0.spec_get(q)
                &&& !done
            },
            first_wall ==> {
                &&& w0 == corridor_start(t0, a, dir)
                &&& 0 <= w0 < p
                &&& t0.spec_get(line_pt(a, dir, w0)) == Some(Tile::Wall)
                &&& !done ==> first_wall_from(t0, a, dir, w0 + 1) == first_wall_from(t0, a, dir, p as int)
                &&& done ==> p - 1 == corridor_end(t0, a, dir)
                &&& forall|q: IVec2| #[trigger] tiles.spec_get(q) == (if exists|k: int| w0 <= k < p && q == #[trigger] line_pt(a, dir, k) {
                    Some(Tile::Path)
                } else {
                    t0.spec_get(q)
                })
            },
        decreases sep - p,
    {
        proof {
            if first_wall {
                assert forall|k: int| w0 <= k < p implies line_pt(a, dir, k) != pos by {}
            }
        }
        if !first_wall {
            if matches!(tiles.get_tile(pos), Some(Tile::Wall)) {
                first_wall = true;
                proof {
                    w0 = p as int;
                }
                tiles.set_tile(pos, Tile::Path);
                proof {
                    assert forall|q: IVec2| #[trigger] tiles.spec_get(q) == (if exists|k: int| w0 <= k < p + 1 && q == #[trigger] line_pt(a, dir, k) {
                        Some(Tile::Path)
                    } else {
                        t0.spec_get(q)
                    }) by {
                        if q == pos {
                            assert(line_pt(a, dir, p as int) == q);
                        }
                    }
                }
            } else {
                proof {
                    lemma_first_wall_skip(t0, a, dir, p as int, p + 1);
                }
            }
        } else {
            let prev = tiles.set_tile(pos, Tile::Path);
            proof {
                assert(prev == t0.spec_get(pos));
                assert forall|q: IVec2| #[trigger] tiles.spec_get(q) == (if exists|k: int| w0 <= k < p + 1 && q == #[trigger] line_pt(a, dir, k) {
                    Some(Tile::Path)
                } else {
                    t0.spec_get(q)
                }) by {
                    if q == pos {
                        assert(line_pt(a, dir, p as int) == q);
                    }
                }
            }
            if matches!(prev, Some(Tile::Wall)) {
                done = true;
            } else {
                proof {
                    lemma_first_wall_skip(t0, a, dir, p as int, p + 1);
                }
            }
        }
        pos = step(pos, dir);
        p = p + 1;
    }
    proof {
        let cx = a.x * 15 + 7;
        let cy = a.y * 11 + 5;
        lemma_fundamental_div_mod_converse(cx, 15, a.x as int, 7);
        lemma_fundamental_div_mod_converse(cy, 11, a.y as int, 5);
        assert forall|k: int| 0 <= k < search_len(dir) implies !off_lines(#[trigger] line_pt(a, dir, k)) by {}
        lemma_first_wall_range(t0, a, dir, 0);
        let w0 = corridor_start(t0, a, dir);
        if w0 < search_len(dir) {
            lemma_first_wall_range(t0, a, dir, w0 + 1);
        }
        if first_wall {
            assert forall|q: IVec2| #[trigger] tiles.spec_get(q) == carved_get(t0, a, dir, q) by {
                let w1 = corridor_end(t0, a, dir);
                assert(w1 == p - 1);
                if exists|k: int| w0 <= k < p && q == #[trigger] line_pt(a, dir, k) {
                    let k = choose|k: int| w0 <= k < p && q == #[trigger] line_pt(a, dir, k);
                    assert(w0 <= k <= w1 && q == line_pt(a, dir, k));
                } else {
                    assert(!exists|k: int| w0 <= k <= w1 && q == #[trigger] line_pt(a, dir, k));
                }
            }
        }
    }
}

/// `q` lies on the corridor search line of some cell in some direction.
pub open spec fn on_corridor_line(cells: Seq<IVec2>, q: IVec2) -> bool {
    exists|j: int, d: int, k: int|
        0 <= j < cells.len() && 0 <= d < 4 && 0 <= k < search_len(dir_at(d)) && q == #[trigger] line_pt(cells[j], dir_at(d), k)
}

/// `q` lies in the block of some placed room.
pub open spec fn in_some_room(placed: Seq<((u32, u32), IVec2)>, q: IVec2) -> bool {
    exists|j: int| 0 <= j < placed.len() && #[trigger] in_block(placed[j].1, placed[j].0, q)
}

/// Whether a cell after position `i` of `cells` is `c`.
pub open spec fn later_cell(cells: Seq<IVec2>, i: int, c: IVec2) -> bool {
    exists|j: int| i < j < cells.len() && cells[j] == c
}

/// The direction at position `d` of the order north, south, east, west.
pub open spec fn dir_at(d: int) -> Direction {
    if d == 0 {
        Direction::North
    } else if d == 1 {
        Direction::South
    } else if d == 2 {
        Direction::East
    } else {
        Direction::West
    }
}

/// One step of the corridor pass: for cell `cells[m / 4]` and direction
/// `dir_at(m % 4)`, a corridor is carved on `t0` when the neighbour that way
/// comes later in `cells`, and `t1` is the result; otherwise `t1` is `t0`.
pub open spec fn corridor_step(cells: Seq<IVec2>, m: int, t0: Tilemap, t1: Tilemap) -> bool {
    let a = cells[m / 4];
    let dir = dir_at(m % 4);
    if later_cell(cells, m / 4, spec_step_cell(a, dir)) {
        forall|q: IVec2| #[trigger] t1.spec_get(q) == carved_get(t0, a, dir, q)
    } else {
        t1 == t0
    }
}

/// The neighbouring room-grid cell in direction `dir`.
pub open spec fn spec_step_cell(a: IVec2, dir: Direction) -> IVec2 {
    IVec2 { x: (a.x + crate::misc::dir_offset(dir).0) as i32, y: (a.y + crate::misc::dir_offset(dir).1) as i32 }
}

/// The whole corridor pass, cell by cell in order and, for each cell, the
/// directions north, south, east and west: each pair of neighbouring cells
/// gets one corridor, from the cell that comes first.
pub open spec fn corridors_rel(cells: Seq<IVec2>, t0: Tilemap, t1: Tilemap) -> bool {
    exists|ts: Seq<Tilemap>| {
        &&& ts.len() == 4 * cells.len() + 1
        &&& ts[0] == t0
        &&& ts[4 * cells.len() as int] == t1
        &&& forall|m: int| 0 <= m < 4 * cells.len() ==> #[trigger] corridor_step(cells, m, ts[m], ts[m + 1])
    }
}

/// Carves a corridor between every pair of rooms on neighbouring cells, once
/// per pair, from the cell that comes first in `cells`.
pub fn carve_corridors(tiles: &mut Tilemap, cells: &Vec<IVec2>)
    requires
        old(tiles).wf(),
        forall|i: int| 0 <= i < cells@.len() ==> in_grid(#[trigger] cells@[i]),
    ensures
        final(tiles).wf(),
        ladders_kept(*old(tiles), *final(tiles)),
        corridors_rel(cells@, *old(tiles), *final(tiles)),
        forall|q: IVec2| #[trigger] final(tiles).spec_get(q) == old(tiles).spec_get(q) || final(tiles).spec_get(q) == Some(Tile::Path),
        forall|q: IVec2| off_lines(q) ==> #[trigger] final(tiles).spec_get(q) == old(tiles).spec_get(q),
        forall|q: IVec2| #[trigger] final(tiles).spec_get(q) is Some ==> old(tiles).spec_get(q) is Some || on_corridor_line(cells@, q),
{
    let ghost t0 = *tiles;
    let ghost mut ts: Seq<Tilemap> = seq![*tiles];
    let dirs = Direction::iter();
    let mut i: usize = 0;
    while i < cells.len()
        invariant
            tiles.wf(),
            ladders_kept(*old(tiles), *tiles),
            forall|i: int| 0 <= i < cells@.len() ==> in_grid(#[trigger] cells@[i]),
            dirs@ == seq![Direction::North, Direction::South, Direction::East, Direction::West],
            i <= cells@.len(),
            ts.len() == 4 * i + 1,
            ts[0] == t0,
            ts[4 * i] == *tiles,
            forall|m: int| 0 <= m < 4 * i ==> #[trigger] corridor_step(cells@, m, ts[m], ts[m + 1]),
            forall|q: IVec2| #[trigger] tiles.spec_get(q) == t0.spec_get(q) || tiles.spec_get(q) == Some(Tile::Path),
            forall|q: IVec2| off_lines(q) ==> #[trigger] tiles.spec_get(q) == t0.spec_get(q),
            forall|q: IVec2| #[trigger] tiles.spec_get(q) is Some ==> t0.spec_get(q) is Some || on_corridor_line(cells@, q),
        decreases cells@.len() - i,
    {
        let a = cells[i];
        let next: usize = i + 1;
        let mut d: usize = 0;
        while d < dirs.len()
            invariant
                tiles.wf(),
                ladders_kept(*old(tiles), *tiles),
                in_grid(a),
                a == cells@[i as int],
                i < cells@.len(),
                next == i + 1,
                dirs@ == seq![Direction::North, Direction::South, Direction::East, Direction::West],
                d <= 4,
                ts.len() == 4 * i + d + 1,
                ts[0] == t0,
                ts[4 * i + d] == *tiles,
                forall|m: int| 0 <= m < 4 * i + d ==> #[trigger] corridor_step(cells@, m, ts[m], ts[m + 1]),
                forall|q: IVec2| #[trigger] tiles.spec_get(q) == t0.spec_get(q) || tiles.spec_get(q) == Some(Tile::Path),
                forall|q: IVec2| off_lines(q) ==> #[trigger] tiles.spec_get(q) == t0.spec_get(q),
                forall|q: IVec2| #[trigger] tiles.spec_get(q) is Some ==> t0.spec_get(q) is Some || on_corridor_line(cells@, q),
            decreases dirs@.len() - d,
        {
            let dir = dirs[d];
            let b = step(a, dir);
            let ghost m = 4 * i + d;
            proof {
                assert(m / 4 == i && m % 4 == d) by (nonlinear_arith)
                    requires m == 4 * i + d, 0 <= d < 4, i >= 0;
                assert(dir == dir_at(d as int));
                assert(b == spec_step_cell(a, dir));
            }
            let ghost pre = *tiles;
            if contains_from(cells, b, next) {
                carve_corridor(tiles, a, dir);
                proof {
                    assert forall|q: IVec2| #[trigger] tiles.spec_get(q) is Some implies t0.spec_get(q) is Some || on_corridor_line(cells@, q) by {
                        if !(pre.spec_get(q) is Some) {
                            let k = choose|k: int| 0 <= k < search_len(dir) && q == #[trigger] line_pt(a, dir, k);
                            assert(line_pt(cells@[i as int], dir_at(d as int), k) == q);
                        }
                    }
                }
            }
            proof {
                ts = ts.push(*tiles);
                assert(corridor_step(cells@, m, ts[m], ts[m + 1]));
            }
            d = d + 1;
        }
        i = i + 1;
    }
    proof {
        assert(corridors_rel(cells@, t0, *tiles));
    }
}

/// Where the player enters a level, and where its up ladder stands.
pub open spec fn ladder_up_pos() -> IVec2 {
    IVec2 { x: (ROOM_SEP_X / 2) as i32, y: (ROOM_SEP_Y / 2) as i32 }
}

/// The entry point of every level, where the player starts.
pub fn entry_point() -> (r: IVec2)
    ensures
        r == ladder_up_pos(),
{
    IVec2 { x: (ROOM_SEP_X / 2) as i32, y: (ROOM_SEP_Y / 2) as i32 }
}

proof fn lemma_find_some_counts(s: Seq<(IVec2, Tile)>, p: IVec2, k: Tile)
    requires
        keys_unique(s),
        spec_find(s, p) == Some(k),
    ensures
        count_kind(s, k) > 0,
{
    lemma_count_zero(s, k);
    if exists|i: int| 0 <= i < s.len() && s[i].0 == p {
        let i = choose|i: int| 0 <= i < s.len() && s[i].0 == p;
        lemma_find_at(s, i);
        assert(s[i].1 == k);
    }
}

/// Some tile other than `p` is ground.
pub open spec fn has_ground_off(t: Tilemap, p: IVec2) -> bool {
    exists|q: IVec2| q != p && #[trigger] t.spec_get(q) == Some(Tile::Ground)
}

/// `q` lies on no corridor line: corridors run along the columns through
/// slot centres, `x % 15 == 7`, and the rows through them, `y % 11 == 5`.
pub open spec fn off_lines(q: IVec2) -> bool {
    (q.x as int) % (ROOM_SEP_X as int) != 7 && (q.y as int) % (ROOM_SEP_Y as int) != 5
}

/// Of more distinct candidates than there are markers, one is no marker.
proof fn lemma_pigeonhole(cands: Seq<(u32, u32)>, ms: Seq<(u32, u32)>)
    requires
        cands.no_duplicates(),
        ms.len() < cands.len(),
    ensures
        exists|k: int| 0 <= k < cands.len() && !ms.contains(#[trigger] cands[k]),
{
    broadcast use vstd::seq_lib::seq_to_set_is_finite;
    if forall|k: int| 0 <= k < cands.len() ==> ms.contains(#[trigger] cands[k]) {
        cands.unique_seq_to_set();
        ms.lemma_cardinality_of_set();
        assert(cands.to_set().subset_of(ms.to_set())) by {
            assert forall|c: (u32, u32)| cands.to_set().contains(c) implies ms.to_set().contains(c) by {
                let k = choose|k: int| 0 <= k < cands.len() && cands[k] == c;
                assert(ms.contains(cands[k]));
            }
        }
        vstd::set_lib::lemma_len_subset(cands.to_set(), ms.to_set());
    }
}

/// Places the ladders: the up ladder at the entry point and, off the final
/// depth, one down ladder on a ground tile chosen at random. Without any
/// ground tile there is no down ladder.
pub fn place_ladders(tiles: &mut Tilemap, level: u32)
    requires
        old(tiles).wf(),
        no_ladders(*old(tiles)),
    ensures
        final(tiles).wf(),
        final(tiles).spec_get(ladder_up_pos()) == Some(Tile::LadderUp),
        final(tiles).count(Tile::LadderUp) == 1,
        level == FINAL_DEPTH ==> final(tiles).count(Tile::LadderDown) == 0,
        level != FINAL_DEPTH ==> final(tiles).count(Tile::LadderDown) == 1 || final(tiles).count(Tile::Ground) == 0,
        level != FINAL_DEPTH && has_ground_off(*old(tiles), ladder_up_pos()) ==> final(tiles).count(Tile::LadderDown) == 1,
        forall|q: IVec2| q != ladder_up_pos() ==> #[trigger] final(tiles).spec_get(q) == old(tiles).spec_get(q) || (
            old(tiles).spec_get(q) == Some(Tile::Ground) && final(tiles).spec_get(q) == Some(Tile::LadderDown)),
{
    let up = IVec2 { x: (ROOM_SEP_X / 2) as i32, y: (ROOM_SEP_Y / 2) as i32 };
    let prev = tiles.set_tile(up, Tile::LadderUp);
    proof {
        if prev == Some(Tile::LadderUp) {
            lemma_find_some_counts(old(tiles)@, up, Tile::LadderUp);
        }
        if prev == Some(Tile::LadderDown) {
            lemma_find_some_counts(old(tiles)@, up, Tile::LadderDown);
        }
        assert(tiles.count(Tile::LadderUp) + 0 == old(tiles).count(Tile::LadderUp) + 1);
        assert(tiles.count(Tile::LadderDown) + 0 == old(tiles).count(Tile::LadderDown) + 0);
    }
    if level == FINAL_DEPTH {
        return;
    }
    let mut ground: Vec<usize> = Vec::new();
    let mut i: usize = 0;
    let n = tiles.len();
    while i < n
        invariant
            n == tiles@.len(),
            i <= n,
            forall|j: int| 0 <= j < ground@.len() ==> {
                let g = #[trigger] ground@[j];
                g < n && tiles@[g as int].1 == Tile::Ground
            },
            ground@.len() == 0 ==> forall|j: int| 0 <= j < i ==> tiles@[j].1 != Tile::Ground,
        decreases n - i,
    {
        if matches!(tiles.entry(i).1, Tile::Ground) {
            ground.push(i);
            assert(ground@[ground@.len() - 1] == i);
        }
        i = i + 1;
    }
    if ground.len() == 0 {
        proof {
            lemma_count_zero(tiles@, Tile::Ground);
            if has_ground_off(*old(tiles), up) {
                let q = choose|q: IVec2| q != up && #[trigger] old(tiles).spec_get(q) == Some(Tile::Ground);
                assert(tiles.spec_get(q) == Some(Tile::Ground));
                let j = choose|j: int| 0 <= j < tiles@.len() && tiles@[j].0 == q;
                lemma_find_at(tiles@, j);
                assert(tiles@[j].1 == Tile::Ground);
            }
        }
        return;
    }
    let g = choose_one(&ground);
    proof {
        let j = choose|j: int| 0 <= j < ground@.len() && ground@[j] == g;
        assert(g < n && tiles@[g as int].1 == Tile::Ground);
        lemma_find_at(tiles@, g as int);
    }
    let (pos, _) = tiles.entry(g);
    let ghost before = *tiles;
    let prev = tiles.set_tile(pos, Tile::LadderDown);
    proof {
        assert(prev == Some(Tile::Ground));
        assert(tiles.count(Tile::LadderDown) + 0 == before.count(Tile::LadderDown) + 1);
        assert(tiles.count(Tile::LadderUp) + 0 == before.count(Tile::LadderUp) + 0);
        assert(pos != up);
    }
}

/// Generates one level: between `rooms.0` and `rooms.1` rooms laid out by a
/// random walk on the room grid, each with a floor between `size_x.0` and
/// `size_x.1` wide and between `size_y.0` and `size_y.1` high placed at random
/// in its slot, corridors between neighbouring rooms, and the ladders.
///
/// Every coordinate holds one tile. The rooms stand on distinct cells
/// connected to the origin, one per cell, each inside its slot with a wall
/// ring that only corridors and the up ladder break and no wall inside.
/// There is exactly one up ladder, at the entry point. On the final depth
/// there is no down ladder; on any other there is one unless no ground tile
/// was left to hold it, which cannot happen when there is a room, every floor
/// is at least eight by six and the depth is in the spawning table.
pub fn generate_level(level: u32, rooms: (u32, u32), size_x: (u32, u32), size_y: (u32, u32)) -> (r: Tilemap)
    requires
        rooms.0 <= rooms.1 <= MAX_ROOMS,
        size_x.0 <= size_x.1 < ROOM_SEP_X,
        size_y.0 <= size_y.1 < ROOM_SEP_Y,
    ensures
        r.wf(),
        exists|cells: Seq<IVec2>, placed: Seq<((u32, u32), IVec2)>| #[trigger] level_rooms(r, cells, placed, rooms, size_x, size_y),
        r.spec_get(ladder_up_pos()) == Some(Tile::LadderUp),
        r.count(Tile::LadderUp) == 1,
        level == FINAL_DEPTH ==> r.count(Tile::LadderDown) == 0,
        level != FINAL_DEPTH ==> r.count(Tile::LadderDown) == 1 || r.count(Tile::Ground) == 0,
        level != FINAL_DEPTH && level < WEIGHT_ROWS && rooms.0 >= 1 && size_x.0 >= 8 && size_y.0 >= 6
            ==> r.count(Tile::LadderDown) == 1,
{
    let n = random_range(rooms.0, rooms.1 + 1);
    let cells = place_rooms(n);
    proof {
        assert(room_layout(cells@, rooms));
    }
    let mut tiles = Tilemap::new();
    let ghost mut found: Option<IVec2> = None;
    let ghost mut placed: Seq<((u32, u32), IVec2)> = Seq::empty();
    let mut i: usize = 0;
    while i < cells.len()
        invariant
            tiles.wf(),
            no_ladders(tiles),
            forall|j: int| 0 <= j < cells@.len() ==> in_grid(#[trigger] cells@[j]),
            size_x.0 <= size_x.1 < ROOM_SEP_X,
            size_y.0 <= size_y.1 < ROOM_SEP_Y,
            i <= cells@.len(),
            found matches Some(g) ==> i == cells@.len() && off_lines(g) && tiles.spec_get(g) == Some(Tile::Ground),
            placed.len() == i,
            forall|i: int, j: int| 0 <= i < j < cells@.len() ==> cells@[i] != cells@[j],
            forall|j: int| 0 <= j < i ==> room_placed(cells@[j], (#[trigger] placed[j]).0, placed[j].1, size_x, size_y),
            forall|j: int| 0 <= j < i ==> room_stamped(tiles, (#[trigger] placed[j]).0, placed[j].1),
            forall|q: IVec2| #[trigger] tiles.spec_get(q) is Some ==> in_some_room(placed, q),
            level < WEIGHT_ROWS && size_x.0 >= 8 && size_y.0 >= 6 && i == cells@.len() && i > 0 ==> found is Some,
        decreases cells@.len() - i,
    {
        let c = cells[i];
        let sx = random_range(size_x.0, size_x.1 + 1);
        let sy = random_range(size_y.0, size_y.1 + 1);
        proof {
            assert(in_grid(c));
            assert(-GRID_LIMIT * 15 <= c.x * 15 <= GRID_LIMIT * 15) by (nonlinear_arith)
                requires -GRID_LIMIT <= c.x <= GRID_LIMIT;
            assert(-GRID_LIMIT * 11 <= c.y * 11 <= GRID_LIMIT * 11) by (nonlinear_arith)
                requires -GRID_LIMIT <= c.y <= GRID_LIMIT;
        }
        let rx = random_range(0, ROOM_SEP_X - sx);
        let ry = random_range(0, ROOM_SEP_Y - sy);
        let offset = IVec2 { x: rx as i32 + c.x * ROOM_SEP_X as i32, y: ry as i32 + c.y * ROOM_SEP_Y as i32 };
        let ghost before = tiles;
        generate_room(&mut tiles, (sx, sy), offset, level);
        proof {
            assert(room_placed(c, (sx, sy), offset, size_x, size_y));
            assert(room_stamped(tiles, (sx, sy), offset));
            assert forall|j: int| 0 <= j < i implies room_stamped(tiles, (#[trigger] placed[j]).0, placed[j].1) by {
                assert(cells@[j] != c);
                lemma_room_survives(before, tiles, cells@[j], placed[j].0, placed[j].1, c, (sx, sy), offset, size_x, size_y);
            }
            let ghost prev_placed = placed;
            placed = placed.push(((sx, sy), offset));
            assert forall|q: IVec2| #[trigger] tiles.spec_get(q) is Some implies in_some_room(placed, q) by {
                if in_block(offset, (sx, sy), q) {
                    assert(in_block(placed[i as int].1, placed[i as int].0, q));
                } else {
                    assert(before.spec_get(q) is Some);
                    let j = choose|j: int| 0 <= j < prev_placed.len() && #[trigger] in_block(prev_placed[j].1, prev_placed[j].0, q);
                    assert(placed[j] == prev_placed[j]);
                }
            }
            if i + 1 == cells@.len() && sx >= 8 && sy >= 6 && level < WEIGHT_ROWS {
                found = Some(lemma_room_keeps_ground(tiles, (sx, sy), offset, level, c, rx, ry));
            } else {
                found = None;
            }
        }
        i = i + 1;
    }
    let ghost stamped = tiles;
    carve_corridors(&mut tiles, &cells);
    let ghost before_ladders = tiles;
    proof {
        if let Some(g) = found {
            assert(tiles.spec_get(g) == Some(Tile::Ground));
            assert(!off_lines(ladder_up_pos()));
            assert(has_ground_off(tiles, ladder_up_pos()));
        }
    }
    place_ladders(&mut tiles, level);
    proof {
        assert forall|j: int| 0 <= j < placed.len() implies room_finished(tiles, (#[trigger] placed[j]).0, placed[j].1) by {
            assert(room_stamped(stamped, placed[j].0, placed[j].1));
            let (sz, o) = placed[j];
            assert forall|x: int, y: int| 0 <= x <= sz.0 + 1 && 0 <= y <= sz.1 + 1 implies {
                let k = #[trigger] tiles.spec_get(block_pos(o, x, y));
                if on_ring(sz, x, y) {
                    k == Some(Tile::Wall) || k == Some(Tile::Path) || k == Some(Tile::LadderUp)
                } else {
                    k is Some && k != Some(Tile::Wall)
                }
            } by {
                let q = block_pos(o, x, y);
                assert(stamped.spec_get(q) == stamped.spec_get(block_pos(o, x, y)));
                assert(before_ladders.spec_get(q) == stamped.spec_get(q) || before_ladders.spec_get(q) == Some(Tile::Path));
                if q == ladder_up_pos() {
                } else {
                    assert(tiles.spec_get(q) == before_ladders.spec_get(q) || (before_ladders.spec_get(q) == Some(Tile::Ground) && tiles.spec_get(q) == Some(Tile::LadderDown)));
                }
            }
        }
        assert forall|q: IVec2| #[trigger] tiles.spec_get(q) is Some implies in_some_room(placed, q) || on_corridor_line(cells@, q)
            || q == ladder_up_pos() by {
            if q != ladder_up_pos() {
                assert(before_ladders.spec_get(q) is Some);
                assert(stamped.spec_get(q) is Some || on_corridor_line(cells@, q));
            }
        }
        assert forall|q: IVec2| #[trigger] tiles.spec_get(q) is Some && tiles.spec_get(q) != Some(Tile::Path) && q != ladder_up_pos()
            implies in_some_room(placed, q) by {
            assert(before_ladders.spec_get(q) == stamped.spec_get(q) || before_ladders.spec_get(q) == Some(Tile::Path));
            assert(stamped.spec_get(q) is Some);
        }
        assert(level_rooms(tiles, cells@, placed, rooms, size_x, size_y));
    }
    tiles
}

/// The rooms of a generated level: a layout of cells, and for each cell a
/// room placed in its slot with a floor size in range, finished as a room.
pub open spec fn level_rooms(
    t: Tilemap,
    cells: Seq<IVec2>,
    placed: Seq<((u32, u32), IVec2)>,
    rooms: (u32, u32),
    size_x: (u32, u32),
    size_y: (u32, u32),
) -> bool {
    &&& room_layout(cells, rooms)
    &&& placed.len() == cells.len()
    &&& forall|j: int| 0 <= j < cells.len() ==> room_placed(cells[j], (#[trigger] placed[j]).0, placed[j].1, size_x, size_y)
    &&& forall|j: int| 0 <= j < cells.len() ==> room_finished(t, (#[trigger] placed[j]).0, placed[j].1)
    &&& forall|q: IVec2|
        #[trigger] t.spec_get(q) is Some ==> in_some_room(placed, q) || on_corridor_line(cells, q) || q == ladder_up_pos()
    &&& forall|q: IVec2|
        #[trigger] t.spec_get(q) is Some && t.spec_get(q) != Some(Tile::Path) && q != ladder_up_pos() ==> in_some_room(placed, q)
}

/// Floor is enclosed: a ground, marker or down-ladder tile of a generated
/// level has all four neighbours on the map.
pub proof fn lemma_floor_enclosed(
    t: Tilemap,
    cells: Seq<IVec2>,
    placed: Seq<((u32, u32), IVec2)>,
    rooms: (u32, u32),
    size_x: (u32, u32),
    size_y: (u32, u32),
    q: IVec2,
)
    requires
        level_rooms(t, cells, placed, rooms, size_x, size_y),
        t.spec_get(ladder_up_pos()) == Some(Tile::LadderUp),
        t.spec_get(q) == Some(Tile::Ground) || t.spec_get(q) == Some(Tile::Enemy) || t.spec_get(q) == Some(Tile::LadderDown),
    ensures
        t.spec_get(IVec2 { x: (q.x + 1) as i32, y: q.y }) is Some,
        t.spec_get(IVec2 { x: (q.x - 1) as i32, y: q.y }) is Some,
        t.spec_get(IVec2 { x: q.x, y: (q.y + 1) as i32 }) is Some,
        t.spec_get(IVec2 { x: q.x, y: (q.y - 1) as i32 }) is Some,
{
    assert(q != ladder_up_pos());
    assert(in_some_room(placed, q));
    let j = choose|j: int| 0 <= j < placed.len() && #[trigger] in_block(placed[j].1, placed[j].0, q);
    assert(placed.len() == cells.len());
    let (sz, o) = placed[j];
    assert(room_placed(cells[j], placed[j].0, placed[j].1, size_x, size_y));
    assert(room_finished(t, placed[j].0, placed[j].1));
    let x = q.x - o.x;
    let y = q.y - o.y;
    assert(block_pos(o, x, y) == q);
    assert(!on_ring(sz, x, y));
    assert(block_pos(o, x + 1, y) == (IVec2 { x: (q.x + 1) as i32, y: q.y }));
    assert(block_pos(o, x - 1, y) == (IVec2 { x: (q.x - 1) as i32, y: q.y }));
    assert(block_pos(o, x, y + 1) == (IVec2 { x: q.x, y: (q.y + 1) as i32 }));
    assert(block_pos(o, x, y - 1) == (IVec2 { x: q.x, y: (q.y - 1) as i32 }));
}

/// The block of a room with a floor of `size` at `offset` lies within the
/// slot of cell `c`, and the floor size is within the given ranges.
pub open spec fn room_placed(c: IVec2, size: (u32, u32), offset: IVec2, size_x: (u32, u32), size_y: (u32, u32)) -> bool {
    &&& in_grid(c)
    &&& size_x.0 <= size.0 <= size_x.1 < ROOM_SEP_X
    &&& size_y.0 <= size.1 <= size_y.1 < ROOM_SEP_Y
    &&& c.x * 15 <= offset.x && offset.x + size.0 + 1 <= c.x * 15 + 15
    &&& c.y * 11 <= offset.y && offset.y + size.1 + 1 <= c.y * 11 + 11
}

/// A freshly stamped room: walls on its ring, ground or markers inside.
pub open spec fn room_stamped(t: Tilemap, size: (u32, u32), offset: IVec2) -> bool {
    forall|x: int, y: int|
        0 <= x <= size.0 + 1 && 0 <= y <= size.1 + 1 ==> {
            let k = #[trigger] t.spec_get(block_pos(offset, x, y));
            if on_ring(size, x, y) {
                k == Some(Tile::Wall)
            } else {
                k == Some(Tile::Ground) || k == Some(Tile::Enemy)
            }
        }
}

/// A room of the finished level: its ring is wall, except where a corridor
/// passes or the up ladder stands, and inside it there is no wall.
pub open spec fn room_finished(t: Tilemap, size: (u32, u32), offset: IVec2) -> bool {
    forall|x: int, y: int|
        0 <= x <= size.0 + 1 && 0 <= y <= size.1 + 1 ==> {
            let k = #[trigger] t.spec_get(block_pos(offset, x, y));
            if on_ring(size, x, y) {
                k == Some(Tile::Wall) || k == Some(Tile::Path) || k == Some(Tile::LadderUp)
            } else {
                k is Some && k != Some(Tile::Wall)
            }
        }
}

/// Stamping a room in another cell's slot leaves an earlier room as stamped:
/// the new block meets the old one at most on both rings, where it writes
/// walls.
proof fn lemma_room_survives(
    t0: Tilemap,
    t1: Tilemap,
    cj: IVec2,
    sj: (u32, u32),
    oj: IVec2,
    c: IVec2,
    s: (u32, u32),
    o: IVec2,
    size_x: (u32, u32),
    size_y: (u32, u32),
)
    requires
        room_placed(cj, sj, oj, size_x, size_y),
        room_placed(c, s, o, size_x, size_y),
        cj != c,
        room_stamped(t0, sj, oj),
        room_stamped(t1, s, o),
        forall|q: IVec2| !in_block(o, s, q) ==> #[trigger] t1.spec_get(q) == t0.spec_get(q),
    ensures
        room_stamped(t1, sj, oj),
{
    assert(c.x != cj.x ==> c.x * 15 - cj.x * 15 >= 15 || cj.x * 15 - c.x * 15 >= 15) by (nonlinear_arith);
    assert(c.y != cj.y ==> c.y * 11 - cj.y * 11 >= 11 || cj.y * 11 - c.y * 11 >= 11) by (nonlinear_arith);
    assert forall|x: int, y: int| 0 <= x <= sj.0 + 1 && 0 <= y <= sj.1 + 1 implies {
        let k = #[trigger] t1.spec_get(block_pos(oj, x, y));
        if on_ring(sj, x, y) {
            k == Some(Tile::Wall)
        } else {
            k == Some(Tile::Ground) || k == Some(Tile::Enemy)
        }
    } by {
        let q = block_pos(oj, x, y);
        assert(t0.spec_get(block_pos(oj, x, y)) == t0.spec_get(q));
        if in_block(o, s, q) {
            let x2 = q.x - o.x;
            let y2 = q.y - o.y;
            assert(block_pos(o, x2, y2) == q);
            assert(on_ring(s, x2, y2));
            assert(on_ring(sj, x, y));
        }
    }
}

/// A layout of rooms on the room grid: between `rooms.0` and `rooms.1`
/// distinct cells, the first at the origin, each later one next to an
/// earlier one, so that all are connected to the origin.
pub open spec fn room_layout(cells: Seq<IVec2>, rooms: (u32, u32)) -> bool {
    &&& rooms.0 <= cells.len() <= rooms.1
    &&& forall|i: int, j: int| 0 <= i < j < cells.len() ==> cells[i] != cells[j]
    &&& forall|i: int| 0 <= i < cells.len() ==> in_grid(#[trigger] cells[i])
    &&& cells.len() > 0 ==> cells[0] == (IVec2 { x: 0, y: 0 })
    &&& forall|m: int| 1 <= m < cells.len() ==> next_to_some(cells, m, #[trigger] cells[m])
}

/// A room with a floor of at least eight by six, stamped at `offset` inside
/// the slot of cell `c`, keeps a ground tile off every corridor line: it has
/// more such floor tiles than a depth of the spawning table lays markers.
proof fn lemma_room_keeps_ground(tiles: Tilemap, size: (u32, u32), offset: IVec2, level: u32, c: IVec2, rx: u32, ry: u32) -> (g: IVec2)
    requires
        8 <= size.0 < ROOM_SEP_X,
        6 <= size.1 < ROOM_SEP_Y,
        level < WEIGHT_ROWS,
        rx < ROOM_SEP_X - size.0,
        ry < ROOM_SEP_Y - size.1,
        in_grid(c),
        offset.x == rx + c.x * 15,
        offset.y == ry + c.y * 11,
        exists|ms: Seq<(u32, u32)>| {
            &&& #[trigger] room_markers(size, level, ms)
            &&& forall|x: int, y: int|
                1 <= x <= size.0 && 1 <= y <= size.1 ==> #[trigger] tiles.spec_get(block_pos(offset, x, y)) == Some(
                    if ms.contains((x as u32, y as u32)) { Tile::Enemy } else { Tile::Ground },
                )
        },
    ensures
        off_lines(g),
        tiles.spec_get(g) == Some(Tile::Ground),
{
    let ms = choose|ms: Seq<(u32, u32)>| {
        &&& #[trigger] room_markers(size, level, ms)
        &&& forall|x: int, y: int|
            1 <= x <= size.0 && 1 <= y <= size.1 ==> #[trigger] tiles.spec_get(block_pos(offset, x, y)) == Some(
                if ms.contains((x as u32, y as u32)) { Tile::Enemy } else { Tile::Ground },
            )
    };
    assert(size.0 * size.1 >= 48) by (nonlinear_arith)
        requires size.0 >= 8, size.1 >= 6;
    assert(ms.len() <= 7);
    let a: u32 = if rx >= 3 { 5 } else { 1 };
    let b: u32 = if ry >= 3 { 3 } else { 1 };
    let (a1, a2, a3, b1) = ((a + 1) as u32, (a + 2) as u32, (a + 3) as u32, (b + 1) as u32);
    let cands: Seq<(u32, u32)> = seq![(a, b), (a1, b), (a2, b), (a3, b), (a, b1), (a1, b1), (a2, b1), (a3, b1)];
    assert(cands.no_duplicates());
    lemma_pigeonhole(cands, ms);
    let k = choose|k: int| 0 <= k < cands.len() && !ms.contains(#[trigger] cands[k]);
    let (xl, yl) = cands[k];
    assert(1 <= xl <= size.0 && 1 <= yl <= size.1);
    let g = block_pos(offset, xl as int, yl as int);
    assert(tiles.spec_get(g) == Some(Tile::Ground));
    lemma_fundamental_div_mod_converse(g.x as int, 15, c.x as int, rx + xl);
    lemma_fundamental_div_mod_converse(g.y as int, 11, c.y as int, ry + yl);
    g
}

/// Generates the level of depth `level` with the game's room counts and
/// sizes: two to five rooms, floors eight to eleven tiles wide and six to
/// seven high. Every depth of the spawning table but the final one has
/// exactly one down ladder.
pub fn init(level: u32) -> (r: Tilemap)
    ensures
        r.wf(),
        exists|cells: Seq<IVec2>, placed: Seq<((u32, u32), IVec2)>| #[trigger] level_rooms(r, cells, placed, (2, 5), (8, 11), (6, 7)),
        level != FINAL_DEPTH && level < WEIGHT_ROWS ==> r.count(Tile::LadderDown) == 1,
        r.spec_get(ladder_up_pos()) == Some(Tile::LadderUp),
        r.count(Tile::LadderUp) == 1,
        level == FINAL_DEPTH ==> r.count(Tile::LadderDown) == 0,
        level != FINAL_DEPTH ==> r.count(Tile::LadderDown) == 1 || r.count(Tile::Ground) == 0,
{
    generate_level(
        level,
        (2, 5),
        (ROOM_SEP_X / 2 + 1, ROOM_SEP_X - 4),
        (ROOM_SEP_Y / 2 + 1, ROOM_SEP_Y - 4),
    )
}

/// The atlas indices that may show a tile of kind `t`.
pub open spec fn tile_sprite_ok(t: Tile, idx: usize) -> bool {
    let w = 49int;
    match t {
        Tile::Ground => idx == 0 || idx == 1 || idx == 2 || idx == 5 || idx == 6 || idx == 7 || idx == w * 6 + 16,
        Tile::Path => 1 <= idx <= 4,
        Tile::Wall => idx == w * 13 || idx == w * 17 + 10 || idx == w * 17 + 13 || idx == w * 18 + 10,
        Tile::LadderDown => idx == w * 6 + 3,
        Tile::LadderUp => idx == w * 6 + 2,
        _ => idx == 0,
    }
}

/// Picks one of the equivalent sprites of a tile kind.
pub fn tile_to_index(tile: Tile) -> (r: usize)
    ensures
        tile_sprite_ok(tile, r),
{
    let w: usize = 49;
    match tile {
        Tile::Ground => {
            let opts = vec![0usize, 0, 1, 2, 5, 6, 7, w * 6 + 16];
            choose_one(&opts)
        },
        Tile::Path => {
            let opts = vec![1usize, 2, 3, 4];
            choose_one(&opts)
        },
        Tile::Wall => {
            let opts = vec![w * 13, w * 17 + 10, w * 17 + 13, w * 18 + 10];
            choose_one(&opts)
        },
        Tile::LadderDown => w * 6 + 3,
        Tile::LadderUp => w * 6 + 2,
        _ => 0,
    }
}

/// How many spawned creatures are the end-game artifact.
pub open spec fn count_artifacts(s: Seq<(Enemy, usize)>) -> nat
    decreases s.len(),
{
    if s.len() == 0 {
        0
    } else {
        count_artifacts(s.drop_last()) + (if s.last().0.typ == EnemyType::EndGame { 1nat } else { 0nat })
    }
}

/// A spawned creature, with its sprite, stands on a marker tile of `tiles`
/// with its type's starting health; pickups are basic, and every creature but
/// the artifact is one that the depth's weights can draw.
pub open spec fn spawned_ok(tiles: Tilemap, level: u32, s: (Enemy, usize)) -> bool {
    &&& tiles.spec_get(s.0.pos) == Some(Tile::Enemy)
    &&& sprite_ok(s.0.typ, s.1)
    &&& s.0.health == base_health(s.0.typ)
    &&& is_pickup(s.0.typ) ==> s.0.elem == Element::Basic
    &&& s.0.typ != EnemyType::EndGame ==> possible_type(level, s.0.typ)
    &&& s.0.typ == EnemyType::EndGame ==> s.0.elem == Element::Basic && level == FINAL_DEPTH
}

/// Spawns a creature, with its sprite, on every marker tile of the level, in
/// storage order. On the final depth the first marker holds the end-game
/// artifact and no other does; elsewhere there is none.
pub fn spawn_enemies(tiles: &Tilemap, level: u32) -> (r: Vec<(Enemy, usize)>)
    requires
        tiles.wf(),
        level < WEIGHT_ROWS,
    ensures
        r@.len() == tiles.count(Tile::Enemy),
        forall|j: int| 0 <= j < r@.len() ==> spawned_ok(*tiles, level, #[trigger] r@[j]),
        forall|j: int, k: int| 0 <= j < k < r@.len() ==> r@[j].0.pos != r@[k].0.pos,
        count_artifacts(r@) == (if level == FINAL_DEPTH && r@.len() > 0 { 1nat } else { 0nat }),
{
    let mut out: Vec<(Enemy, usize)> = Vec::new();
    let ghost mut src: Seq<int> = Seq::empty();
    let mut unique = false;
    let mut i: usize = 0;
    let n = tiles.len();
    while i < n
        invariant
            tiles.wf(),
            level < WEIGHT_ROWS,
            n == tiles@.len(),
            i <= n,
            out@.len() == count_kind(tiles@.take(i as int), Tile::Enemy),
            unique == (level == FINAL_DEPTH && out@.len() > 0),
            count_artifacts(out@) == (if unique { 1nat } else { 0nat }),
            forall|j: int| 0 <= j < out@.len() ==> spawned_ok(*tiles, level, #[trigger] out@[j]),
            src.len() == out@.len(),
            forall|j: int| 0 <= j < src.len() ==> 0 <= #[trigger] src[j] < i && out@[j].0.pos == tiles@[src[j]].0,
            forall|j: int, k: int| 0 <= j < k < src.len() ==> src[j] < src[k],
        decreases n - i,
    {
        let (pos, kind) = tiles.entry(i);
        proof {
            assert(tiles@.take(i + 1).drop_last() =~= tiles@.take(i as int));
            lemma_find_at(tiles@, i as int);
        }
        if matches!(kind, Tile::Enemy) {
            let ghost before = out@;
            let spawned = get_enemy(pos, level, &mut unique);
            out.push(spawned);
            proof {
                assert(out@.drop_last() =~= before);
                src = src.push(i as int);
            }
        }
        i = i + 1;
    }
    proof {
        assert(tiles@.take(n as int) =~= tiles@);
        assert forall|j: int, k: int| 0 <= j < k < out@.len() implies out@[j].0.pos != out@[k].0.pos by {
            assert(src[j] < src[k]);
        }
    }
    out
}

} // verus!
