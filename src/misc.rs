//! Grid geometry: integer vectors, the four directions and the move animation
//! directive.

use vstd::prelude::*;

verus! {

/// An integer grid coordinate or offset.
#[derive(Clone, Copy, Debug, PartialEq, Eq, Structural)]
pub struct IVec2 {
    pub x: i32,
    pub y: i32,
}

impl IVec2 {
    pub fn new(x: i32, y: i32) -> (r: IVec2)
        ensures
            r.x == x,
            r.y == y,
    {
        IVec2 { x, y }
    }
}

/// One of the four grid directions.
#[derive(Clone, Copy, Debug, PartialEq, Eq, Structural)]
pub enum Direction {
    North,
    South,
    East,
    West,
}

/// The unit offset of a direction: north is `+y`, east is `+x`.
pub open spec fn dir_offset(dir: Direction) -> (int, int) {
    match dir {
        Direction::North => (0, 1),
        Direction::South => (0, -1),
        Direction::East => (1, 0),
        Direction::West => (-1, 0),
    }
}

/// The direction that a uniform draw in `0..4` stands for.
pub open spec fn spec_direction_from_index(n: u32) -> Direction {
    if n == 0 {
        Direction::North
    } else if n == 1 {
        Direction::South
    } else if n == 2 {
        Direction::East
    } else {
        Direction::West
    }
}

/// Maps a draw to a direction; a draw of 3 or more is west.
pub fn direction_from_index(n: u32) -> (r: Direction)
    ensures
        r == spec_direction_from_index(n),
{
    match n {
        0 => Direction::North,
        1 => Direction::South,
        2 => Direction::East,
        _ => Direction::West,
    }
}

impl Direction {
    /// All four directions, in the order north, south, east, west.
    pub fn iter() -> (r: Vec<Direction>)
        ensures
            r@ == seq![Direction::North, Direction::South, Direction::East, Direction::West],
    {
        let mut v: Vec<Direction> = Vec::new();
        v.push(Direction::North);
        v.push(Direction::South);
        v.push(Direction::East);
        v.push(Direction::West);
        assert(v@ =~= seq![Direction::North, Direction::South, Direction::East, Direction::West]);
        v
    }
}

/// The offset of `val` steps in direction `dir`.
pub fn dir_to_vec(dir: &Direction, val: i32) -> (r: IVec2)
    requires
        val > i32::MIN,
    ensures
        r.x == dir_offset(*dir).0 * val,
        r.y == dir_offset(*dir).1 * val,
{
    match dir {
        Direction::North => IVec2 { x: 0, y: val },
        Direction::South => IVec2 { x: 0, y: -val },
        Direction::East => IVec2 { x: val, y: 0 },
        Direction::West => IVec2 { x: -val, y: 0 },
    }
}

/// The tile one step from `pos` in direction `dir`.
pub fn step(pos: IVec2, dir: Direction) -> (r: IVec2)
    requires
        i32::MIN < pos.x < i32::MAX,
        i32::MIN < pos.y < i32::MAX,
    ensures
        r.x == pos.x + dir_offset(dir).0,
        r.y == pos.y + dir_offset(dir).1,
{
    let d = dir_to_vec(&dir, 1);
    IVec2 { x: pos.x + d.x, y: pos.y + d.y }
}

/// How long a move or bump animation lasts, in milliseconds.
pub const MOVE_DURATION_MS: u32 = 200;

/// A one-shot animation that carries an entity from `start` to `target`, or,
/// with a bump direction, nudges it toward that direction and back.
#[derive(Clone, Copy, Debug)]
pub struct MoveTo {
    pub start: IVec2,
    pub target: IVec2,
    pub bump_dir: Option<Direction>,
    pub elapsed_ms: u32,
    pub duration_ms: u32,
}

/// One tick of a move animation: the time elapsed saturates at the duration,
/// and the tick reports whether it is the one that completed the animation.
pub open spec fn spec_tick(m: MoveTo, delta: u32) -> (MoveTo, bool) {
    let e = if m.elapsed_ms + delta >= m.duration_ms { m.duration_ms as int } else { m.elapsed_ms + delta };
    (MoveTo { elapsed_ms: e as u32, ..m }, m.elapsed_ms < m.duration_ms && e == m.duration_ms)
}

/// How many ticks of `deltas`, run in order from `m`, complete the animation.
pub open spec fn completions(m: MoveTo, deltas: Seq<u32>) -> nat
    decreases deltas.len(),
{
    if deltas.len() == 0 {
        0
    } else {
        let (m2, done) = spec_tick(m, deltas[0]);
        (if done { 1nat } else { 0nat }) + completions(m2, deltas.drop_first())
    }
}

/// The total of a sequence of time steps.
pub open spec fn total(deltas: Seq<u32>) -> int
    decreases deltas.len(),
{
    if deltas.len() == 0 {
        0
    } else {
        deltas[0] + total(deltas.drop_first())
    }
}

impl MoveTo {
    pub open spec fn wf(&self) -> bool {
        self.elapsed_ms <= self.duration_ms && self.duration_ms > 0
    }

    pub open spec fn finished(&self) -> bool {
        self.elapsed_ms == self.duration_ms
    }

    /// A fresh animation from `start` to `target`.
    pub fn new(start: IVec2, target: IVec2, bump_dir: Option<Direction>) -> (r: MoveTo)
        ensures
            r.start == start,
            r.target == target,
            r.bump_dir == bump_dir,
            r.elapsed_ms == 0,
            r.duration_ms == MOVE_DURATION_MS,
            r.wf(),
    {
        MoveTo { start, target, bump_dir, elapsed_ms: 0, duration_ms: MOVE_DURATION_MS }
    }

    /// Advances the animation by `delta_ms`. Returns true on exactly the tick
    /// at which the animation completes: the caller then removes it.
    pub fn tick(&mut self, delta_ms: u32) -> (just_finished: bool)
        requires
            old(self).wf(),
        ensures
            (*final(self), just_finished) == spec_tick(*old(self), delta_ms),
            final(self).wf(),
    {
        let was_running = self.elapsed_ms < self.duration_ms;
        if delta_ms >= self.duration_ms - self.elapsed_ms {
            self.elapsed_ms = self.duration_ms;
        } else {
            self.elapsed_ms = self.elapsed_ms + delta_ms;
        }
        was_running && self.elapsed_ms == self.duration_ms
    }

    /// Progress of the animation in thousandths, from 0 to 1000.
    pub fn fraction_permille(&self) -> (r: u32)
        requires
            self.wf(),
        ensures
            r == self.elapsed_ms * 1000 / self.duration_ms as int,
            r <= 1000,
    {
        let e = self.elapsed_ms as u64;
        let d = self.duration_ms as u64;
        assert((e as int) * 1000 / (d as int) <= 1000) by (nonlinear_arith)
            requires e <= d, d > 0;
        (e * 1000 / d) as u32
    }
}

/// A move animation completes exactly once: over any run of ticks, the number
/// of ticks that report completion is one if the time stepped reaches the
/// remaining duration, and zero otherwise.
pub proof fn lemma_move_to_completes_once(m: MoveTo, deltas: Seq<u32>)
    requires
        m.wf(),
    ensures
        completions(m, deltas) == (if m.elapsed_ms < m.duration_ms && m.elapsed_ms + total(deltas) >= m.duration_ms { 1nat } else { 0nat }),
    decreases deltas.len(),
{
    if deltas.len() > 0 {
        let (m2, _) = spec_tick(m, deltas[0]);
        lemma_move_to_completes_once(m2, deltas.drop_first());
        lemma_total_nonneg(deltas.drop_first());
    }
}

proof fn lemma_total_nonneg(deltas: Seq<u32>)
    ensures
        total(deltas) >= 0,
    decreases deltas.len(),
{
    if deltas.len() > 0 {
        lemma_total_nonneg(deltas.drop_first());
    }
}

} // verus!
