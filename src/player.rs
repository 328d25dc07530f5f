//! The player's turn: the low-connection input scramble, and moving,
//! attacking or bumping into a wall.

use crate::data::{max_range, spec_max_range, SaveData};
use crate::enemy::Enemy;
use crate::misc::{dir_offset, direction_from_index, spec_direction_from_index, step, Direction, IVec2};
use crate::rng::random_range;
use crate::tilemap::{Tile, Tilemap};
use crate::PlayState;
use vstd::prelude::*;

verus! {

/// A warning about the player's resources.
#[derive(Clone, Copy, Debug, PartialEq, Eq, Structural)]
pub enum Status {
    BatteryLow,
    BatteryEmpty,
    ConnectionLow,
    ConnectionEmpty,
}

/// A status warning raised for the player.
#[derive(Clone, Copy, Debug, PartialEq, Eq, Structural)]
pub struct StatusEvent(pub Status);

/// Depths left before the range runs out, from zero up to four.
pub open spec fn spec_rooms_left(save: SaveData) -> int {
    let left = spec_max_range(save.range_level) - save.level;
    if left < 0 { 0 } else if left > 4 { 4 } else { left }
}

/// The chance, in percent, that a move goes in a random direction: 50 with
/// no depth left, then 35, 20 and 10, and none from four depths left.
pub open spec fn spec_wrong_move_percent(save: SaveData) -> u32 {
    let left = spec_rooms_left(save);
    if left == 0 { 50 } else if left == 1 { 35 } else if left == 2 { 20 } else if left == 3 { 10 } else { 0 }
}

pub fn wrong_move_percent(save: &SaveData) -> (r: u32)
    requires
        save.wf(),
    ensures
        r == spec_wrong_move_percent(*save),
{
    let range = max_range(save.range_level);
    let left = if range > save.level { range - save.level } else { 0 };
    let left = if left > 4 { 4 } else { left };
    match left {
        0 => 50,
        1 => 35,
        2 => 20,
        3 => 10,
        _ => 0,
    }
}

/// The direction that a move takes: `chance` (taken modulo 100) below the
/// wrong-move percentage replaces the intended direction by the one that
/// `dir_draw` selects. The flag tells whether it was replaced.
pub fn choose_direction(save: &SaveData, intended: Direction, chance: u32, dir_draw: u32) -> (r: (Direction, bool))
    requires
        save.wf(),
    ensures
        r.1 == (chance % 100 < spec_wrong_move_percent(*save)),
        r.0 == (if r.1 { spec_direction_from_index(dir_draw) } else { intended }),
{
    if chance % 100 < wrong_move_percent(save) {
        (direction_from_index(dir_draw), true)
    } else {
        (intended, false)
    }
}

/// Draws whether the low connection scrambles a move toward `intended`.
pub fn scramble_direction(save: &SaveData, intended: Direction) -> (r: (Direction, bool))
    requires
        save.wf(),
    ensures
        !r.1 ==> r.0 == intended,
        r.1 ==> spec_wrong_move_percent(*save) > 0,
{
    let chance = random_range(0, 100);
    let dir_draw = random_range(0, 4);
    choose_direction(save, intended, chance, dir_draw)
}

/// What the player's move came to.
#[derive(Clone, Copy, Debug, PartialEq, Eq, Structural)]
pub enum PlayerMove {
    /// Nothing happened: the battery is empty or the target lies off the map.
    Stay,
    /// The player ran into creature `idx`: an attack on it.
    Attack { idx: usize, dir: Direction },
    /// The player bumped into a wall.
    Blocked { dir: Direction },
    /// The player moved; `next` is the play state that the tile asks for.
    Moved { from: IVec2, to: IVec2, next: Option<PlayState> },
}

/// The tile one step from `p` toward `dir`.
pub open spec fn spec_step(p: IVec2, dir: Direction) -> IVec2 {
    IVec2 { x: (p.x + dir_offset(dir).0) as i32, y: (p.y + dir_offset(dir).1) as i32 }
}

/// Some creature stands at `p`.
pub open spec fn occupied(enemies: Seq<Enemy>, p: IVec2) -> bool {
    exists|j: int| 0 <= j < enemies.len() && enemies[j].pos == p
}

/// The play state that stepping on a tile asks for: a ladder up leads to the
/// shop, a ladder down to the next level.
pub open spec fn ladder_state(t: Tile) -> Option<PlayState> {
    match t {
        Tile::LadderUp => Some(PlayState::ToShop),
        Tile::LadderDown => Some(PlayState::ToLevel),
        _ => None,
    }
}

/// A coordinate that can be stepped from in every direction.
pub open spec fn steppable(p: IVec2) -> bool {
    i32::MIN < p.x < i32::MAX && i32::MIN < p.y < i32::MAX
}

/// Plays the player's move in direction `dir`. With an empty battery nothing
/// happens. A creature on the target tile is attacked, the first one when
/// several stand there, at the cost of one battery unit. Otherwise a wall
/// blocks the move at no cost, a target off the map does nothing, and any
/// other tile is entered at the cost of one battery unit.
pub fn move_player(save: &mut SaveData, player: &mut IVec2, dir: Direction, enemies: &Vec<Enemy>, tiles: &Tilemap) -> (r: PlayerMove)
    requires
        tiles.wf(),
        steppable(*old(player)),
    ensures
        ({
            let target = spec_step(*old(player), dir);
            let spent = SaveData { battery: (old(save).battery - 1) as u32, ..*old(save) };
            if old(save).battery == 0 {
                r == PlayerMove::Stay && *final(save) == *old(save) && *final(player) == *old(player)
            } else if occupied(enemies@, target) {
                &&& r matches PlayerMove::Attack { idx, dir: d }
                &&& d == dir && idx < enemies@.len() && enemies@[idx as int].pos == target
                &&& forall|j: int| 0 <= j < idx ==> enemies@[j].pos != target
                &&& *final(save) == spent
                &&& *final(player) == *old(player)
            } else {
                match tiles.spec_get(target) {
                    None => r == PlayerMove::Stay && *final(save) == *old(save) && *final(player) == *old(player),
                    Some(Tile::Wall) => r == (PlayerMove::Blocked { dir }) && *final(save) == *old(save) && *final(player) == *old(player),
                    Some(t) => {
                        &&& r == (PlayerMove::Moved { from: *old(player), to: target, next: ladder_state(t) })
                        &&& *final(save) == spent
                        &&& *final(player) == target
                    },
                }
            }
        }),
{
    if save.battery == 0 {
        return PlayerMove::Stay;
    }
    let target = step(*player, dir);
    let mut j: usize = 0;
    while j < enemies.len()
        invariant
            j <= enemies@.len(),
            forall|k: int| 0 <= k < j ==> enemies@[k].pos != target,
            save.battery > 0,
            *save == *old(save),
            *player == *old(player),
            target == spec_step(*old(player), dir),
        decreases enemies@.len() - j,
    {
        if enemies[j].pos == target {
            save.battery = save.battery - 1;
            return PlayerMove::Attack { idx: j, dir };
        }
        j = j + 1;
    }
    match tiles.get_tile(target) {
        None => PlayerMove::Stay,
        Some(Tile::Wall) => PlayerMove::Blocked { dir },
        Some(t) => {
            let next = match t {
                Tile::LadderUp => Some(PlayState::ToShop),
                Tile::LadderDown => Some(PlayState::ToLevel),
                _ => None,
            };
            let from = *player;
            *player = target;
            save.battery = save.battery - 1;
            PlayerMove::Moved { from, to: target, next }
        },
    }
}

/// The play state that a status warning asks for: an empty battery ends the
/// run; the other warnings only change how the player is drawn.
pub fn on_status(status: Status) -> (r: Option<PlayState>)
    ensures
        r == (if status == Status::BatteryEmpty { Some(PlayState::GameOver) } else { None }),
{
    match status {
        Status::BatteryEmpty => Some(PlayState::GameOver),
        _ => None,
    }
}

/// The turn event that a player move raises: every move but `Stay` ends the
/// player's turn.
pub fn move_event(m: PlayerMove) -> (r: Option<crate::TurnEvent>)
    ensures
        r == (if m == PlayerMove::Stay { None } else { Some(crate::TurnEvent::PlayerActed) }),
{
    match m {
        PlayerMove::Stay => None,
        _ => Some(crate::TurnEvent::PlayerActed),
    }
}

} // verus!
