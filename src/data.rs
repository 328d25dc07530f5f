//! Progression data that the core reads and updates: upgrade levels, the
//! battery, elemental charges, money and counters, with the formulas derived
//! from them.

use crate::enemy::Element;
use crate::player::Status;
use crate::{GameState, PlayState};
use vstd::prelude::*;

verus! {

/// The highest level that the shop sells of the range, battery and attack
/// upgrades.
pub const MAX_UPGRADE: usize = 10;

/// Damage and health are counted in quarter points: an attack of 0.5 is 2.
pub const QUARTERS_PER_POINT: u32 = 4;

/// The player's progression record.
#[derive(Clone, Copy, Debug)]
pub struct SaveData {
    pub level: u32,
    pub battery: u32,
    pub range_level: usize,
    pub battery_level: usize,
    pub attack_level: usize,
    pub fire: u32,
    pub water: u32,
    pub grass: u32,
    pub fire_uses: u32,
    pub water_uses: u32,
    pub grass_uses: u32,
    pub attack_selected: Element,
    pub money: u32,
    pub enemies_killed: u32,
    pub levels_completed: u32,
    pub deaths: u32,
}

impl SaveData {
    /// Upgrade levels stay within what the shop sells.
    pub open spec fn wf(&self) -> bool {
        &&& self.range_level <= MAX_UPGRADE
        &&& self.battery_level <= MAX_UPGRADE
        &&& self.attack_level <= MAX_UPGRADE
    }
}

impl Default for SaveData {
    fn default() -> (r: SaveData)
        ensures
            r.level == 0,
            r.battery == 200,
            r.range_level == 1,
            r.battery_level == 1,
            r.attack_level == 1,
            r.fire == 0 && r.water == 0 && r.grass == 0,
            r.fire_uses == 0 && r.water_uses == 0 && r.grass_uses == 0,
            r.attack_selected == Element::Basic,
            r.money == 0,
            r.enemies_killed == 0 && r.levels_completed == 0 && r.deaths == 0,
    {
        SaveData {
            level: 0,
            battery: 200,
            range_level: 1,
            battery_level: 1,
            attack_level: 1,
            fire: 0,
            water: 0,
            grass: 0,
            fire_uses: 0,
            water_uses: 0,
            grass_uses: 0,
            attack_selected: Element::Basic,
            money: 0,
            enemies_killed: 0,
            levels_completed: 0,
            deaths: 0,
        }
    }
}

pub open spec fn spec_max_range(level: usize) -> int {
    4 + level
}

pub open spec fn spec_max_battery(level: usize) -> int {
    25 + 50 * level
}

/// Attack strength in quarter points: 0.5 + 0.5 * level.
pub open spec fn spec_attack(level: usize) -> int {
    2 * (level + 1)
}

/// The deepest level that the range upgrade reaches.
pub fn max_range(level: usize) -> (r: u32)
    requires
        spec_max_range(level) <= u32::MAX,
    ensures
        r == spec_max_range(level),
{
    (4 + level) as u32
}

/// The battery capacity that the battery upgrade gives.
pub fn max_battery(level: usize) -> (r: u32)
    requires
        spec_max_battery(level) <= u32::MAX,
    ensures
        r == spec_max_battery(level),
{
    (25 + level * 50) as u32
}

/// The base damage of an attack, in quarter points.
pub fn attack(level: usize) -> (r: u32)
    requires
        spec_attack(level) <= u32::MAX,
    ensures
        r == spec_attack(level),
{
    (2 + 2 * level) as u32
}

/// Starts a new run: back to the first depth with a full battery and the
/// elemental charges refilled to their upgrade levels. The game goes to play;
/// the level itself starts at once, except for the very first run, which
/// opens on the menu.
pub fn on_restart(save: &mut SaveData, first_run: bool) -> (r: (GameState, Option<PlayState>))
    requires
        old(save).wf(),
    ensures
        *final(save) == (SaveData {
            level: 0,
            battery: spec_max_battery(old(save).battery_level) as u32,
            fire_uses: old(save).fire,
            water_uses: old(save).water,
            grass_uses: old(save).grass,
            ..*old(save)
        }),
        r == (GameState::Play, if first_run { None } else { Some(PlayState::Play) }),
{
    let battery = max_battery(save.battery_level);
    save.level = 0;
    save.battery = battery;
    save.fire_uses = save.fire;
    save.water_uses = save.water;
    save.grass_uses = save.grass;
    (GameState::Play, if first_run { None } else { Some(PlayState::Play) })
}

/// The warning due after reaching depth `level` with range upgrade
/// `range_level`: out of connection at the range, low two depths before it.
pub open spec fn spec_connection_status(level: u32, range_level: usize) -> Option<Status> {
    if level >= spec_max_range(range_level) {
        Some(Status::ConnectionEmpty)
    } else if level + 2 >= spec_max_range(range_level) {
        Some(Status::ConnectionLow)
    } else {
        None
    }
}

/// Goes one depth down: play starts again on the new level, and the
/// connection warning due there is reported.
pub fn level_transition(save: &mut SaveData) -> (r: (GameState, PlayState, Option<Status>))
    requires
        old(save).wf(),
        old(save).level < u32::MAX - 2,
    ensures
        *final(save) == (SaveData { level: (old(save).level + 1) as u32, ..*old(save) }),
        r.0 == GameState::Play,
        r.1 == PlayState::Play,
        r.2 == spec_connection_status(final(save).level, final(save).range_level),
{
    save.level = save.level + 1;
    let range = max_range(save.range_level);
    let status = if save.level >= range {
        Some(Status::ConnectionEmpty)
    } else if save.level + 2 >= range {
        Some(Status::ConnectionLow)
    } else {
        None
    };
    (GameState::Play, PlayState::Play, status)
}

/// The battery warnings due for the record: low below an eighth of the
/// capacity, empty at zero.
pub fn check_player(save: &SaveData) -> (r: (bool, bool))
    requires
        save.wf(),
    ensures
        r.0 == (save.battery < spec_max_battery(save.battery_level) / 8),
        r.1 == (save.battery == 0),
{
    (save.battery < max_battery(save.battery_level) / 8, save.battery == 0)
}

} // verus!
