//! Buying and refunding upgrades between runs.

use crate::data::{SaveData, MAX_UPGRADE};
use crate::enemy::sat_add;
use vstd::prelude::*;

verus! {

/// What the shop sells.
#[derive(Clone, Copy, Debug, PartialEq, Eq, Structural)]
pub enum Upgrade {
    Range,
    Battery,
    Basic,
    Fire,
    Water,
    Grass,
}

/// The price of the step from upgrade level `l` to the next: ten per level up
/// to the tenth, 999 for the eleventh, and none beyond.
pub open spec fn spec_price(l: int) -> Option<u32> {
    if 0 <= l < 10 {
        Some((10 * (l + 1)) as u32)
    } else if l == 10 {
        Some(999)
    } else {
        None
    }
}

pub fn price(l: u64) -> (r: Option<u32>)
    ensures
        r == spec_price(l as int),
{
    if l < 10 {
        Some((10 * (l + 1)) as u32)
    } else if l == 10 {
        Some(999)
    } else {
        None
    }
}

/// The current level of an upgrade.
pub open spec fn level_of(s: SaveData, u: Upgrade) -> int {
    match u {
        Upgrade::Range => s.range_level as int,
        Upgrade::Battery => s.battery_level as int,
        Upgrade::Basic => s.attack_level as int,
        Upgrade::Fire => s.fire as int,
        Upgrade::Water => s.water as int,
        Upgrade::Grass => s.grass as int,
    }
}

/// `s` with upgrade `u` at level `l`.
pub open spec fn with_level(s: SaveData, u: Upgrade, l: int) -> SaveData {
    match u {
        Upgrade::Range => SaveData { range_level: l as usize, ..s },
        Upgrade::Battery => SaveData { battery_level: l as usize, ..s },
        Upgrade::Basic => SaveData { attack_level: l as usize, ..s },
        Upgrade::Fire => SaveData { fire: l as u32, ..s },
        Upgrade::Water => SaveData { water: l as u32, ..s },
        Upgrade::Grass => SaveData { grass: l as u32, ..s },
    }
}

/// Whether an upgrade is capped at the shop's top level.
pub open spec fn capped(u: Upgrade) -> bool {
    u == Upgrade::Range || u == Upgrade::Battery || u == Upgrade::Basic
}

fn current_level(save: &SaveData, u: Upgrade) -> (r: u64)
    requires
        save.wf(),
    ensures
        r == level_of(*save, u),
{
    match u {
        Upgrade::Range => save.range_level as u64,
        Upgrade::Battery => save.battery_level as u64,
        Upgrade::Basic => save.attack_level as u64,
        Upgrade::Fire => save.fire as u64,
        Upgrade::Water => save.water as u64,
        Upgrade::Grass => save.grass as u64,
    }
}

fn set_level(save: &mut SaveData, u: Upgrade, l: u64)
    requires
        capped(u) ==> l <= MAX_UPGRADE,
        !capped(u) ==> l <= u32::MAX,
    ensures
        *final(save) == with_level(*old(save), u, l as int),
{
    match u {
        Upgrade::Range => save.range_level = l as usize,
        Upgrade::Battery => save.battery_level = l as usize,
        Upgrade::Basic => save.attack_level = l as usize,
        Upgrade::Fire => save.fire = l as u32,
        Upgrade::Water => save.water = l as u32,
        Upgrade::Grass => save.grass = l as u32,
    }
}

/// Buys one level of `u` when it is for sale and affordable: the range,
/// battery and attack upgrades stop at the top level, and the elemental ones
/// once no price is left. Returns whether the purchase happened.
pub fn buy_upgrade(save: &mut SaveData, u: Upgrade) -> (r: bool)
    requires
        old(save).wf(),
    ensures
        final(save).wf(),
        r == ({
            let l = level_of(*old(save), u);
            &&& !(capped(u) && l >= MAX_UPGRADE)
            &&& spec_price(l) is Some
            &&& old(save).money >= spec_price(l).unwrap()
        }),
        r ==> *final(save) == (SaveData {
            money: (old(save).money - spec_price(level_of(*old(save), u)).unwrap()) as u32,
            ..with_level(*old(save), u, level_of(*old(save), u) + 1)
        }),
        !r ==> *final(save) == *old(save),
{
    let l = current_level(save, u);
    let capped_now = match u {
        Upgrade::Range | Upgrade::Battery | Upgrade::Basic => l >= MAX_UPGRADE as u64,
        _ => false,
    };
    if capped_now {
        return false;
    }
    match price(l) {
        Some(p) => {
            if save.money >= p {
                save.money = save.money - p;
                set_level(save, u, l + 1);
                true
            } else {
                false
            }
        },
        None => false,
    }
}

/// Refunds one level of `u` when it has any: the level drops by one and the
/// price of that level comes back. Returns whether the refund happened.
pub fn sell_upgrade(save: &mut SaveData, u: Upgrade) -> (r: bool)
    requires
        old(save).wf(),
    ensures
        final(save).wf(),
        r == (level_of(*old(save), u) > 0 && spec_price(level_of(*old(save), u) - 1) is Some),
        r ==> *final(save) == (SaveData {
            money: sat_add(old(save).money, spec_price(level_of(*old(save), u) - 1).unwrap()),
            ..with_level(*old(save), u, level_of(*old(save), u) - 1)
        }),
        !r ==> *final(save) == *old(save),
{
    let l = current_level(save, u);
    if l == 0 {
        return false;
    }
    match price(l - 1) {
        Some(p) => {
            set_level(save, u, l - 1);
            save.money = if save.money as u64 + p as u64 > u32::MAX as u64 { u32::MAX } else { save.money + p };
            true
        },
        None => false,
    }
}

} // verus!
