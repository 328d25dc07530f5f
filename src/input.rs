//! The abstract actions that the input layer reports, and their effect on
//! the selected attack.

use crate::data::SaveData;
use crate::enemy::{spec_next, spec_prev, Element};
use crate::PlayState;
use vstd::prelude::*;

verus! {

/// An input action, independent of keys and buttons.
#[derive(Clone, Copy, Debug, PartialEq, Eq, Structural)]
pub enum Action {
    Move,
    Pause,
    AttackRegular,
    AttackFire,
    AttackWater,
    AttackGrass,
    NextAttack,
    PreviousAttack,
}

/// The selected attack after `action`.
pub open spec fn spec_selected_after(sel: Element, action: Action) -> Element {
    match action {
        Action::AttackRegular => Element::Basic,
        Action::AttackFire => Element::Fire,
        Action::AttackWater => Element::Water,
        Action::AttackGrass => Element::Grass,
        Action::NextAttack => spec_next(sel),
        Action::PreviousAttack => spec_prev(sel),
        _ => sel,
    }
}

/// Applies a just-pressed action: the attack keys select an element, the
/// next and previous keys cycle through them, and pause asks for the menu.
pub fn handle_input(save: &mut SaveData, action: Action) -> (r: Option<PlayState>)
    ensures
        *final(save) == (SaveData { attack_selected: spec_selected_after(old(save).attack_selected, action), ..*old(save) }),
        r == (if action == Action::Pause { Some(PlayState::Menu) } else { None }),
{
    match action {
        Action::Pause => {
            return Some(PlayState::Menu);
        },
        Action::AttackRegular => save.attack_selected = Element::Basic,
        Action::AttackFire => save.attack_selected = Element::Fire,
        Action::AttackWater => save.attack_selected = Element::Water,
        Action::AttackGrass => save.attack_selected = Element::Grass,
        Action::NextAttack => save.attack_selected.next(),
        Action::PreviousAttack => save.attack_selected.prev(),
        Action::Move => {},
    }
    None
}

} // verus!
