//! What the bridge reads of an entity's character state.

use vstd::prelude::*;

verus! {

/// The states that are told apart by more than a predicate.
#[derive(Clone, Copy, Debug, PartialEq, Eq, Structural)]
pub enum CharacterKind {
    Roll { was_cancel: bool },
    Climb,
    Equipping,
    Other,
}

/// The hand that an ability is performed with.
#[derive(Clone, Copy, Debug, PartialEq, Eq, Structural)]
pub enum AbilityHand {
    Main,
    Off,
}

/// An entity's character state: its kind, and what the simulation's predicates say of it.
#[derive(Clone, Copy, Debug, PartialEq, Eq, Structural)]
pub struct CharacterState {
    pub kind: CharacterKind,
    /// The state holds a drawn weapon.
    pub wields: bool,
    pub stealthy: bool,
    /// The glider is out, in the air or in hand.
    pub glide_wielded: bool,
    pub music: bool,
    /// The number of the ability type, where the state is an attack.
    pub attack: Option<u32>,
    /// The hand of the ability that the state comes from, where it comes from one.
    pub hand: Option<AbilityHand>,
}

impl CharacterState {
    /// A state of which no predicate holds.
    pub fn plain(kind: CharacterKind) -> (state: CharacterState)
        ensures
            state == plain_state(kind),
    {
        CharacterState {
            kind,
            wields: false,
            stealthy: false,
            glide_wielded: false,
            music: false,
            attack: None,
            hand: None,
        }
    }
}

/// The state of a kind of which no predicate holds.
pub open spec fn plain_state(kind: CharacterKind) -> CharacterState {
    CharacterState {
        kind,
        wields: false,
        stealthy: false,
        glide_wielded: false,
        music: false,
        attack: None,
        hand: None,
    }
}

/// Whether a character state shows the glider; an entity without a state shows none.
pub open spec fn gliding(state: Option<CharacterState>) -> bool {
    match state {
        Some(state) => state.glide_wielded,
        None => false,
    }
}

/// Whether an entity is drawn with its glider.
pub fn is_gliding(character_state: Option<&CharacterState>) -> (glides: bool)
    ensures
        glides == (character_state matches Some(state) && state.glide_wielded),
{
    match character_state {
        Some(state) => state.glide_wielded,
        None => false,
    }
}

} // verus!
