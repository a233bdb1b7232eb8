//! What sounds are played by: how entities move and fight, which instrument they play, and
//! what happened to whom.

use crate::axes::{law_points_are_turned, sim_pos_to_bevy, to_bevy, turned, Vec3Bits};
use crate::character::{AbilityHand, CharacterKind, CharacterState};
use crate::float_bits::{
    below, float_abs, float_lt, law_numbers_are_ordered, law_patterns, magnitude,
};
use crate::net_value::{models, Write};
use crate::text::{copy_text, text_of};
use vstd::prelude::*;

verus! {

/// How an entity moves.
#[derive(Clone, Copy, Debug, PartialEq, Eq, Structural)]
pub enum NetMoveState {
    Idle,
    Roll,
    RollCancel,
    Sneak,
    Climb,
    Glide,
}

/// The number of a kind of ground.
#[derive(Clone, Copy, Debug, PartialEq, Eq, Structural)]
pub struct GroundBlock(pub u32);

/// How an entity moves, and on what. `ground_block` is `None` in the air; an entity without a
/// character state is idle.
#[derive(Clone, Copy, Debug, PartialEq, Eq, Structural)]
pub struct NetLocomotion {
    pub on_ground: bool,
    pub in_liquid: bool,
    pub ground_block: Option<GroundBlock>,
    pub move_state: NetMoveState,
}

/// How an entity fights. `attacking` is the number of the ability type.
#[derive(Clone, Copy, Debug, PartialEq, Eq, Structural)]
pub struct NetCombatMove {
    pub attacking: Option<u32>,
    pub weapon_drawn: bool,
}

/// Whether a weapon is in hand or on its way there.
pub open spec fn drawn(state: CharacterState) -> bool {
    state.wields || state.kind is Equipping
}

/// Whether a weapon is in hand or on its way there.
pub fn weapon_drawn(state: &CharacterState) -> (yes: bool)
    ensures
        yes == drawn(*state),
{
    match state.kind {
        CharacterKind::Equipping => true,
        _ => state.wields,
    }
}

/// How a character state moves. A roll is a roll even where it is stealthy; otherwise stealth
/// goes before climbing, and climbing before gliding.
pub open spec fn move_state(state: CharacterState) -> NetMoveState {
    match state.kind {
        CharacterKind::Roll { was_cancel } => if was_cancel {
            NetMoveState::RollCancel
        } else {
            NetMoveState::Roll
        },
        _ => if state.stealthy {
            NetMoveState::Sneak
        } else if state.kind is Climb {
            NetMoveState::Climb
        } else if state.glide_wielded {
            NetMoveState::Glide
        } else {
            NetMoveState::Idle
        },
    }
}

/// How a character state moves.
pub fn classify_move_state(state: &CharacterState) -> (moves: NetMoveState)
    ensures
        moves == move_state(*state),
{
    if let CharacterKind::Roll { was_cancel } = state.kind {
        return if was_cancel {
            NetMoveState::RollCancel
        } else {
            NetMoveState::Roll
        };
    }
    if state.stealthy {
        return NetMoveState::Sneak;
    }
    if let CharacterKind::Climb = state.kind {
        return NetMoveState::Climb;
    }
    if state.glide_wielded {
        return NetMoveState::Glide;
    }
    NetMoveState::Idle
}

/// The abilities of what is in either hand; `None` for an empty hand, or for something that
/// brings no abilities of its own.
pub struct HandAbilities {
    pub mainhand: Option<String>,
    pub offhand: Option<String>,
}

/// The abilities that belong to what an entity plays: those of the item in the hand that the
/// music comes from, or in the main hand where that is not known. Outside music there are
/// none.
pub open spec fn instrument(state: CharacterState, hands: Option<HandAbilities>) -> Option<
    Seq<char>,
> {
    match hands {
        Some(hands) => if !state.music {
            None
        } else if state.hand == Some(AbilityHand::Off) {
            text_of(hands.offhand)
        } else {
            text_of(hands.mainhand)
        },
        None => None,
    }
}

/// The abilities that belong to what an entity plays. `hands` is `None` where the entity has
/// no inventory.
pub fn playing_instrument(state: &CharacterState, hands: &Option<HandAbilities>) -> (playing: Option<
    String,
>)
    ensures
        text_of(playing) == instrument(*state, *hands),
{
    if !state.music {
        return None;
    }
    let hands = match hands {
        Some(hands) => hands,
        None => {
            return None;
        },
    };
    let off = match state.hand {
        Some(hand) => hand == AbilityHand::Off,
        None => false,
    };
    if off {
        copy_text(&hands.offhand)
    } else {
        copy_text(&hands.mainhand)
    }
}

/// What an entity stands on and in.
#[derive(Clone, Copy, Debug, PartialEq, Eq, Structural)]
pub struct Physics {
    pub on_ground: Option<GroundBlock>,
    pub in_liquid: bool,
}

/// What a pass reads of one mirrored entity.
pub struct SfxRow {
    pub entity: u64,
    pub physics: Option<Physics>,
    pub character_state: Option<CharacterState>,
    pub hands: Option<HandAbilities>,
}

/// What is written to one mirror. `instrument` holds the abilities of what is played, which
/// may be none.
pub struct SfxPlan {
    pub entity: u64,
    pub locomotion: Write<NetLocomotion>,
    pub combat_move: Write<NetCombatMove>,
    pub instrument: Write<Option<String>>,
}

/// An [`SfxPlan`] over text.
pub ghost struct SfxPlanModel {
    pub entity: u64,
    pub locomotion: Write<NetLocomotion>,
    pub combat_move: Write<NetCombatMove>,
    pub instrument: Write<Option<Seq<char>>>,
}

impl View for SfxPlan {
    type V = SfxPlanModel;

    open spec fn view(&self) -> SfxPlanModel {
        SfxPlanModel {
            entity: self.entity,
            locomotion: self.locomotion,
            combat_move: self.combat_move,
            instrument: match self.instrument {
                Write::Put(playing) => Write::Put(text_of(playing)),
                Write::Keep => Write::Keep,
                Write::Remove => Write::Remove,
            },
        }
    }
}

/// What is written for one row. Each component is written on every pass while the entity has
/// what it comes from.
pub open spec fn sfx_plan(row: SfxRow) -> SfxPlanModel {
    SfxPlanModel {
        entity: row.entity,
        locomotion: match row.physics {
            Some(physics) => Write::Put(
                NetLocomotion {
                    on_ground: physics.on_ground is Some,
                    in_liquid: physics.in_liquid,
                    ground_block: physics.on_ground,
                    move_state: match row.character_state {
                        Some(state) => move_state(state),
                        None => NetMoveState::Idle,
                    },
                },
            ),
            None => Write::Remove,
        },
        combat_move: match row.character_state {
            Some(state) => Write::Put(
                NetCombatMove { attacking: state.attack, weapon_drawn: drawn(state) },
            ),
            None => Write::Remove,
        },
        instrument: match row.character_state {
            Some(state) => Write::Put(instrument(state, row.hands)),
            None => Write::Remove,
        },
    }
}

/// Plans what is written to one mirror.
pub fn plan_sfx(row: &SfxRow) -> (plan: SfxPlan)
    ensures
        plan@ == sfx_plan(*row),
{
    let locomotion = match row.physics {
        Some(physics) => Write::Put(
            NetLocomotion {
                on_ground: physics.on_ground.is_some(),
                in_liquid: physics.in_liquid,
                ground_block: physics.on_ground,
                move_state: match &row.character_state {
                    Some(state) => classify_move_state(state),
                    None => NetMoveState::Idle,
                },
            },
        ),
        None => Write::Remove,
    };
    match &row.character_state {
        Some(state) => SfxPlan {
            entity: row.entity,
            locomotion,
            combat_move: Write::Put(
                NetCombatMove { attacking: state.attack, weapon_drawn: weapon_drawn(state) },
            ),
            instrument: Write::Put(playing_instrument(state, &row.hands)),
        },
        None => SfxPlan {
            entity: row.entity,
            locomotion,
            combat_move: Write::Remove,
            instrument: Write::Remove,
        },
    }
}

/// One pass over all mirrored entities.
pub fn mirror_locomotion_and_combat_state(rows: &Vec<SfxRow>) -> (plans: Vec<SfxPlan>)
    ensures
        models(plans@) == rows@.map_values(|row: SfxRow| sfx_plan(row)),
{
    let mut plans: Vec<SfxPlan> = Vec::new();
    let mut i: usize = 0;
    while i < rows.len()
        invariant
            i <= rows.len(),
            plans@.len() == i,
            forall|j: int| 0 <= j < i ==> (#[trigger] plans@[j])@ == sfx_plan(rows@[j]),
        decreases rows.len() - i,
    {
        plans.push(plan_sfx(&rows[i]));
        i += 1;
    }
    assert(models(plans@) =~= rows@.map_values(|row: SfxRow| sfx_plan(row)));
    plans
}

/// How far an entity is off balance.
#[derive(Clone, Copy, Debug, PartialEq, Eq, Structural)]
pub enum PoiseState {
    Normal,
    /// Any other state, by its number.
    Shaken(u32),
}

/// Something that happened in the simulation. Positions are the simulation's; powers and
/// amounts are bit patterns.
#[derive(Clone, Copy, Debug, PartialEq, Eq, Structural)]
pub enum Outcome {
    Explosion { pos: Vec3Bits, power: u32 },
    HealthChange { pos: Vec3Bits, amount: u32, by_buff: bool },
    Death { pos: Vec3Bits },
    Block { pos: Vec3Bits, parry: bool },
    PoiseChange { pos: Vec3Bits, state: PoiseState },
    Other,
}

/// Something that sounds.
#[derive(Clone, Copy, Debug, PartialEq, Eq, Structural)]
pub enum NetOutcome {
    Explosion { pos: Vec3Bits, power: u32 },
    Damage { pos: Vec3Bits },
    Death { pos: Vec3Bits },
    Block { pos: Vec3Bits, parry: bool },
    PoiseChange { pos: Vec3Bits, state: PoiseState },
}

/// What sounds of an outcome. A change of health sounds where it is a loss and no buff caused
/// it, a change of balance where it is lost; an explosion sounds by its absolute
/// power.
pub open spec fn sound_of(outcome: Outcome) -> Option<NetOutcome> {
    match outcome {
        Outcome::Explosion { pos, power } => Some(
            NetOutcome::Explosion { pos: to_bevy(pos), power: magnitude(power) },
        ),
        Outcome::HealthChange { pos, amount, by_buff } => if below(amount, 0) && !by_buff {
            Some(NetOutcome::Damage { pos: to_bevy(pos) })
        } else {
            None
        },
        Outcome::Death { pos } => Some(NetOutcome::Death { pos: to_bevy(pos) }),
        Outcome::Block { pos, parry } => Some(NetOutcome::Block { pos: to_bevy(pos), parry }),
        Outcome::PoiseChange { pos, state } => if state is Normal {
            None
        } else {
            Some(NetOutcome::PoiseChange { pos: to_bevy(pos), state })
        },
        Outcome::Other => None,
    }
}

/// What sounds of an outcome.
pub fn project_outcome(outcome: &Outcome) -> (sound: Option<NetOutcome>)
    ensures
        sound == sound_of(*outcome),
{
    match *outcome {
        Outcome::Explosion { pos, power } => Some(
            NetOutcome::Explosion { pos: sim_pos_to_bevy(pos), power: float_abs(power) },
        ),
        Outcome::HealthChange { pos, amount, by_buff } => if float_lt(amount, 0) && !by_buff {
            Some(NetOutcome::Damage { pos: sim_pos_to_bevy(pos) })
        } else {
            None
        },
        Outcome::Death { pos } => Some(NetOutcome::Death { pos: sim_pos_to_bevy(pos) }),
        Outcome::Block { pos, parry } => Some(
            NetOutcome::Block { pos: sim_pos_to_bevy(pos), parry },
        ),
        Outcome::PoiseChange { pos, state } => match state {
            PoiseState::Normal => None,
            PoiseState::Shaken(_) => Some(
                NetOutcome::PoiseChange { pos: sim_pos_to_bevy(pos), state },
            ),
        },
        Outcome::Other => None,
    }
}

/// What sounds of a list of outcomes, in order.
pub open spec fn sounds_of(outcomes: Seq<Outcome>) -> Seq<NetOutcome>
    decreases outcomes.len(),
{
    if outcomes.len() == 0 {
        Seq::empty()
    } else {
        match sound_of(outcomes.last()) {
            Some(sound) => sounds_of(outcomes.drop_last()).push(sound),
            None => sounds_of(outcomes.drop_last()),
        }
    }
}

/// What sounds of all outcomes that the local player has seen, in order; each goes to every
/// client.
pub fn broadcast_embedded_outcomes(outcomes: &Vec<Outcome>) -> (sounds: Vec<NetOutcome>)
    ensures
        sounds@ == sounds_of(outcomes@),
{
    let mut sounds: Vec<NetOutcome> = Vec::new();
    let mut i: usize = 0;
    while i < outcomes.len()
        invariant
            i <= outcomes.len(),
            sounds@ == sounds_of(outcomes@.take(i as int)),
        decreases outcomes.len() - i,
    {
        proof {
            assert(outcomes@.take(i as int + 1).drop_last() =~= outcomes@.take(i as int));
        }
        if let Some(sound) = project_outcome(&outcomes[i]) {
            sounds.push(sound);
        }
        i += 1;
    }
    assert(outcomes@.take(i as int) =~= outcomes@);
    sounds
}

/// Of the changes of health, exactly the losses that no buff causes are heard; healing, and a
/// change of nothing, is silent.
pub proof fn law_only_blows_are_heard(pos: Vec3Bits, amount: u32, by_buff: bool)
    ensures
        sound_of(Outcome::HealthChange { pos, amount, by_buff }) is Some <==> below(amount, 0)
            && !by_buff,
        below(0, amount) || amount == 0 ==> sound_of(
            Outcome::HealthChange { pos, amount, by_buff },
        ) is None,
{
}

/// How an entity is told to move, by what its state is: a roll goes before all else, stealth
/// before climbing, climbing before gliding, and what is none of these stands idle.
pub proof fn law_moves_are_told_apart(state: CharacterState)
    ensures
        move_state(state) is RollCancel <==> state.kind == (CharacterKind::Roll {
            was_cancel: true,
        }),
        move_state(state) is Roll <==> state.kind == (CharacterKind::Roll { was_cancel: false }),
        move_state(state) is Sneak <==> state.stealthy && !(state.kind is Roll),
        move_state(state) is Climb <==> state.kind is Climb && !state.stealthy,
        move_state(state) is Glide <==> state.glide_wielded && !state.stealthy && !(state.kind
            is Roll) && !(state.kind is Climb),
        move_state(state) is Idle <==> !state.glide_wielded && !state.stealthy && !(state.kind
            is Roll) && !(state.kind is Climb),
{
}

/// What one row leads to. An entity with a physical state is told to stand on the block that it
/// stands on, or in the air, and in liquid or not; one with a character state is told to attack
/// as it attacks, and to have its weapon out exactly where it has or is just drawing it. Music
/// is played with the abilities of the hand that plays, which is the main one unless the state
/// says otherwise. What an entity does not have is removed.
pub proof fn law_sounds_follow_the_row(row: SfxRow)
    ensures
        ({
            let plan = sfx_plan(row);
            &&& plan.entity == row.entity
            &&& plan.locomotion is Put <==> row.physics is Some
            &&& plan.locomotion is Remove <==> row.physics is None
            &&& row.physics is Some ==> {
                let told = plan.locomotion->Put_0;
                &&& told.ground_block == row.physics->0.on_ground
                &&& told.on_ground <==> row.physics->0.on_ground is Some
                &&& told.in_liquid == row.physics->0.in_liquid
                &&& row.character_state is Some ==> told.move_state == move_state(
                    row.character_state->0,
                )
                &&& row.character_state is None ==> told.move_state is Idle
            }
            &&& row.character_state is None ==> plan.combat_move is Remove && plan.instrument
                is Remove
            &&& row.character_state is Some ==> {
                let state = row.character_state->0;
                &&& plan.combat_move is Put
                &&& plan.combat_move->Put_0.attacking == state.attack
                &&& plan.combat_move->Put_0.weapon_drawn <==> state.wields || state.kind is Equipping
                &&& plan.instrument is Put
                &&& !state.music || row.hands is None ==> plan.instrument->Put_0 is None
                &&& state.music && row.hands is Some ==> {
                    let hand = if state.hand is Some && state.hand->0 is Off {
                        row.hands->0.offhand
                    } else {
                        row.hands->0.mainhand
                    };
                    &&& plan.instrument->Put_0 is Some <==> hand is Some
                    &&& hand is Some ==> plan.instrument->Put_0->0 == hand->0@
                }
            }
        }),
{
}

/// What is heard of what happened, and where: an explosion as strong as it was whatever its
/// sign, a blow that took health and was no buff's doing, a death, a block as the parry that it
/// was or was not, and a poise that broke, in the state that it broke to. Nothing else is heard.
pub proof fn law_outcome_is_heard_where_it_happened(outcome: Outcome)
    ensures
        match outcome {
            Outcome::Explosion { pos, power } => match sound_of(outcome) {
                Some(NetOutcome::Explosion { pos: at, power: loud }) => turned(at, pos) && (power
                    < 0x8000_0000 ==> loud == power) && (power >= 0x8000_0000 ==> loud == power
                    - 0x8000_0000),
                _ => false,
            },
            Outcome::HealthChange { pos, amount, by_buff } => match sound_of(outcome) {
                Some(NetOutcome::Damage { pos: at }) => turned(at, pos) && !by_buff && 0x8000_0000
                    < amount <= 0xff80_0000,
                None => by_buff || !(0x8000_0000 < amount <= 0xff80_0000),
                _ => false,
            },
            Outcome::Death { pos } => match sound_of(outcome) {
                Some(NetOutcome::Death { pos: at }) => turned(at, pos),
                _ => false,
            },
            Outcome::Block { pos, parry } => match sound_of(outcome) {
                Some(NetOutcome::Block { pos: at, parry: parried }) => turned(at, pos) && parried
                    == parry,
                _ => false,
            },
            Outcome::PoiseChange { pos, state } => match sound_of(outcome) {
                Some(NetOutcome::PoiseChange { pos: at, state: broke }) => turned(at, pos) && broke
                    == state && !(state is Normal),
                None => state is Normal,
                _ => false,
            },
            Outcome::Other => sound_of(outcome) is None,
        },
{
    match outcome {
        Outcome::Explosion { pos, power } => {
            law_points_are_turned(pos);
            law_patterns(power);
        },
        Outcome::HealthChange { pos, amount, by_buff } => {
            law_points_are_turned(pos);
            law_numbers_are_ordered(0, amount);
        },
        Outcome::Death { pos } => {
            law_points_are_turned(pos);
        },
        Outcome::Block { pos, parry } => {
            law_points_are_turned(pos);
        },
        Outcome::PoiseChange { pos, state } => {
            law_points_are_turned(pos);
        },
        Outcome::Other => {},
    }
}

/// Everything that is heard is told once, in the order in which it happened.
pub proof fn law_every_sound_is_told(outcomes: Seq<Outcome>)
    ensures
        sounds_of(outcomes) == outcomes.map_values(|outcome: Outcome| sound_of(outcome)).filter(
            |sound: Option<NetOutcome>| sound is Some,
        ).map_values(|sound: Option<NetOutcome>| sound->0),
    decreases outcomes.len(),
{
    reveal(Seq::filter);
    let all = outcomes.map_values(|outcome: Outcome| sound_of(outcome));
    if outcomes.len() > 0 {
        let init = outcomes.drop_last();
        law_every_sound_is_told(init);
        assert(all.drop_last() =~= init.map_values(|outcome: Outcome| sound_of(outcome)));
        let kept = all.drop_last().filter(|sound: Option<NetOutcome>| sound is Some);
        assert(kept.push(all.last()).map_values(|sound: Option<NetOutcome>| sound->0)
            =~= kept.map_values(|sound: Option<NetOutcome>| sound->0).push(all.last()->0));
    }
    assert(sounds_of(outcomes) =~= all.filter(
        |sound: Option<NetOutcome>| sound is Some,
    ).map_values(|sound: Option<NetOutcome>| sound->0));
}

} // verus!
