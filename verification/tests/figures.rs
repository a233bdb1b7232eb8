use xindeler_sim_bridge::axes::{sim_pos_to_bevy, Vec3Bits};
use xindeler_sim_bridge::character::{is_gliding, AbilityHand, CharacterKind, CharacterState};
use xindeler_sim_bridge::float_bits::{
    float_abs, float_at_least_zero, float_eq, float_lt, float_neg, float_to_whole,
};
use xindeler_sim_bridge::loadout::{
    net_loadout_from_inventory, EquippedGear, EquippedItem, Hands, ItemDefinition, ModularKey,
    NetToolKey, ToolKind, ToolSpec,
};
use xindeler_sim_bridge::net_value::{NetValue, Write};
use xindeler_sim_bridge::sfx::{
    broadcast_embedded_outcomes, classify_move_state, mirror_locomotion_and_combat_state,
    playing_instrument, project_outcome, weapon_drawn, GroundBlock, HandAbilities, NetMoveState,
    NetOutcome, Outcome, Physics, PoiseState, SfxRow,
};

const GRASS: GroundBlock = GroundBlock(16);
const SELF_BUFF: u32 = 11;
const STUNNED: u32 = 2;

fn put<T>(write: &Write<T>) -> Option<&T> {
    match write {
        Write::Put(value) => Some(value),
        _ => None,
    }
}

fn worn(id: &str) -> Option<EquippedItem> {
    Some(EquippedItem { definition: ItemDefinition::Simple(id.to_owned()), tool: None })
}

fn bare() -> EquippedGear {
    EquippedGear {
        active_mainhand: None,
        active_offhand: None,
        chest: None,
        belt: None,
        back: None,
        legs: None,
        shoulders: None,
        hands: None,
        feet: None,
        lantern: None,
        head: None,
        glider: None,
    }
}

const SWORD: ToolKind = ToolKind(0);

#[test]
fn net_loadout_reads_equipped_gear() {
    let gear = EquippedGear {
        active_mainhand: Some(EquippedItem {
            definition: ItemDefinition::Simple("common.items.weapons.sword.starter".to_owned()),
            tool: Some(ToolSpec { kind: SWORD, hands: Hands::Two }),
        }),
        chest: worn("common.items.armor.misc.chest.worker_purple_brown"),
        legs: worn("common.items.armor.misc.pants.worker_brown"),
        feet: worn("common.items.armor.misc.foot.sandals"),
        lantern: worn("common.items.lantern.black_0"),
        head: worn("common.items.armor.mail.bronze.head"),
        glider: worn("common.items.glider.basic_white"),
        ..bare()
    };
    let loadout = net_loadout_from_inventory(&gear, false);
    let tool = loadout.active_tool.as_ref().unwrap();
    match &tool.key {
        NetToolKey::Tool(id) => assert_eq!(id, "common.items.weapons.sword.starter"),
        NetToolKey::Modular { .. } => panic!("a plain sword"),
    }
    assert_eq!(tool.kind, SWORD);
    assert_eq!(tool.hands, Hands::Two);
    assert_eq!(
        loadout.chest.as_deref(),
        Some("common.items.armor.misc.chest.worker_purple_brown")
    );
    assert_eq!(loadout.pants.as_deref(), Some("common.items.armor.misc.pants.worker_brown"));
    assert_eq!(loadout.foot.as_deref(), Some("common.items.armor.misc.foot.sandals"));
    assert_eq!(loadout.lantern.as_deref(), Some("common.items.lantern.black_0"));
    assert_eq!(loadout.head.as_deref(), Some("common.items.armor.mail.bronze.head"));
    assert_eq!(loadout.glider.as_deref(), Some("common.items.glider.basic_white"));
    assert_eq!(loadout.belt, None);
    assert_eq!(loadout.shoulder, None);
    assert!(loadout.second_tool.is_none());
    assert!(!loadout.gliding);
    let gliding_loadout = net_loadout_from_inventory(&gear, true);
    assert!(gliding_loadout.gliding);
    assert!(!loadout.same(&gliding_loadout));
    assert!(loadout.same(&loadout.duplicate()));
}

#[test]
fn modular_and_compound_gear_is_known_by_its_parts() {
    let gear = EquippedGear {
        active_mainhand: Some(EquippedItem {
            definition: ItemDefinition::Modular {
                pseudo_base: "veloren.core.pseudo_items.modular.tool".to_owned(),
                weapon_key: ModularKey {
                    primary: "blade".to_owned(),
                    secondary: "grip".to_owned(),
                    hands: Hands::One,
                },
            },
            tool: Some(ToolSpec { kind: SWORD, hands: Hands::One }),
        }),
        // What is held without being a tool is not drawn in the hand.
        active_offhand: worn("common.items.food.apple"),
        back: Some(EquippedItem {
            definition: ItemDefinition::Compound { simple_base: "cape".to_owned() },
            tool: None,
        }),
        ..bare()
    };
    let loadout = net_loadout_from_inventory(&gear, false);
    match &loadout.active_tool.as_ref().unwrap().key {
        NetToolKey::Modular { primary, secondary, hands } => {
            assert_eq!((primary.as_str(), secondary.as_str()), ("blade", "grip"));
            assert_eq!(*hands, Hands::One);
        }
        NetToolKey::Tool(_) => panic!("a modular weapon"),
    }
    assert!(loadout.second_tool.is_none());
    assert_eq!(loadout.back.as_deref(), Some("cape"));
}

fn idle() -> CharacterState {
    CharacterState::plain(CharacterKind::Other)
}

#[test]
fn is_gliding_matches_glide_and_glide_wield_only() {
    assert!(!is_gliding(None));
    assert!(!is_gliding(Some(&idle())));
    let sit = CharacterState::plain(CharacterKind::Other);
    assert!(!is_gliding(Some(&sit)));
    let glide = CharacterState { glide_wielded: true, ..idle() };
    assert!(is_gliding(Some(&glide)));
}

fn bits(x: f32, y: f32, z: f32) -> Vec3Bits {
    Vec3Bits { x: x.to_bits(), y: y.to_bits(), z: z.to_bits() }
}

fn heard(outcome: Outcome) -> Option<NetOutcome> {
    project_outcome(&outcome)
}

#[test]
fn project_outcome_covers_exactly_the_documented_five_with_their_real_filters() {
    let pos = bits(1.0, 2.0, 3.0);
    let bevy_pos = sim_pos_to_bevy(pos);
    assert_eq!(bevy_pos, bits(1.0, 3.0, -2.0));
    assert_eq!(
        heard(Outcome::Explosion { pos, power: (-2.0f32).to_bits() }),
        Some(NetOutcome::Explosion { pos: bevy_pos, power: 2.0f32.to_bits() })
    );
    let damage = (-10.0f32).to_bits();
    assert_eq!(
        heard(Outcome::HealthChange { pos, amount: damage, by_buff: false }),
        Some(NetOutcome::Damage { pos: bevy_pos })
    );
    let healing = 10.0f32.to_bits();
    assert_eq!(heard(Outcome::HealthChange { pos, amount: healing, by_buff: false }), None);
    assert_eq!(heard(Outcome::HealthChange { pos, amount: damage, by_buff: true }), None);
    assert_eq!(heard(Outcome::Death { pos }), Some(NetOutcome::Death { pos: bevy_pos }));
    assert_eq!(
        heard(Outcome::Block { pos, parry: true }),
        Some(NetOutcome::Block { pos: bevy_pos, parry: true })
    );
    let stunned = PoiseState::Shaken(STUNNED);
    assert_eq!(
        heard(Outcome::PoiseChange { pos, state: stunned }),
        Some(NetOutcome::PoiseChange { pos: bevy_pos, state: stunned })
    );
    assert_eq!(heard(Outcome::PoiseChange { pos, state: PoiseState::Normal }), None);
    assert_eq!(heard(Outcome::Other), None);
}

#[test]
fn outcomes_are_heard_in_order() {
    let pos = bits(0.0, 0.0, 0.0);
    let change = |amount: f32| Outcome::HealthChange {
        pos,
        amount: amount.to_bits(),
        by_buff: false,
    };
    let sounds = broadcast_embedded_outcomes(&vec![
        Outcome::Other,
        change(-0.001),
        change(0.001),
        change(0.0),
        change(-0.0),
        change(f32::NAN),
        Outcome::Death { pos },
    ]);
    let at = sim_pos_to_bevy(pos);
    assert_eq!(sounds, vec![NetOutcome::Damage { pos: at }, NetOutcome::Death { pos: at }]);
}

fn sfx_row() -> SfxRow {
    SfxRow { entity: 70, physics: None, character_state: None, hands: None }
}

const IN_THE_AIR: Physics = Physics { on_ground: None, in_liquid: false };

#[test]
fn sfx_no_mirrored_entities_is_a_harmless_no_op() {
    assert!(mirror_locomotion_and_combat_state(&vec![]).is_empty());
}

#[test]
fn mirrors_a_grounded_idle_entity() {
    let row = SfxRow {
        physics: Some(Physics { on_ground: Some(GRASS), in_liquid: false }),
        character_state: Some(idle()),
        ..sfx_row()
    };
    let plans = mirror_locomotion_and_combat_state(&vec![row]);
    assert_eq!(plans[0].entity, 70);
    let locomotion = put(&plans[0].locomotion).unwrap();
    assert!(locomotion.on_ground);
    assert!(!locomotion.in_liquid);
    assert_eq!(locomotion.ground_block, Some(GRASS));
    assert_eq!(locomotion.move_state, NetMoveState::Idle);
    let combat_move = put(&plans[0].combat_move).unwrap();
    assert!(combat_move.attacking.is_none());
    assert!(!combat_move.weapon_drawn);
}

#[test]
fn entity_without_a_character_state_is_idle() {
    let row = SfxRow { physics: Some(IN_THE_AIR), ..sfx_row() };
    let plans = mirror_locomotion_and_combat_state(&vec![row]);
    let locomotion = put(&plans[0].locomotion).unwrap();
    assert_eq!(locomotion.move_state, NetMoveState::Idle);
    assert!(!locomotion.on_ground && locomotion.ground_block.is_none());
    assert!(matches!(plans[0].combat_move, Write::Remove));
}

#[test]
fn roll_and_roll_cancel_classify_distinctly() {
    let normal_roll = CharacterState::plain(CharacterKind::Roll { was_cancel: false });
    assert_eq!(classify_move_state(&normal_roll), NetMoveState::Roll);
    let cancelled_roll = CharacterState::plain(CharacterKind::Roll { was_cancel: true });
    assert_eq!(classify_move_state(&cancelled_roll), NetMoveState::RollCancel);
}

#[test]
fn moves_are_classified_in_their_order() {
    let sneaking_roll = CharacterState {
        stealthy: true,
        ..CharacterState::plain(CharacterKind::Roll { was_cancel: false })
    };
    assert_eq!(classify_move_state(&sneaking_roll), NetMoveState::Roll);
    let sneaking = CharacterState {
        stealthy: true,
        glide_wielded: true,
        ..CharacterState::plain(CharacterKind::Climb)
    };
    assert_eq!(classify_move_state(&sneaking), NetMoveState::Sneak);
    let climbing =
        CharacterState { glide_wielded: true, ..CharacterState::plain(CharacterKind::Climb) };
    assert_eq!(classify_move_state(&climbing), NetMoveState::Climb);
    let gliding = CharacterState { glide_wielded: true, ..idle() };
    assert_eq!(classify_move_state(&gliding), NetMoveState::Glide);
    assert!(weapon_drawn(&CharacterState::plain(CharacterKind::Equipping)));
    assert!(weapon_drawn(&CharacterState { wields: true, ..idle() }));
    assert!(!weapon_drawn(&idle()));
}

#[test]
fn attacking_character_state_mirrors_the_ability_type() {
    let row = SfxRow {
        physics: Some(IN_THE_AIR),
        character_state: Some(CharacterState { attack: Some(SELF_BUFF), ..idle() }),
        ..sfx_row()
    };
    let plans = mirror_locomotion_and_combat_state(&vec![row]);
    assert_eq!(put(&plans[0].combat_move).unwrap().attacking, Some(SELF_BUFF));
}

fn music() -> CharacterState {
    CharacterState { music: true, ..idle() }
}

fn flute() -> HandAbilities {
    HandAbilities { mainhand: Some("Flute".to_owned()), offhand: Some("Drum".to_owned()) }
}

#[test]
fn playing_instrument_is_none_outside_the_music_state() {
    assert_eq!(playing_instrument(&idle(), &None), None);
    assert_eq!(playing_instrument(&idle(), &Some(flute())), None);
}

#[test]
fn playing_instrument_resolves_the_equipped_flutes_ability_spec() {
    assert_eq!(playing_instrument(&music(), &Some(flute())), Some("Flute".to_owned()));
    let off = CharacterState { hand: Some(AbilityHand::Off), ..music() };
    assert_eq!(playing_instrument(&off, &Some(flute())), Some("Drum".to_owned()));
    let main = CharacterState { hand: Some(AbilityHand::Main), ..music() };
    assert_eq!(playing_instrument(&main, &Some(flute())), Some("Flute".to_owned()));
}

#[test]
fn playing_instrument_with_no_inventory_is_none() {
    assert_eq!(playing_instrument(&music(), &None), None);
}

#[test]
fn mirrors_a_playing_instrument_entity() {
    let row = SfxRow {
        physics: Some(IN_THE_AIR),
        character_state: Some(music()),
        hands: Some(flute()),
        ..sfx_row()
    };
    let plans = mirror_locomotion_and_combat_state(&vec![row]);
    assert_eq!(put(&plans[0].instrument), Some(&Some("Flute".to_owned())));
}

#[test]
fn removing_sim_components_removes_the_net_mirrors() {
    let row = SfxRow {
        physics: Some(IN_THE_AIR),
        character_state: Some(idle()),
        ..sfx_row()
    };
    let plans = mirror_locomotion_and_combat_state(&vec![row]);
    assert!(put(&plans[0].locomotion).is_some());
    assert!(put(&plans[0].combat_move).is_some());
    assert!(put(&plans[0].instrument).is_some());
    let plans = mirror_locomotion_and_combat_state(&vec![sfx_row()]);
    assert!(matches!(plans[0].locomotion, Write::Remove));
    assert!(matches!(plans[0].combat_move, Write::Remove));
    assert!(matches!(plans[0].instrument, Write::Remove));
}

#[test]
fn bit_patterns_compare_and_convert_like_the_numbers() {
    let samples = [
        0.0f32,
        -0.0,
        1.0,
        -1.0,
        0.5,
        1.0e-45,
        -1.0e-45,
        2.999_999_8,
        16_777_215.0,
        4_294_967_040.0,
        4.3e9,
        f32::MAX,
        f32::MIN,
        f32::INFINITY,
        f32::NEG_INFINITY,
        f32::NAN,
    ];
    for a in samples {
        assert_eq!(float_abs(a.to_bits()), a.abs().to_bits());
        assert_eq!(float_neg(a.to_bits()), (-a).to_bits());
        assert_eq!(float_to_whole(a.to_bits()), a as u32, "{a}");
        assert_eq!(f32::from_bits(float_at_least_zero(a.to_bits())), a.max(0.0));
        for b in samples {
            assert_eq!(float_eq(a.to_bits(), b.to_bits()), a == b, "{a} {b}");
            assert_eq!(float_lt(a.to_bits(), b.to_bits()), a < b, "{a} {b}");
        }
    }
}
