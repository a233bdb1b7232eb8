use std::collections::HashMap;
use xindeler_sim_bridge::combat_hud::{
    mirror_combat_hud_state, next_level, project_buffs, project_xp, BuffInstance, BuffKindRow,
    CombatHudMirrorCache, CombatHudRow, Experience, Gauge, NetCombo, NetXp,
};
use xindeler_sim_bridge::hotbar::{
    apply_hotbar_assignment_requests, from_net_aux, mirror_hotbar_state, project_cooldowns,
    to_net_aux, AbilityChange, AssignHotbarSlot, AuxiliaryAbility, BoundAbilities, BoundSlot,
    HotbarMirrorCache, HotbarRow, NetAuxiliaryAbility, NetCooldownEntry,
};
use xindeler_sim_bridge::mirror::SimMirror;
use xindeler_sim_bridge::net_value::Write;
use xindeler_sim_bridge::session::{ClientId, PlayerDimensionSession, Sessions};

const SIM: u64 = 7;
const MIRROR: u64 = 70;

fn mirror() -> SimMirror {
    SimMirror(HashMap::from([(SIM, MIRROR)]))
}

fn hud_row() -> CombatHudRow {
    CombatHudRow {
        sim_entity: SIM,
        entity: MIRROR,
        energy: None,
        poise: None,
        combo: None,
        experience: None,
        buffs: None,
    }
}

fn gauge(current: f32, max: f32) -> Gauge {
    Gauge { current: current.to_bits(), max: max.to_bits() }
}

fn put<T>(write: &Write<T>) -> Option<&T> {
    match write {
        Write::Put(value) => Some(value),
        _ => None,
    }
}

#[test]
fn combat_hud_no_mirrored_entities_is_a_harmless_no_op() {
    let mut cache = CombatHudMirrorCache::new();
    let plans = mirror_combat_hud_state(&vec![], &SimMirror(HashMap::new()), &mut cache);
    assert!(plans.is_empty());
}

const REGENERATION: u32 = 1;
const RESILIENCE: u32 = 2;

fn instance(strength: f32, secs: Option<f32>) -> BuffInstance {
    BuffInstance { strength: strength.to_bits(), remaining_secs: secs.map(|s| s.to_bits()) }
}

#[test]
fn mirrors_energy_poise_combo_xp_and_buffs_for_a_real_sim_entity() {
    let mut cache = CombatHudMirrorCache::new();
    let row = CombatHudRow {
        energy: Some(gauge(50.0, 100.0)),
        poise: Some(gauge(30.0, 30.0)),
        combo: Some(0),
        experience: Some(Experience { level: 1, total_exp: 0, level_floor: 0, next_floor: 100 }),
        buffs: Some(vec![BuffKindRow {
            kind: REGENERATION,
            active: true,
            instances: vec![instance(3.0, Some(10.0))],
        }]),
        ..hud_row()
    };
    let plans = mirror_combat_hud_state(&vec![row], &mirror(), &mut cache);
    assert_eq!(plans.len(), 1);
    assert_eq!(plans[0].entity, MIRROR);
    assert_eq!(put(&plans[0].energy), Some(&gauge(50.0, 100.0)));
    assert!(put(&plans[0].poise).is_some());
    assert_eq!(put(&plans[0].combo), Some(&NetCombo { counter: 0 }));
    assert_eq!(put(&plans[0].xp).unwrap().level, 1);
    let buffs = put(&plans[0].buffs).unwrap();
    assert_eq!(buffs.0.len(), 1);
    assert_eq!(buffs.0[0].kind, REGENERATION);
    assert_eq!(buffs.0[0].stacks, 1);
}

#[test]
fn multiple_stacked_instances_of_the_same_kind_report_the_real_stack_count() {
    let mut cache = CombatHudMirrorCache::new();
    let row = CombatHudRow {
        buffs: Some(vec![BuffKindRow {
            kind: RESILIENCE,
            active: true,
            instances: vec![
                instance(1.0, Some(10.0)),
                instance(1.0, Some(10.0)),
                instance(1.0, Some(10.0)),
            ],
        }]),
        ..hud_row()
    };
    let plans = mirror_combat_hud_state(&vec![row], &mirror(), &mut cache);
    let buffs = put(&plans[0].buffs).unwrap();
    assert_eq!(buffs.0.len(), 1);
    assert_eq!(buffs.0[0].kind, RESILIENCE);
    assert_eq!(buffs.0[0].stacks, 3);
}

#[test]
fn removing_a_sim_component_removes_its_net_mirror_too() {
    let mut cache = CombatHudMirrorCache::new();
    let row = CombatHudRow {
        energy: Some(gauge(1.0, 1.0)),
        experience: Some(Experience { level: 1, total_exp: 0, level_floor: 0, next_floor: 1 }),
        ..hud_row()
    };
    let plans = mirror_combat_hud_state(&vec![row], &mirror(), &mut cache);
    assert!(put(&plans[0].energy).is_some());
    assert!(put(&plans[0].xp).is_some());
    let plans = mirror_combat_hud_state(&vec![hud_row()], &mirror(), &mut cache);
    assert!(matches!(plans[0].energy, Write::Remove));
    assert!(matches!(plans[0].xp, Write::Remove));
}

#[test]
fn unchanged_combat_state_is_kept_and_forgotten_with_its_mirror() {
    let mut cache = CombatHudMirrorCache::new();
    let row = || CombatHudRow { combo: Some(4), energy: Some(gauge(1.0, 2.0)), ..hud_row() };
    mirror_combat_hud_state(&vec![row()], &mirror(), &mut cache);
    let plans = mirror_combat_hud_state(&vec![row()], &mirror(), &mut cache);
    assert!(matches!(plans[0].combo, Write::Keep));
    assert!(put(&plans[0].energy).is_some());
    mirror_combat_hud_state(&vec![], &SimMirror(HashMap::new()), &mut cache);
    let plans = mirror_combat_hud_state(&vec![row()], &mirror(), &mut cache);
    assert!(put(&plans[0].combo).is_some());
}

#[test]
fn buffs_compare_as_numbers() {
    let row = |strength: f32| CombatHudRow {
        buffs: Some(vec![BuffKindRow {
            kind: REGENERATION,
            active: true,
            instances: vec![instance(strength, None)],
        }]),
        ..hud_row()
    };
    let mut cache = CombatHudMirrorCache::new();
    mirror_combat_hud_state(&vec![row(0.0)], &mirror(), &mut cache);
    let plans = mirror_combat_hud_state(&vec![row(-0.0)], &mirror(), &mut cache);
    assert!(matches!(plans[0].buffs, Write::Keep));
    // What is no number is never what it was before.
    mirror_combat_hud_state(&vec![row(f32::NAN)], &mirror(), &mut cache);
    let plans = mirror_combat_hud_state(&vec![row(f32::NAN)], &mirror(), &mut cache);
    assert!(put(&plans[0].buffs).is_some());
}

#[test]
fn buffs_that_are_not_active_or_have_no_instance_are_left_out() {
    let buffs = project_buffs(&vec![
        BuffKindRow { kind: 1, active: false, instances: vec![instance(1.0, None)] },
        BuffKindRow { kind: 2, active: true, instances: vec![] },
        BuffKindRow {
            kind: 3,
            active: true,
            instances: vec![instance(2.0, Some(5.0)), instance(9.0, None)],
        },
    ]);
    assert_eq!(buffs.0.len(), 1);
    assert_eq!(buffs.0[0].kind, 3);
    assert_eq!(buffs.0[0].strength, 2.0f32.to_bits());
    assert_eq!(buffs.0[0].remaining_secs, Some(5.0f32.to_bits()));
    assert_eq!(buffs.0[0].stacks, 2);
}

#[test]
fn experience_is_counted_from_the_floor_of_the_level() {
    let xp = project_xp(&Experience { level: 3, total_exp: 250, level_floor: 200, next_floor: 400 });
    assert_eq!(xp, NetXp { level: 3, xp_into_level: 50, xp_for_level: 200 });
    let xp = project_xp(&Experience { level: 3, total_exp: 150, level_floor: 200, next_floor: 100 });
    assert_eq!(xp, NetXp { level: 3, xp_into_level: 0, xp_for_level: 0 });
    assert_eq!(next_level(3), 4);
    assert_eq!(next_level(u32::MAX), u32::MAX);
}

fn hotbar_row() -> HotbarRow {
    HotbarRow { sim_entity: SIM, entity: MIRROR, abilities: None, cooldowns: None }
}

const BASE_ABILITY_LIMIT: usize = 5;

fn bare_abilities() -> BoundAbilities {
    BoundAbilities {
        primary: None,
        secondary: None,
        slots: (0..BASE_ABILITY_LIMIT)
            .map(|_| BoundSlot { aux: AuxiliaryAbility::Empty, ability_id: None })
            .collect(),
    }
}

#[test]
fn hotbar_no_mirrored_entities_is_a_harmless_no_op() {
    let mut cache = HotbarMirrorCache::new();
    assert!(mirror_hotbar_state(&vec![], &SimMirror(HashMap::new()), &mut cache).is_empty());
}

#[test]
fn mirrors_ability_pool_and_slot_bindings_for_a_real_sim_entity() {
    let mut cache = HotbarMirrorCache::new();
    let row = HotbarRow { abilities: Some(bare_abilities()), ..hotbar_row() };
    let plans = mirror_hotbar_state(&vec![row], &mirror(), &mut cache);
    let abilities = put(&plans[0].abilities).unwrap();
    assert_eq!(abilities.slots.len(), BASE_ABILITY_LIMIT);
    assert!(abilities
        .slots
        .iter()
        .all(|s| s.aux == NetAuxiliaryAbility::Empty && s.ability_id.is_none()));
}

#[test]
fn removing_active_abilities_removes_the_net_mirror_too() {
    let mut cache = HotbarMirrorCache::new();
    let row = || HotbarRow { abilities: Some(bare_abilities()), ..hotbar_row() };
    let plans = mirror_hotbar_state(&vec![row()], &mirror(), &mut cache);
    assert!(put(&plans[0].abilities).is_some());
    let plans = mirror_hotbar_state(&vec![row()], &mirror(), &mut cache);
    assert!(matches!(plans[0].abilities, Write::Keep));
    let plans = mirror_hotbar_state(&vec![hotbar_row()], &mirror(), &mut cache);
    assert!(matches!(plans[0].abilities, Write::Remove));
}

fn cooldown(id: &str, secs: f32) -> NetCooldownEntry {
    NetCooldownEntry { ability_id: id.to_owned(), remaining_secs: secs.to_bits() }
}

#[test]
fn mirrors_only_still_cooling_down_abilities() {
    let mut cache = HotbarMirrorCache::new();
    let row = HotbarRow {
        cooldowns: Some(vec![
            cooldown("class.warrior.rally", 8.0),
            cooldown("already.expired", -5.0),
        ]),
        ..hotbar_row()
    };
    let plans = mirror_hotbar_state(&vec![row], &mirror(), &mut cache);
    let cooldowns = put(&plans[0].cooldowns).unwrap();
    assert_eq!(cooldowns.len(), 1);
    assert_eq!(cooldowns[0].ability_id, "class.warrior.rally");
    assert!(f32::from_bits(cooldowns[0].remaining_secs) > 0.0);
}

#[test]
fn cooldowns_are_ordered_by_ability() {
    let entries = project_cooldowns(&vec![
        cooldown("b", 1.0),
        cooldown("\u{e9}", 2.0),
        cooldown("a", 3.0),
        cooldown("ab", 4.0),
        cooldown("z", 0.0),
        cooldown("Z", f32::NAN),
    ]);
    let ids: Vec<&str> = entries.iter().map(|entry| entry.ability_id.as_str()).collect();
    assert_eq!(ids, vec!["a", "ab", "b", "\u{e9}"]);
    let mut sorted = ids.clone();
    sorted.sort();
    assert_eq!(ids, sorted);
    let mut cache = HotbarMirrorCache::new();
    let row = HotbarRow { cooldowns: Some(vec![]), ..hotbar_row() };
    let plans = mirror_hotbar_state(&vec![row], &mirror(), &mut cache);
    assert!(matches!(plans[0].cooldowns, Write::Remove));
}

#[test]
fn net_aux_conversion_round_trips_every_variant() {
    for aux in [
        AuxiliaryAbility::MainWeapon(2),
        AuxiliaryAbility::OffWeapon(0),
        AuxiliaryAbility::Glider(1),
        AuxiliaryAbility::Innate(3),
        AuxiliaryAbility::Empty,
    ] {
        assert_eq!(from_net_aux(to_net_aux(aux)), aux);
    }
}

fn assign(ability: NetAuxiliaryAbility) -> AssignHotbarSlot {
    AssignHotbarSlot { slot: 0, ability }
}

#[test]
fn apply_hotbar_assignment_requests_changes_the_real_connections_own_entity() {
    let mut sessions = Sessions::new();
    sessions.open(5, PlayerDimensionSession(SIM));
    let requests = vec![(ClientId::Client(5), assign(NetAuxiliaryAbility::MainWeapon(2)))];
    let changes = apply_hotbar_assignment_requests(true, &requests, None, &sessions);
    assert_eq!(
        changes,
        vec![AbilityChange {
            entity: SIM,
            slot: 0,
            new_ability: AuxiliaryAbility::MainWeapon(2)
        }]
    );
    assert!(apply_hotbar_assignment_requests(false, &requests, None, &sessions).is_empty());
}

#[test]
fn apply_hotbar_assignment_requests_ignores_an_unresolved_real_connection() {
    let requests = vec![(ClientId::Client(5), assign(NetAuxiliaryAbility::MainWeapon(1)))];
    let changes = apply_hotbar_assignment_requests(true, &requests, Some(9), &Sessions::new());
    assert!(changes.is_empty());
}

#[test]
fn apply_hotbar_assignment_requests_degrades_clean_for_server_id_without_embedded_player() {
    let requests = vec![(ClientId::Server, assign(NetAuxiliaryAbility::MainWeapon(1)))];
    assert!(apply_hotbar_assignment_requests(true, &requests, None, &Sessions::new()).is_empty());
    let changes = apply_hotbar_assignment_requests(true, &requests, Some(9), &Sessions::new());
    assert_eq!(changes[0].entity, 9);
}
