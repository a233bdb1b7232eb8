use std::collections::{HashMap, VecDeque};
use xindeler_sim_bridge::axes::{QuatBits, Vec3Bits};
use xindeler_sim_bridge::character::{CharacterKind, CharacterState};
use xindeler_sim_bridge::dimension_lifecycle::{
    delete_specs_entities_for_torn_down_dimensions, ensure_default_dimension, finish_wrap,
    release_dimension_occupants_on_drain_request, DefaultDimensionState, Release, TaggedMirror,
    WrapStep,
};
use xindeler_sim_bridge::entity_factory::{
    apply_pending_entity_template_spawns, resolve_faction, spawn_from_spawning_rules, Alignment,
    EntityTemplate, KnownTemplate, PendingSpawn, SpawningRules,
};
use xindeler_sim_bridge::ids::{
    DimensionId, DimensionLifecycle, DimensionState, DimensionTable, RegionKey,
};
use xindeler_sim_bridge::keys::keys_of;
use xindeler_sim_bridge::loadout::NetLoadout;
use xindeler_sim_bridge::mirror::{
    mirror_admits_new_entity, mirror_sim_entities, record_spawned, Health, MirrorAction, MirrorPlan,
    MirrorRow, NetHealth, PendingDimensionAttribution, SimEntityDimension, SimLoadoutCache, SimMirror,
    SimRegionCache, StaleMirror,
};
use xindeler_sim_bridge::net_value::{DedupCache, Write};

const DEFAULT: DimensionId = DimensionId(0);
const EVENT: DimensionId = DimensionId(1);

fn state(lifecycle: DimensionLifecycle) -> DimensionState {
    DimensionState { lifecycle, root: 9 }
}

#[test]
fn mirror_admits_new_entity_only_for_active_dimension() {
    assert!(!mirror_admits_new_entity(None));
    let mut table = DimensionTable::new();
    assert!(table.get(EVENT).is_none());
    table.set(EVENT, state(DimensionLifecycle::Spinup));
    assert!(!mirror_admits_new_entity(table.get(EVENT).as_ref()));
    table.set(EVENT, state(DimensionLifecycle::Active));
    assert!(mirror_admits_new_entity(table.get(EVENT).as_ref()));
    for ending in [DimensionLifecycle::Draining, DimensionLifecycle::Teardown] {
        table.set(EVENT, state(ending));
        assert!(!mirror_admits_new_entity(table.get(EVENT).as_ref()));
    }
}

struct World {
    table: DimensionTable,
    mirror: SimMirror,
    loadouts: SimLoadoutCache,
    regions: SimRegionCache,
    attribution: PendingDimensionAttribution,
    dims: SimEntityDimension,
}

impl World {
    fn new() -> World {
        let mut table = DimensionTable::new();
        table.set(DEFAULT, DimensionState { lifecycle: DimensionLifecycle::Active, root: 100 });
        table.set(EVENT, DimensionState { lifecycle: DimensionLifecycle::Active, root: 200 });
        World {
            table,
            mirror: SimMirror(HashMap::new()),
            loadouts: SimLoadoutCache(DedupCache::new()),
            regions: SimRegionCache(HashMap::new()),
            attribution: PendingDimensionAttribution(VecDeque::new()),
            dims: SimEntityDimension(HashMap::new()),
        }
    }

    fn pass(&mut self, rows: Vec<MirrorRow>, player: Option<u64>) -> MirrorPlan {
        let plan = mirror_sim_entities(
            &rows,
            player,
            &self.table,
            &mut self.mirror,
            &mut self.loadouts,
            &mut self.regions,
            &mut self.attribution,
            &mut self.dims,
        );
        for action in &plan.actions {
            if let MirrorAction::Spawn(spawn) = action {
                record_spawned(&mut self.mirror, spawn, spawn.sim_entity + 1000);
            }
        }
        plan
    }
}

fn bits(x: f32, y: f32, z: f32) -> Vec3Bits {
    Vec3Bits { x: x.to_bits(), y: y.to_bits(), z: z.to_bits() }
}

const HEALTHY: Health = Health { current: 50, max: 80, is_dead: false };

fn row(sim_entity: u64) -> MirrorRow {
    MirrorRow {
        sim_entity,
        sync_me: None,
        pos: bits(1.0, 2.0, 3.0),
        vel: None,
        ori: None,
        health: Some(HEALTHY),
        body: 9,
        humanoid: false,
        gear: None,
        character_state: None,
        uid: Some(sim_entity + 500),
        has_agent: false,
        cell_x: 3,
        cell_y: -4,
    }
}

#[test]
fn entity_is_spawned_once_and_then_updated() {
    let mut world = World::new();
    let plan = world.pass(vec![row(1)], Some(1));
    assert_eq!(plan.actions.len(), 1);
    match &plan.actions[0] {
        MirrorAction::Spawn(spawn) => {
            assert_eq!((spawn.row, spawn.sim_entity, spawn.root), (0, 1, 100));
            assert_eq!(spawn.dimension, DEFAULT);
            assert!(spawn.local_player);
            assert_eq!(spawn.figure.health, Some(NetHealth { current: 50, max: 80 }));
            assert_eq!(spawn.uid, Some(501));
            assert!(spawn.loadout.is_none());
            assert_eq!(
                spawn.region,
                RegionKey { dimension: DEFAULT, cell_x: 3, cell_y: -4 }
            );
        }
        MirrorAction::Update(_) => panic!("a new entity is spawned"),
    }
    let plan = world.pass(vec![row(1)], None);
    match &plan.actions[0] {
        MirrorAction::Update(update) => {
            assert_eq!(update.entity, 1001);
            assert!(!update.local_player);
            assert!(update.region.is_none());
        }
        MirrorAction::Spawn(_) => panic!("a mirrored entity is updated"),
    }
    let mut moved = row(1);
    moved.cell_x = 4;
    moved.health = None;
    match &world.pass(vec![moved], None).actions[0] {
        MirrorAction::Update(update) => {
            assert_eq!(update.region.unwrap().cell_x, 4);
            assert!(update.figure.health.is_none());
        }
        MirrorAction::Spawn(_) => panic!("a mirrored entity is updated"),
    }
}

#[test]
fn hidden_and_dead_entities_are_not_shown() {
    let mut world = World::new();
    world.pass(vec![row(1), row(2)], None);
    let mut hidden = row(1);
    hidden.sync_me = Some(false);
    let mut dead = row(2);
    dead.health = Some(Health { is_dead: true, ..HEALTHY });
    let plan = world.pass(vec![hidden, dead], None);
    assert!(plan.actions.is_empty());
    let mut stale = plan.stale;
    stale.sort_by_key(|mirror| mirror.sim_entity);
    assert_eq!(
        stale,
        vec![
            StaleMirror { sim_entity: 1, entity: 1001, dimension: DEFAULT },
            StaleMirror { sim_entity: 2, entity: 1002, dimension: DEFAULT },
        ]
    );
    assert!(world.mirror.0.is_empty() && world.dims.0.is_empty() && world.regions.0.is_empty());
    let mut visible = row(3);
    visible.sync_me = Some(true);
    assert_eq!(world.pass(vec![visible], None).actions.len(), 1);
}

#[test]
fn agents_take_the_dimension_that_waits_for_them() {
    let mut world = World::new();
    world.attribution.0.push_back(EVENT);
    let mut npc = row(2);
    npc.has_agent = true;
    let plan = world.pass(vec![row(1), npc], None);
    let dimension = |plan: &MirrorPlan, i: usize| match &plan.actions[i] {
        MirrorAction::Spawn(spawn) => (spawn.dimension, spawn.root),
        MirrorAction::Update(_) => panic!("a new entity is spawned"),
    };
    assert_eq!(dimension(&plan, 0), (DEFAULT, 100));
    assert_eq!(dimension(&plan, 1), (EVENT, 200));
    assert!(world.attribution.0.is_empty());

    // One whose dimension does not take anybody in any more falls back to the default.
    world.table.set(EVENT, state(DimensionLifecycle::Draining));
    world.attribution.0.push_back(EVENT);
    let mut late = row(3);
    late.has_agent = true;
    let mut npc = row(2);
    npc.has_agent = true;
    let plan = world.pass(vec![npc, late], None);
    assert!(matches!(plan.actions[0], MirrorAction::Update(_)));
    assert_eq!(dimension(&plan, 1), (DEFAULT, 100));
    assert!(world.attribution.0.is_empty());
    assert_eq!(world.dims.0.get(&2), Some(&EVENT));
}

#[test]
fn mirrors_show_where_their_entities_are_and_how_they_move() {
    let mut world = World::new();
    let figure = |plan: &MirrorPlan| match &plan.actions[0] {
        MirrorAction::Spawn(spawn) => spawn.figure,
        MirrorAction::Update(update) => update.figure,
    };
    let still = figure(&world.pass(vec![row(1)], None));
    assert_eq!(still.pos, bits(1.0, 3.0, -2.0));
    assert_eq!(still.vel, bits(0.0, 0.0, 0.0));
    let one = 1.0f32.to_bits();
    assert_eq!(still.ori, QuatBits { x: 0, y: 0, z: 0, w: one });
    assert_eq!(still.body, 9);
    let turned = QuatBits { x: one, y: 0, z: 0, w: 0 };
    let moving = MirrorRow {
        vel: Some(bits(4.0, 5.0, 6.0)),
        ori: Some(turned),
        ..row(1)
    };
    let moving = figure(&world.pass(vec![moving], None));
    assert_eq!(moving.vel, bits(4.0, 6.0, -5.0));
    assert_eq!(moving.ori, turned);
}

#[test]
fn entities_without_a_mirror_are_forgotten_too() {
    let mut world = World::new();
    world.table.set(DEFAULT, state(DimensionLifecycle::Draining));
    assert!(world.pass(vec![row(1), row(2)], None).actions.is_empty());
    assert_eq!(world.dims.0.len(), 2);
    let plan = world.pass(vec![row(2)], None);
    assert!(plan.stale.is_empty());
    assert!(!world.dims.0.contains_key(&1));
    assert_eq!(world.dims.0.get(&2), Some(&DEFAULT));
}

#[test]
fn nothing_new_enters_a_dimension_that_ends() {
    let mut world = World::new();
    world.table.set(DEFAULT, state(DimensionLifecycle::Draining));
    assert!(world.pass(vec![row(1)], None).actions.is_empty());
    assert!(world.mirror.0.is_empty());
    world.table.set(DEFAULT, state(DimensionLifecycle::Active));
    assert_eq!(world.pass(vec![row(1)], None).actions.len(), 1);
}

#[test]
fn humanoids_carry_a_loadout_that_is_written_on_change() {
    let mut world = World::new();
    let human = || MirrorRow { humanoid: true, ..row(1) };
    let written = |plan: &MirrorPlan| match &plan.actions[0] {
        MirrorAction::Spawn(spawn) => spawn.loadout.is_some(),
        MirrorAction::Update(update) => update.loadout.is_some(),
    };
    assert!(written(&world.pass(vec![human()], None)));
    assert!(!written(&world.pass(vec![human()], None)));
    let glide = CharacterState {
        glide_wielded: true,
        ..CharacterState::plain(CharacterKind::Other)
    };
    let gliding = || MirrorRow { character_state: Some(glide), ..human() };
    assert!(written(&world.pass(vec![gliding()], None)));
    assert!(!written(&world.pass(vec![gliding()], None)));
    assert!(world.loadouts.0.holds(1, &NetLoadout::bare(true)));
}

#[test]
fn default_dimension_is_wrapped_once() {
    let mut state = DefaultDimensionState::new();
    assert_eq!(ensure_default_dimension(&mut state, false, false), WrapStep::Idle);
    assert_eq!(ensure_default_dimension(&mut state, false, true), WrapStep::Wrap);
    assert!(finish_wrap(&mut state, false));
    assert_eq!(ensure_default_dimension(&mut state, false, true), WrapStep::Wrap);
    assert!(!finish_wrap(&mut state, true));
    assert_eq!(ensure_default_dimension(&mut state, false, true), WrapStep::Idle);

    // Somebody else has wrapped it.
    let mut state = DefaultDimensionState::new();
    assert_eq!(ensure_default_dimension(&mut state, true, true), WrapStep::Idle);
    assert!(state.wrapped);
}

fn tagged(sim_entity: u64, dimension: DimensionId) -> TaggedMirror {
    TaggedMirror { sim_entity, entity: sim_entity + 1000, dimension }
}

#[test]
fn drain_releases_the_occupants_of_the_dimension() {
    let mirrors = vec![tagged(1, EVENT), tagged(2, DEFAULT), tagged(3, EVENT)];
    assert_eq!(
        release_dimension_occupants_on_drain_request(&vec![EVENT], &mirrors),
        vec![
            Release { dimension: EVENT, entity: 1001 },
            Release { dimension: EVENT, entity: 1003 },
        ]
    );
    assert!(release_dimension_occupants_on_drain_request(&vec![DEFAULT], &mirrors).is_empty());
}

#[test]
fn teardown_deletes_the_entities_of_the_dimension() {
    let mut world = World::new();
    world.mirror.0.insert(1, 1001);
    world.mirror.0.insert(2, 1002);
    let mirrors = vec![tagged(1, EVENT), tagged(2, DEFAULT)];
    let ids = vec![DEFAULT, EVENT];
    let deleted = delete_specs_entities_for_torn_down_dimensions(
        &ids,
        &world.table,
        &mirrors,
        &mut world.mirror,
    );
    assert!(deleted.is_empty());
    world.table.set(EVENT, state(DimensionLifecycle::Teardown));
    world.table.set(DEFAULT, state(DimensionLifecycle::Teardown));
    let deleted = delete_specs_entities_for_torn_down_dimensions(
        &ids,
        &world.table,
        &mirrors,
        &mut world.mirror,
    );
    assert_eq!(deleted, vec![1]);
    assert_eq!(keys_of(&world.mirror.0), vec![2]);
}

fn shade() -> KnownTemplate {
    KnownTemplate {
        id: "shade".to_owned(),
        template: EntityTemplate {
            entity_template_id: "shade".to_owned(),
            body: "humanoid".to_owned(),
            name: Some("Shade".to_owned()),
            faction: "enemy".to_owned(),
            loot: None,
            ai_behavior_override: "wander".to_owned(),
        },
    }
}

fn rules(count: f32, templates: &[&str]) -> SpawningRules {
    SpawningRules {
        entity_templates: templates.iter().map(|id| (*id).to_owned()).collect(),
        spawn_count: count.to_bits(),
        ai_behavior_override: "stalk".to_owned(),
    }
}

#[test]
fn rules_stage_as_many_as_they_ask_for() {
    let spawned = spawn_from_spawning_rules(&vec![shade()], &rules(15.9, &["shade"]));
    assert_eq!(spawned.len(), 15);
    assert!(spawned.iter().all(|t| t.ai_behavior_override == "stalk" && t.faction == "enemy"));
    assert_eq!(spawned[14].name.as_deref(), Some("Shade"));
    // Every other template is not known.
    let spawned = spawn_from_spawning_rules(&vec![shade()], &rules(5.0, &["shade", "none"]));
    assert_eq!(spawned.len(), 3);
    assert!(spawn_from_spawning_rules(&vec![shade()], &rules(5.0, &[])).is_empty());
    assert!(spawn_from_spawning_rules(&vec![shade()], &rules(-3.0, &["shade"])).is_empty());
    assert!(spawn_from_spawning_rules(&vec![shade()], &rules(f32::NAN, &["shade"])).is_empty());
}

#[test]
fn factions_resolve_to_alignments() {
    assert_eq!(resolve_faction("enemy"), Alignment::Enemy);
    assert_eq!(resolve_faction("npc"), Alignment::Npc);
    assert_eq!(resolve_faction("tame"), Alignment::Tame);
    assert_eq!(resolve_faction("passive"), Alignment::Passive);
    assert_eq!(resolve_faction("wild"), Alignment::Wild);
    assert_eq!(resolve_faction("Enemy"), Alignment::Wild);
}

fn pending(entity: u64, dimension: DimensionId) -> PendingSpawn {
    PendingSpawn {
        entity,
        dimension,
        body: Some("humanoid".to_owned()),
        body_name: Some("Humanoid".to_owned()),
        name: None,
        faction: Some("npc".to_owned()),
        loot: Some("loot.table".to_owned()),
        ai_behavior: None,
    }
}

#[test]
fn pending_spawns_become_characters_where_they_may() {
    let mut table = DimensionTable::new();
    table.set(EVENT, state(DimensionLifecycle::Active));
    table.set(DimensionId(2), state(DimensionLifecycle::Draining));
    let mut named = pending(3, DEFAULT);
    named.name = Some("Bob".to_owned());
    named.faction = None;
    let mut bodiless = pending(4, DEFAULT);
    bodiless.body = None;
    let mut strange = pending(5, EVENT);
    strange.body_name = None;
    let requests =
        vec![pending(1, EVENT), pending(2, DimensionId(2)), named, bodiless, strange];
    let mut attribution = PendingDimensionAttribution(VecDeque::new());

    let plan = apply_pending_entity_template_spawns(false, &requests, &table, &mut attribution);
    assert!(plan.despawn.is_empty() && plan.npcs.is_empty());

    let plan = apply_pending_entity_template_spawns(true, &requests, &table, &mut attribution);
    assert_eq!(plan.despawn, vec![1, 2, 3, 4, 5]);
    assert_eq!(plan.npcs.len(), 2);
    assert_eq!(plan.npcs[0].request, 0);
    assert_eq!(plan.npcs[0].name, "Humanoid");
    assert_eq!(plan.npcs[0].alignment, Alignment::Npc);
    assert_eq!(plan.npcs[0].loot.as_deref(), Some("loot.table"));
    assert_eq!(plan.npcs[1].request, 2);
    assert_eq!(plan.npcs[1].name, "Bob");
    assert_eq!(plan.npcs[1].alignment, Alignment::Wild);
    assert_eq!(attribution.0, VecDeque::from([EVENT]));
}

#[test]
fn cache_writes_what_changed() {
    let mut cache: DedupCache<NetLoadout> = DedupCache::new();
    assert!(matches!(cache.offer(1, Some(NetLoadout::bare(false))), Write::Put(_)));
    assert!(matches!(cache.offer(1, Some(NetLoadout::bare(false))), Write::Keep));
    assert!(matches!(cache.offer(1, Some(NetLoadout::bare(true))), Write::Put(_)));
    assert!(matches!(cache.offer(1, None), Write::Remove));
    assert!(!cache.contains(1));
    cache.put(1, NetLoadout::bare(false));
    cache.put(2, NetLoadout::bare(false));
    cache.retain(&HashMap::from([(2, 20)]));
    assert!(!cache.contains(1) && cache.contains(2));
    assert!(cache.get(2).is_some() && cache.get(1).is_none());
}
