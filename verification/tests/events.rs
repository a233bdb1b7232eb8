use std::collections::{HashMap, HashSet};
use xindeler_sim_bridge::dimension_lifecycle::{
    delete_specs_entities_for_torn_down_dimensions, TaggedMirror,
};
use xindeler_sim_bridge::entity_factory::{
    spawn_from_spawning_rules, EntityTemplate, KnownTemplate, SpawningRules,
};
use xindeler_sim_bridge::ids::{DimensionId, DimensionLifecycle, DimensionState, DimensionTable};
use xindeler_sim_bridge::mirror::{SimEntityDimension, SimMirror};
use xindeler_sim_bridge::once_list::OnceList;
use xindeler_sim_bridge::oracle::{
    cleanup_dimension_side_tables_on_teardown, detect_player_dimension_entry,
    entity_template_asset_path, event_gen_opts, ingest_dm_events, mark_activated, open_zone,
    pending_events, request_templates, request_well_known_events_from_manifest, retire_dm_events,
    scatter_chunk_radius, scatter_chunks, spawn_event_minions, spawn_facts, wants_templates,
    ActiveEvent,
    AssetNoticeKind, ChunkKey, EntityTemplateHandles, EventNotice, EventTransferZones, FileStatus,
    ManifestNotice, NextDimensionId, OracleEventRegistry, RequestedEvents, RetiredEvent,
    SessionSighting, SpawnFacts, SpawnStep, ZoneSighting, EVENT_BASE_SEED,
    SPAWN_RADIUS_CEILING,
};
use xindeler_sim_bridge::player_transfer::{
    apply_player_dimension_transfers, eject_players_before_dimension_teardown, ClientSession,
    TransferAction, TransferEnd, TransferEvent, TransferPlayerDimension, TransferStart,
};
use xindeler_sim_bridge::session::PlayerDimensionSession;

const DEFAULT: DimensionId = DimensionId(0);
const EVENT: DimensionId = DimensionId(1);

/// The dimensions and who is in them: a dimension takes an occupant in while it is active, and
/// one that is draining is torn down when the last occupant leaves.
struct Registry {
    dimensions: HashMap<u64, (DimensionState, HashSet<u64>)>,
}

impl Registry {
    fn table(&self) -> DimensionTable {
        let mut table = DimensionTable::new();
        for (id, (state, _)) in &self.dimensions {
            table.set(DimensionId(*id), *state);
        }
        table
    }

    fn try_add_occupant(&mut self, id: DimensionId, entity: u64) -> bool {
        match self.dimensions.get_mut(&id.0) {
            Some((state, occupants)) if state.accepts_new_entrants() => occupants.insert(entity),
            _ => false,
        }
    }

    fn remove_occupant(&mut self, id: DimensionId, entity: u64) {
        let (state, occupants) = self.dimensions.get_mut(&id.0).unwrap();
        occupants.remove(&entity);
        if occupants.is_empty() && state.lifecycle == DimensionLifecycle::Draining {
            state.lifecycle = DimensionLifecycle::Teardown;
        }
    }

    fn begin_draining(&mut self, id: DimensionId) {
        let (state, occupants) = self.dimensions.get_mut(&id.0).unwrap();
        state.lifecycle = if occupants.is_empty() {
            DimensionLifecycle::Teardown
        } else {
            DimensionLifecycle::Draining
        };
    }

    fn occupant_count(&self, id: DimensionId) -> usize {
        self.dimensions[&id.0].1.len()
    }
}

struct App {
    registry: Registry,
    mirror: SimMirror,
    dims: SimEntityDimension,
    /// The tag and the root of each mirror.
    tags: HashMap<u64, (DimensionId, u64)>,
    sessions: Vec<ClientSession>,
    viewpoints: HashMap<u64, DimensionId>,
}

impl App {
    fn new() -> App {
        App {
            registry: Registry { dimensions: HashMap::new() },
            mirror: SimMirror(HashMap::new()),
            dims: SimEntityDimension(HashMap::new()),
            tags: HashMap::new(),
            sessions: vec![],
            viewpoints: HashMap::new(),
        }
    }

    fn spin_up_active_dimension(&mut self, id: u64) -> (DimensionId, u64) {
        let root = 100 + id;
        let state = DimensionState { lifecycle: DimensionLifecycle::Active, root };
        self.registry.dimensions.insert(id, (state, HashSet::new()));
        (DimensionId(id), root)
    }

    fn spawn_mirror(&mut self, sim_entity: u64, dimension: DimensionId, root: u64) -> u64 {
        let entity = sim_entity + 1000;
        self.mirror.0.insert(sim_entity, entity);
        self.dims.0.insert(sim_entity, dimension);
        self.tags.insert(entity, (dimension, root));
        assert!(self.registry.try_add_occupant(dimension, entity));
        entity
    }

    fn step(&mut self, event: TransferEvent) -> TransferAction {
        let table = self.registry.table();
        apply_player_dimension_transfers(event, &self.mirror, &mut self.dims, &table, &self.sessions)
    }

    fn transfer(&mut self, sim_entity: u64, target: DimensionId) -> TransferStart {
        let request = TransferPlayerDimension { sim_entity, target };
        let start = match self.step(TransferEvent::Requested(request)) {
            TransferAction::Start(start) => start,
            TransferAction::End(_) => panic!("a request starts a move"),
        };
        if let TransferStart::Move(step) = start {
            self.registry.remove_occupant(step.current, step.entity);
            let end = if self.registry.try_add_occupant(step.target, step.entity) {
                self.step(TransferEvent::Joined(step))
            } else {
                self.step(TransferEvent::Rejected(step))
            };
            match end {
                TransferAction::End(TransferEnd::Committed { entity, dimension, root, client }) => {
                    self.tags.insert(entity, (dimension, root));
                    if let Some(client) = client {
                        self.viewpoints.insert(client, dimension);
                    }
                }
                TransferAction::End(TransferEnd::RolledBack { entity, current }) => {
                    self.registry.try_add_occupant(current, entity);
                }
                TransferAction::Start(_) => panic!("a move ends"),
            }
        }
        start
    }

    fn tagged(&self) -> Vec<TaggedMirror> {
        self.mirror
            .0
            .iter()
            .map(|(sim_entity, entity)| TaggedMirror {
                sim_entity: *sim_entity,
                entity: *entity,
                dimension: self.tags[entity].0,
            })
            .collect()
    }
}

#[test]
fn transfer_moves_a_mirrored_entity_between_active_dimensions_and_updates_occupancy_and_tags() {
    let mut app = App::new();
    let (default_id, default_root) = app.spin_up_active_dimension(0);
    let (event_id, event_root) = app.spin_up_active_dimension(1);
    let entity = app.spawn_mirror(7, default_id, default_root);
    app.transfer(7, event_id);
    assert_eq!(app.dims.0.get(&7), Some(&event_id));
    assert_eq!(app.tags[&entity], (event_id, event_root));
    assert_eq!(app.registry.occupant_count(default_id), 0);
    assert_eq!(app.registry.occupant_count(event_id), 1);
}

#[test]
fn transfer_rejects_a_target_dimension_that_does_not_exist() {
    let mut app = App::new();
    let (default_id, default_root) = app.spin_up_active_dimension(0);
    let entity = app.spawn_mirror(7, default_id, default_root);
    assert_eq!(app.transfer(7, DimensionId(999)), TransferStart::Refused);
    assert_eq!(app.dims.0.get(&7), Some(&default_id));
    assert_eq!(app.tags[&entity].0, default_id);
    assert_eq!(app.registry.occupant_count(default_id), 1);
}

#[test]
fn transfer_rejects_a_target_dimension_that_is_draining() {
    let mut app = App::new();
    let (default_id, default_root) = app.spin_up_active_dimension(0);
    let (draining_id, _) = app.spin_up_active_dimension(1);
    assert!(app.registry.try_add_occupant(draining_id, 9001));
    app.registry.begin_draining(draining_id);
    app.spawn_mirror(7, default_id, default_root);
    assert_eq!(app.transfer(7, draining_id), TransferStart::Refused);
    assert_eq!(app.dims.0.get(&7), Some(&default_id));
}

#[test]
fn transfer_is_a_no_op_when_already_in_the_target_dimension() {
    let mut app = App::new();
    let (default_id, default_root) = app.spin_up_active_dimension(0);
    app.spawn_mirror(7, default_id, default_root);
    assert_eq!(app.transfer(7, default_id), TransferStart::AlreadyThere);
    assert_eq!(app.registry.occupant_count(default_id), 1);
}

#[test]
fn transfer_syncs_a_linked_replicon_sessions_client_viewpoint_dimension() {
    let mut app = App::new();
    let (default_id, default_root) = app.spin_up_active_dimension(0);
    let (event_id, _) = app.spin_up_active_dimension(1);
    app.spawn_mirror(7, default_id, default_root);
    app.sessions.push(ClientSession { client: 54, session: PlayerDimensionSession(8) });
    app.sessions.push(ClientSession { client: 55, session: PlayerDimensionSession(7) });
    app.viewpoints.insert(55, default_id);
    app.transfer(7, event_id);
    assert_eq!(app.viewpoints[&55], event_id);
    assert!(!app.viewpoints.contains_key(&54));
}

#[test]
fn transfer_of_an_unmirrored_entity_is_ignored() {
    let mut app = App::new();
    let (event_id, _) = app.spin_up_active_dimension(1);
    assert_eq!(app.transfer(7, event_id), TransferStart::Unmirrored);
    assert!(app.dims.0.is_empty());
}

#[test]
fn transfer_that_the_target_rejects_is_rolled_back() {
    let mut app = App::new();
    let (default_id, default_root) = app.spin_up_active_dimension(0);
    let (event_id, _) = app.spin_up_active_dimension(1);
    let entity = app.spawn_mirror(7, default_id, default_root);
    let request = TransferPlayerDimension { sim_entity: 7, target: event_id };
    let step = match app.step(TransferEvent::Requested(request)) {
        TransferAction::Start(TransferStart::Move(step)) => step,
        _ => panic!("an active dimension is entered"),
    };
    assert_eq!(
        app.step(TransferEvent::Rejected(step)),
        TransferAction::End(TransferEnd::RolledBack { entity, current: default_id })
    );
    assert_eq!(app.dims.0.get(&7), Some(&default_id));
}

#[test]
fn eject_transfers_the_local_player_and_a_replicon_session_but_leaves_a_plain_npc_tagged() {
    let mut app = App::new();
    app.spin_up_active_dimension(0);
    let (event_id, event_root) = app.spin_up_active_dimension(1);
    let (local_player, session, npc) = (1u64, 2u64, 3u64);
    app.spawn_mirror(local_player, event_id, event_root);
    app.spawn_mirror(session, event_id, event_root);
    let npc_entity = app.spawn_mirror(npc, event_id, event_root);

    app.registry.begin_draining(event_id);
    let ejected = eject_players_before_dimension_teardown(
        &vec![event_id],
        &app.tagged(),
        &vec![local_player],
        &vec![session],
    );
    assert_eq!(ejected.len(), 2);
    for request in ejected {
        app.transfer(request.sim_entity, request.target);
    }
    assert_eq!(app.dims.0.get(&local_player), Some(&DEFAULT));
    assert_eq!(app.dims.0.get(&session), Some(&DEFAULT));
    assert_eq!(app.tags[&npc_entity].0, event_id);

    // The character is released and goes with the dimension; the players stay.
    app.registry.remove_occupant(event_id, npc_entity);
    let table = app.registry.table();
    assert_eq!(table.get(event_id).unwrap().lifecycle, DimensionLifecycle::Teardown);
    let tagged = app.tagged();
    let deleted = delete_specs_entities_for_torn_down_dimensions(
        &vec![DEFAULT, event_id],
        &table,
        &tagged,
        &mut app.mirror,
    );
    assert_eq!(deleted, vec![npc]);
    assert_eq!(app.mirror.0.len(), 2);
}

#[test]
fn nobody_is_ejected_from_the_default_dimension() {
    let mirrors = vec![TaggedMirror { sim_entity: 1, entity: 11, dimension: DEFAULT }];
    let ejected =
        eject_players_before_dimension_teardown(&vec![DEFAULT, EVENT], &mirrors, &vec![1], &vec![1]);
    assert!(ejected.is_empty());
    // Two mirrors that claim to be the local player are none.
    let mirrors = vec![TaggedMirror { sim_entity: 1, entity: 11, dimension: EVENT }];
    let ejected =
        eject_players_before_dimension_teardown(&vec![EVENT], &mirrors, &vec![1, 2], &vec![]);
    assert!(ejected.is_empty());
}

fn active_table(ids: &[DimensionId]) -> DimensionTable {
    let mut table = DimensionTable::new();
    for id in ids {
        table.set(*id, DimensionState { lifecycle: DimensionLifecycle::Active, root: 1 });
    }
    table
}

fn notice(kind: AssetNoticeKind, asset: u64, loaded: bool) -> EventNotice {
    EventNotice {
        kind,
        asset,
        loaded,
        on_enter_message: Some(
            "The veil parts. You have crossed into the Mist-Bound.".to_owned(),
        ),
    }
}

#[test]
fn ingest_spinup_spawn_and_hooks_chain_without_a_real_sim() {
    let asset = 77u64;
    let mut next_id = NextDimensionId::new();
    let mut registry = OracleEventRegistry(HashMap::new());

    let ingested = ingest_dm_events(
        &vec![notice(AssetNoticeKind::Added, asset, true)],
        &mut next_id,
        &mut registry,
    );
    assert_eq!(ingested.len(), 1);
    let dimension = ingested[0].dimension;
    assert_ne!(dimension, DEFAULT);
    assert_eq!(ingested[0].base_seed, EVENT_BASE_SEED);
    assert_eq!(
        ingested[0].on_enter_message.as_deref(),
        Some("The veil parts. You have crossed into the Mist-Bound.")
    );

    assert!(pending_events(&registry).is_empty());
    mark_activated(&mut registry, &vec![dimension]);
    assert_eq!(pending_events(&registry), vec![asset]);

    let table = active_table(&[DEFAULT, dimension]);
    assert!(wants_templates(&registry, asset, true, &table));
    let mut handles = EntityTemplateHandles(OnceList::new());
    let requests = request_templates(&mut handles, &vec!["mist_bound_shade".to_owned()]);
    assert_eq!(
        requests[0].path,
        "xindeler/entity_templates/mist_bound_shade.entity_template.ron"
    );
    assert!(request_templates(&mut handles, &vec!["mist_bound_shade".to_owned()]).is_empty());

    let mut facts =
        SpawnFacts { asset_loaded: true, templates_loaded: false, terrain_ready: None };
    assert_eq!(spawn_event_minions(&mut registry, asset, facts, &table), SpawnStep::Retry);
    facts.templates_loaded = true;
    assert_eq!(
        spawn_event_minions(&mut registry, asset, facts, &table),
        SpawnStep::Spawn { dimension, seed: dimension.0, in_world: false }
    );
    assert!(pending_events(&registry).is_empty());

    let template = KnownTemplate {
        id: "mist_bound_shade".to_owned(),
        template: EntityTemplate {
            entity_template_id: "mist_bound_shade".to_owned(),
            body: "humanoid".to_owned(),
            name: None,
            faction: "enemy".to_owned(),
            loot: None,
            ai_behavior_override: "stalk".to_owned(),
        },
    };
    let rules = SpawningRules {
        entity_templates: vec!["mist_bound_shade".to_owned()],
        spawn_count: 15.0f32.to_bits(),
        ai_behavior_override: "stalk".to_owned(),
    };
    assert_eq!(spawn_from_spawning_rules(&vec![template], &rules).len(), 15);
}

#[test]
fn spawn_radius_ceiling_stays_under_the_event_dimension_half_extent() {
    const RADIUS_CEILING: f32 = 400.0;
    const CHUNK_SIZE: f32 = 32.0;
    let half_extent_of = |lg: u32| (1u32 << lg) as f32 * CHUNK_SIZE / 2.0;
    let opts = event_gen_opts();
    let world_half_extent = half_extent_of(opts.x_lg).min(half_extent_of(opts.y_lg));
    assert!(RADIUS_CEILING < world_half_extent);
    // The chunks that have to be there all lie in such a world.
    let r = scatter_chunk_radius(RADIUS_CEILING.to_bits());
    assert_eq!(r, 14);
    let chunks = scatter_chunks(1 << opts.x_lg, 1 << opts.y_lg, r);
    assert_eq!(chunks.len(), 29 * 29);
    assert!(chunks.iter().all(|c| 0 <= c.x && c.x < 32 && 0 <= c.y && c.y < 32));
}

#[test]
fn every_radius_up_to_the_ceiling_stays_in_the_event_world() {
    assert_eq!(SPAWN_RADIUS_CEILING, 400.0f32.to_bits());
    let opts = event_gen_opts();
    for radius in [-1.0e9f32, -1.0, 0.0, 1.0, 31.9, 255.5, 256.0, 383.9, 399.9, 400.0] {
        let r = scatter_chunk_radius(radius.to_bits());
        let chunks = scatter_chunks(1 << opts.x_lg, 1 << opts.y_lg, r);
        assert!(chunks.iter().all(|c| 0 <= c.x && c.x < 32 && 0 <= c.y && c.y < 32), "{radius}");
    }
    // A radius of 512 reaches past the edge.
    let chunks = scatter_chunks(32, 32, scatter_chunk_radius(512.0f32.to_bits()));
    assert!(chunks.iter().any(|c| c.x < 0 || c.x >= 32));
}

#[test]
fn facts_hold_where_everything_is_there() {
    let facts = spawn_facts(true, &vec![true, true], Some(&vec![true]));
    assert_eq!(
        facts,
        SpawnFacts { asset_loaded: true, templates_loaded: true, terrain_ready: Some(true) }
    );
    let facts = spawn_facts(false, &vec![true, false], Some(&vec![true, false, true]));
    assert_eq!(
        facts,
        SpawnFacts { asset_loaded: false, templates_loaded: false, terrain_ready: Some(false) }
    );
    let facts = spawn_facts(true, &vec![], None);
    assert_eq!(
        facts,
        SpawnFacts { asset_loaded: true, templates_loaded: true, terrain_ready: None }
    );
}

#[test]
fn events_are_ingested_once_into_dimensions_of_their_own() {
    let mut next_id = NextDimensionId::new();
    let mut registry = OracleEventRegistry(HashMap::new());
    let ingested = ingest_dm_events(
        &vec![
            notice(AssetNoticeKind::Other, 1, true),
            notice(AssetNoticeKind::Added, 2, false),
            notice(AssetNoticeKind::Modified, 3, true),
            notice(AssetNoticeKind::Added, 3, true),
            notice(AssetNoticeKind::Added, 4, true),
        ],
        &mut next_id,
        &mut registry,
    );
    let taken: Vec<(u64, DimensionId)> =
        ingested.iter().map(|event| (event.asset, event.dimension)).collect();
    assert_eq!(taken, vec![(3, DimensionId(1)), (4, DimensionId(2))]);
    assert_eq!(next_id.allocate(), DimensionId(3));
}

#[test]
fn minions_wait_for_their_ground_and_give_up_with_their_dimension() {
    let event = ActiveEvent { dimension: EVENT, active: true, spawned: false, retired: false };
    let registry = || OracleEventRegistry(HashMap::from([(5u64, event)]));
    let facts = |terrain_ready: Option<bool>| SpawnFacts {
        asset_loaded: true,
        templates_loaded: true,
        terrain_ready,
    };
    let table = active_table(&[EVENT]);
    let mut waiting = registry();
    assert_eq!(
        spawn_event_minions(&mut waiting, 5, facts(Some(false)), &table),
        SpawnStep::Retry
    );
    assert_eq!(waiting.0[&5], event);
    assert_eq!(
        spawn_event_minions(&mut waiting, 5, facts(Some(true)), &table),
        SpawnStep::Spawn { dimension: EVENT, seed: 1, in_world: true }
    );
    assert!(waiting.0[&5].spawned);
    let after = waiting.0[&5];
    assert_eq!(
        spawn_event_minions(&mut waiting, 5, facts(Some(true)), &table),
        SpawnStep::Retry
    );
    assert_eq!(waiting.0[&5], after);
    assert!(!wants_templates(&waiting, 5, true, &table));

    for idle in [
        ActiveEvent { active: false, ..event },
        ActiveEvent { retired: true, ..event },
    ] {
        let mut registry = OracleEventRegistry(HashMap::from([(5u64, idle)]));
        assert!(!wants_templates(&registry, 5, true, &table));
        let step = spawn_event_minions(&mut registry, 5, facts(None), &table);
        assert_eq!(step, SpawnStep::Retry);
        assert_eq!(registry.0[&5], idle);
    }

    let mut gone = registry();
    let step = spawn_event_minions(&mut gone, 5, facts(Some(true)), &active_table(&[]));
    assert_eq!(step, SpawnStep::GiveUp);
    assert!(gone.0[&5].spawned);
    assert_eq!(spawn_event_minions(&mut gone, 5, facts(Some(true)), &table), SpawnStep::Retry);
    assert_eq!(spawn_event_minions(&mut gone, 6, facts(None), &table), SpawnStep::Retry);
    assert!(!wants_templates(&registry(), 5, false, &table));
    assert!(!wants_templates(&registry(), 5, true, &active_table(&[])));
}

#[test]
fn scatter_radius_rounds_up_and_adds_a_chunk() {
    for (radius, chunks) in [(0.0f32, 1), (1.0, 2), (32.0, 2), (32.5, 3), (-40.0, 0), (400.0, 14)] {
        assert_eq!(scatter_chunk_radius(radius.to_bits()), chunks, "{radius}");
        assert_eq!((radius / 32.0).ceil() as i32 + 1, chunks);
    }
    for radius in [-1.0e30f32, f32::NEG_INFINITY, f32::NAN] {
        let chunks = (radius / 32.0).ceil() as i32 + 1;
        assert_eq!(scatter_chunk_radius(radius.to_bits()), chunks, "{radius}");
    }
    assert_eq!(scatter_chunk_radius(f32::NEG_INFINITY.to_bits()), i32::MIN + 1);
    let chunks = scatter_chunks(4, 4, 1);
    assert_eq!(chunks.len(), 9);
    assert!(chunks.contains(&ChunkKey { x: 1, y: 3 }));
    assert!(scatter_chunks(4, 4, -1).is_empty());
}

fn sighting(sim_entity: u64, zones: &[(DimensionId, bool)]) -> SessionSighting {
    SessionSighting {
        sim_entity,
        zones: Some(
            zones
                .iter()
                .map(|(dimension, inside)| ZoneSighting { dimension: *dimension, inside: *inside })
                .collect(),
        ),
    }
}

#[test]
fn players_cross_over_one_way() {
    let table = active_table(&[DEFAULT, EVENT]);
    let mut dims = SimEntityDimension(HashMap::new());
    dims.0.insert(2, EVENT);
    let sessions = vec![
        sighting(1, &[(DimensionId(5), true), (EVENT, true)]),
        sighting(2, &[(EVENT, true)]),
        sighting(3, &[(EVENT, false)]),
        SessionSighting { sim_entity: 4, zones: None },
    ];
    assert_eq!(
        detect_player_dimension_entry(&sessions, &dims, &table),
        vec![TransferPlayerDimension { sim_entity: 1, target: EVENT }]
    );
    let mut zones = EventTransferZones(HashMap::new());
    open_zone(&mut zones, EVENT, 1, 2, (-5.0f32).to_bits());
    assert_eq!(zones.0[&1].radius, 0f32.to_bits());
    open_zone(&mut zones, DimensionId(2), 1, 2, 5.0f32.to_bits());
    assert_eq!(zones.0[&2].radius, 5.0f32.to_bits());
    cleanup_dimension_side_tables_on_teardown(&vec![EVENT, DimensionId(9)], &mut zones);
    assert!(!zones.0.contains_key(&1) && zones.0.contains_key(&2));
}

#[test]
fn events_retire_with_their_files_and_can_return() {
    let mut next_id = NextDimensionId::new();
    let mut registry = OracleEventRegistry(HashMap::new());
    let added = || vec![notice(AssetNoticeKind::Added, 8, true)];
    ingest_dm_events(&added(), &mut next_id, &mut registry);
    assert!(retire_dm_events(&vec![FileStatus { asset: 8, exists: true }], &mut registry).is_empty());
    assert_eq!(
        retire_dm_events(
            &vec![
                FileStatus { asset: 8, exists: false },
                FileStatus { asset: 9, exists: false },
            ],
            &mut registry
        ),
        vec![RetiredEvent { asset: 8, dimension: DimensionId(1) }]
    );
    assert!(registry.0.is_empty());
    let again = ingest_dm_events(&added(), &mut next_id, &mut registry);
    assert_eq!(again[0].dimension, DimensionId(2));
}

#[test]
fn manifest_events_are_requested_once() {
    let names = Some(vec!["a.ron".to_owned(), "b.ron".to_owned(), "a.ron".to_owned()]);
    let mut requested = RequestedEvents(OnceList::new());
    let change = vec![ManifestNotice { kind: AssetNoticeKind::Modified, asset: 3 }];
    let other = vec![
        ManifestNotice { kind: AssetNoticeKind::Other, asset: 3 },
        ManifestNotice { kind: AssetNoticeKind::Added, asset: 4 },
    ];
    assert!(request_well_known_events_from_manifest(&other, 3, &names, &mut requested).is_empty());
    assert!(request_well_known_events_from_manifest(&change, 3, &None, &mut requested).is_empty());
    let requests = request_well_known_events_from_manifest(&change, 3, &names, &mut requested);
    let paths: Vec<&str> = requests.iter().map(|request| request.path.as_str()).collect();
    assert_eq!(paths, vec!["oracle://a.ron", "oracle://b.ron"]);
    assert_eq!(requests[1].filename, "b.ron");
    assert!(request_well_known_events_from_manifest(&change, 3, &names, &mut requested).is_empty());
    assert!(requested.0.contains(&"b.ron".to_owned()));
    assert!(!requested.0.contains(&"c.ron".to_owned()));
    assert_eq!(
        entity_template_asset_path("mist_bound_shade"),
        "xindeler/entity_templates/mist_bound_shade.entity_template.ron"
    );
}
