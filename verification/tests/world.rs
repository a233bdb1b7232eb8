use std::collections::HashSet;
use xindeler_sim_bridge::aurora::{
    recompute_aurora_overlay, tick_aurora_overlay, AiExecutionMode, AuroraNpcState, AuroraOverlay,
    IntentKind, Intention, MirroredUid, MoodKind,
};
use xindeler_sim_bridge::ids::DimensionId;
use xindeler_sim_bridge::npc_spawn::{
    humanoid_test_inventory, ring_centre, spawn_test_npcs, GearSlot, NpcKind, PlayerReadiness,
    RingCentre, TestNpcState, TEST_NPC_RING_RADIUS,
};
use xindeler_sim_bridge::number::parse_u32;
use xindeler_sim_bridge::oracle::ChunkKey;
use xindeler_sim_bridge::plugins::{
    CharListMirrorPlugin, ChatBridgePlugin, CombatHudMirrorPlugin, CraftingMirrorPlugin,
    HotbarMirrorPlugin, InventoryMirrorPlugin, LodAltStreamPlugin, LodZoneStreamPlugin,
    MapDataStreamPlugin, PlayerBridgePlugin, PlayerTransferPlugin, ServerOraclePlugin,
    SfxLocomotionMirrorPlugin, SfxOutcomeBridgePlugin, SimBridgePlugin, SimEntityMirrorPlugin,
    SimTerrainStreamPlugin,
};
use xindeler_sim_bridge::schedule::{
    BridgePlugin, Edge, Phase, PluginKind, Resource, SchedulePlan, Setting, Step, System,
};
use xindeler_sim_bridge::terrain::{
    apply_default_viewpoint_for_new_clients, ensure_terrain_anchor, stream_terrain_changes,
    tick_sim, world_centre, SimServer, TerrainAnchorState, TerrainChanges, TerrainMessage, WorldPos,
    SIM_TICK_HZ, SIM_TICK_INTERVAL,
};

#[test]
fn aurora_overlay_stays_empty_while_offline() {
    let mut overlay = AuroraOverlay::new();
    let mut scratch = HashSet::new();
    recompute_aurora_overlay(AiExecutionMode::Offline, &mut overlay, &vec![1, 2, 3], &mut scratch);
    assert!(overlay.0.is_empty());
}

#[test]
fn aurora_overlay_populates_neutral_defaults_outside_offline() {
    for mode in [AiExecutionMode::LocalOnly, AiExecutionMode::Full] {
        let mut overlay = AuroraOverlay::new();
        let mut scratch = HashSet::new();
        recompute_aurora_overlay(mode, &mut overlay, &vec![10, 20], &mut scratch);
        assert_eq!(overlay.0.len(), 2);
        for uid in [10, 20] {
            let state = overlay.0.get(&uid).unwrap();
            assert_eq!(state, &AuroraNpcState::default());
            assert!(state.short_term_memory.is_empty());
            assert_eq!(
                state.intention,
                vec![Intention { kind: IntentKind::Idle, weight: 1.0f32.to_bits() }]
            );
            assert_eq!(state.emotional_state.mood, MoodKind::Neutral);
            assert_eq!(f32::from_bits(state.emotional_state.intensity), 0.0);
        }
    }
}

#[test]
fn aurora_overlay_never_overwrites_an_existing_entry() {
    let mut overlay = AuroraOverlay::new();
    let mut scratch = HashSet::new();
    recompute_aurora_overlay(AiExecutionMode::LocalOnly, &mut overlay, &vec![7], &mut scratch);
    let mut seeded = AuroraNpcState::default();
    seeded.short_term_memory.push("something happened".to_owned());
    overlay.0.insert(7, seeded.clone());
    recompute_aurora_overlay(AiExecutionMode::LocalOnly, &mut overlay, &vec![7], &mut scratch);
    assert_eq!(overlay.0.get(&7), Some(&seeded));
}

#[test]
fn aurora_overlay_prunes_npcs_no_longer_live() {
    let mut overlay = AuroraOverlay::new();
    let mut scratch = HashSet::new();
    recompute_aurora_overlay(AiExecutionMode::Full, &mut overlay, &vec![1, 2], &mut scratch);
    assert_eq!(overlay.0.len(), 2);
    recompute_aurora_overlay(AiExecutionMode::Full, &mut overlay, &vec![1], &mut scratch);
    assert_eq!(overlay.0.len(), 1);
    assert!(overlay.0.contains_key(&1));
    assert!(!overlay.0.contains_key(&2));
    assert_eq!(scratch.len(), 1);
}

#[test]
fn aurora_overlay_clears_on_toggle_back_to_offline() {
    let mut overlay = AuroraOverlay::new();
    let mut scratch = HashSet::new();
    recompute_aurora_overlay(AiExecutionMode::Full, &mut overlay, &vec![1, 2], &mut scratch);
    assert_eq!(overlay.0.len(), 2);
    recompute_aurora_overlay(AiExecutionMode::Offline, &mut overlay, &vec![1, 2], &mut scratch);
    assert!(overlay.0.is_empty());
}

#[test]
fn tick_aurora_overlay_system_respects_mode_and_local_player_exclusion() {
    let mut overlay = AuroraOverlay::new();
    let mut scratch = HashSet::new();
    let rows = vec![
        MirroredUid { uid: 100, is_local_player: false },
        MirroredUid { uid: 200, is_local_player: true },
    ];
    tick_aurora_overlay(AiExecutionMode::Offline, &mut overlay, &rows, &mut scratch);
    assert!(overlay.0.is_empty());
    tick_aurora_overlay(AiExecutionMode::LocalOnly, &mut overlay, &rows, &mut scratch);
    assert_eq!(overlay.0.len(), 1);
    assert!(overlay.0.contains_key(&100));
    assert!(!overlay.0.contains_key(&200));
    assert_eq!(overlay.0.get(&100), Some(&AuroraNpcState::default()));
    tick_aurora_overlay(AiExecutionMode::Offline, &mut overlay, &rows, &mut scratch);
    assert!(overlay.0.is_empty());
}

fn chunk(x: i32, y: i32) -> ChunkKey {
    ChunkKey { x, y }
}

#[test]
fn changed_chunks_wait_until_they_are_taken() {
    let mut sim = SimServer::new();
    let first = TerrainChanges {
        new_chunks: vec![chunk(0, 0)],
        modified_chunks: vec![chunk(1, 1)],
        removed_chunks: vec![],
    };
    tick_sim(&mut sim, &Some(first));
    tick_sim(&mut sim, &None);
    let second = TerrainChanges {
        new_chunks: vec![],
        modified_chunks: vec![chunk(2, 2)],
        removed_chunks: vec![chunk(0, 0)],
    };
    tick_sim(&mut sim, &Some(second));
    assert_eq!(sim.ticks, 2);
    let pending = sim.take_pending();
    assert_eq!(pending.upserted, vec![chunk(0, 0), chunk(1, 1), chunk(2, 2)]);
    assert_eq!(pending.removed, vec![chunk(0, 0)]);
    // The first chunk is gone again: only its removal is told.
    assert_eq!(
        stream_terrain_changes(&pending, &vec![false, true, true]),
        vec![
            TerrainMessage::Chunk(chunk(1, 1)),
            TerrainMessage::Chunk(chunk(2, 2)),
            TerrainMessage::Remove(chunk(0, 0)),
        ]
    );
    let again = sim.take_pending();
    assert!(again.upserted.is_empty() && again.removed.is_empty());
    assert_eq!(sim.ticks, 2);
    assert!(SIM_TICK_INTERVAL * SIM_TICK_HZ <= 1_000_000_000);
}

#[test]
fn anchor_is_broadcast_once_and_stands_in_for_a_player_who_failed() {
    let centre = WorldPos { x: 16f32.to_bits(), y: 32f32.to_bits(), z: 0 };
    let mut state = TerrainAnchorState::new();
    let plan = ensure_terrain_anchor(&mut state, None, None);
    assert!(!plan.spawn_persister && plan.broadcast.is_none());
    assert_eq!(state.anchor_wpos(), None);
    assert!(apply_default_viewpoint_for_new_clients(&state, &vec![1], 6).is_empty());

    let plan = ensure_terrain_anchor(&mut state, Some(centre), Some(false));
    assert!(!plan.spawn_persister);
    assert_eq!(plan.broadcast, Some(centre));
    assert_eq!(state.anchor_wpos(), Some(centre));

    let elsewhere = WorldPos { x: 1, y: 2, z: 3 };
    let plan = ensure_terrain_anchor(&mut state, Some(elsewhere), Some(true));
    assert!(plan.spawn_persister);
    assert_eq!(plan.broadcast, None);
    assert_eq!(state.anchor_wpos(), Some(centre));
    let plan = ensure_terrain_anchor(&mut state, Some(centre), None);
    assert!(!plan.spawn_persister && plan.broadcast.is_none());

    let viewpoints = apply_default_viewpoint_for_new_clients(&state, &vec![7, 9], 6);
    assert_eq!(viewpoints.len(), 2);
    assert_eq!(viewpoints[1].client, 9);
    assert_eq!(viewpoints[1].dimension, DimensionId(0));
    assert_eq!((viewpoints[1].x, viewpoints[1].y), (centre.x, centre.y));
    assert_eq!(viewpoints[1].view_distance, 6);
}

#[test]
fn centre_of_a_world_lies_half_way() {
    assert_eq!(world_centre(1024, 3), (16384, 48));
    assert_eq!(world_centre(0, u32::MAX), (0, 68719476720));
    assert_eq!(ring_centre(None, 2, 4), RingCentre::World { x: 32, y: 64 });
    assert_eq!(ring_centre(Some((5, 6)), 2, 4), RingCentre::Player { x: 5, y: 6 });
}

#[test]
fn ring_waits_for_the_player_and_then_for_the_ground() {
    let connecting = Some(PlayerReadiness { in_game: false, failed: false });
    let playing = Some(PlayerReadiness { in_game: true, failed: false });
    let mut state = TestNpcState::new(None);
    assert_eq!((state.count, state.warmup_ticks), (8, 150));
    assert!(spawn_test_npcs(&mut state, None, playing).is_none());
    assert!(spawn_test_npcs(&mut state, Some(400), connecting).is_none());
    assert_eq!(state.ready_since, None);
    assert!(spawn_test_npcs(&mut state, Some(500), playing).is_none());
    assert_eq!(state.ready_since, Some(500));
    assert!(spawn_test_npcs(&mut state, Some(649), playing).is_none());
    let npcs = spawn_test_npcs(&mut state, Some(650), playing).unwrap();
    assert!(state.spawned);
    let names: Vec<&str> = npcs.iter().map(|npc| npc.name.as_str()).collect();
    assert_eq!(
        names,
        vec![
            "Test NPC 0",
            "Test Human 1",
            "Test Wolf 2",
            "Test Owl 3",
            "Test NPC 4",
            "Test Human 5",
            "Test Wolf 6",
            "Test Owl 7",
        ]
    );
    assert_eq!(npcs[6].kind, NpcKind::Wolf);
    assert!(spawn_test_npcs(&mut state, Some(9000), playing).is_none());
    assert_eq!(TEST_NPC_RING_RADIUS, 10);
}

#[test]
fn ring_is_spawned_for_spectators_and_failed_players() {
    for player in [None, Some(PlayerReadiness { in_game: false, failed: true })] {
        let mut state = TestNpcState::new(Some("3"));
        assert!(spawn_test_npcs(&mut state, Some(0), player).is_none());
        assert_eq!(spawn_test_npcs(&mut state, Some(150), player).unwrap().len(), 3);
    }
}

#[test]
fn configured_count_is_a_number_or_the_default() {
    assert_eq!(TestNpcState::new(Some("0")).count, 0);
    assert_eq!(TestNpcState::new(Some("+12")).count, 12);
    for text in ["", "+", "-1", " 4", "4.0", "4294967296", "x"] {
        assert_eq!(TestNpcState::new(Some(text)).count, 8, "{text:?}");
        assert_eq!(text.parse::<u32>().ok(), parse_u32(text));
    }
    for text in ["4294967295", "0007", "+0"] {
        assert_eq!(text.parse::<u32>().ok(), parse_u32(text));
    }
}

#[test]
fn one_wandering_npc_is_a_critter() {
    let npc = SimServer::new().spawn_wandering_npc(12);
    assert_eq!(npc.kind, NpcKind::Pig);
    assert_eq!((npc.index, npc.name.as_str()), (12, "Test NPC 12"));
}

#[test]
fn humans_of_the_ring_wear_a_starter_kit() {
    let gear = humanoid_test_inventory();
    assert_eq!(gear.len(), 7);
    assert_eq!(gear[0].slot, GearSlot::ActiveMainhand);
    assert_eq!(gear[0].item, "common.items.weapons.sword.starter");
    assert_eq!(gear[5].item, "common.items.armor.mail.bronze.head");
    assert_eq!(gear[6].slot, GearSlot::Glider);
}

fn whole_plan() -> SchedulePlan {
    let mut plan = SchedulePlan::new();
    SimBridgePlugin.build(&mut plan);
    SimTerrainStreamPlugin.build(&mut plan);
    LodAltStreamPlugin.build(&mut plan);
    LodZoneStreamPlugin.build(&mut plan);
    MapDataStreamPlugin.build(&mut plan);
    PlayerBridgePlugin.build(&mut plan);
    SimEntityMirrorPlugin.build(&mut plan);
    CharListMirrorPlugin.build(&mut plan);
    ChatBridgePlugin.build(&mut plan);
    CombatHudMirrorPlugin.build(&mut plan);
    CraftingMirrorPlugin.build(&mut plan);
    HotbarMirrorPlugin.build(&mut plan);
    InventoryMirrorPlugin.build(&mut plan);
    SfxLocomotionMirrorPlugin.build(&mut plan);
    SfxOutcomeBridgePlugin.build(&mut plan);
    ServerOraclePlugin { events_dir: "events".to_owned(), manifest_path: "m.ron".to_owned() }
        .build(&mut plan);
    plan
}

#[test]
fn every_order_of_the_whole_bridge_can_be_kept() {
    let plan = whole_plan();
    // Take away systems that nothing comes before, until none is left.
    let mut edges: Vec<Edge> = plan.edges.clone();
    let mut rounds = 0;
    while !edges.is_empty() {
        let seconds: HashSet<System> = edges.iter().map(|edge| edge.second).collect();
        let before = edges.len();
        edges.retain(|edge| seconds.contains(&edge.first));
        assert!(edges.len() < before, "a cycle");
        rounds += 1;
    }
    assert!(rounds > 3);
}

#[test]
fn oracle_brings_the_players_moves_along_once() {
    let plan = whole_plan();
    let moves = plan.plugins.iter().filter(|kind| **kind == PluginKind::PlayerTransfer).count();
    assert_eq!(moves, 1);
    assert!(plan.is_plugin_added(PluginKind::Dimensions));

    let mut early = SchedulePlan::new();
    early.plugin(PluginKind::Dimensions);
    PlayerTransferPlugin.build(&mut early);
    SimBridgePlugin.build(&mut early);
    ServerOraclePlugin { events_dir: String::new(), manifest_path: String::new() }
        .build(&mut early);
    let moves = early.plugins.iter().filter(|kind| **kind == PluginKind::PlayerTransfer).count();
    let dims = early.plugins.iter().filter(|kind| **kind == PluginKind::Dimensions).count();
    assert_eq!((moves, dims), (1, 1));
    assert!(!early.is_plugin_added(PluginKind::ChatBridge));
}

#[test]
fn oracle_settings_are_in_the_plan() {
    let plan = whole_plan();
    assert_eq!(plan.settings.len(), 2);
    assert!(matches!(&plan.settings[0], Setting::OracleEventsDir(dir) if dir == "events"));
    assert!(matches!(&plan.settings[1], Setting::OracleEventManifestPath(path) if path == "m.ron"));
    let mut plain = SchedulePlan::new();
    SimBridgePlugin.build(&mut plain);
    assert!(plain.settings.is_empty());
}

#[test]
fn players_leave_a_dimension_before_it_ends() {
    let plan = whole_plan();
    let has = |first: System, second: System| {
        plan.edges.contains(&Edge { phase: Phase::FixedUpdate, first, second })
    };
    assert!(has(System::HandleDrainRequests, System::EjectPlayersBeforeDimensionTeardown));
    assert!(has(
        System::EjectPlayersBeforeDimensionTeardown,
        System::ApplyPlayerDimensionTransfers
    ));
    assert!(has(System::ApplyPlayerDimensionTransfers, System::MirrorSimEntities));
    assert!(has(
        System::ReleaseDimensionOccupantsOnDrainRequest,
        System::DeleteSpecsEntitiesForTornDownDimensions
    ));
    assert!(has(
        System::DeleteSpecsEntitiesForTornDownDimensions,
        System::TeardownCompletedDimensions
    ));
    assert!(has(System::TickSim, System::MirrorSimEntities));
    assert!(!has(System::MirrorSimEntities, System::TickSim));
}

#[test]
fn steps_run_where_they_belong() {
    let plan = whole_plan();
    let step = |system: System| *plan.steps.iter().find(|step| step.system == system).unwrap();
    assert_eq!(
        step(System::MirrorSimEntities),
        Step { system: System::MirrorSimEntities, phase: Phase::FixedUpdate, local_only: true }
    );
    assert_eq!(
        step(System::TickPlayer),
        Step { system: System::TickPlayer, phase: Phase::Update, local_only: false }
    );
    assert_eq!(step(System::RequestOracleEventManifest).phase, Phase::Startup);
    assert!(step(System::SendMapDataOnce).local_only);
    assert_eq!(step(System::BroadcastCapturedChat).phase, Phase::FixedUpdate);
    let distinct: HashSet<System> = plan.steps.iter().map(|step| step.system).collect();
    assert_eq!(distinct.len(), plan.steps.len());
    assert!(plan.resources.contains(&Resource::EventTransferZones));
    assert!(plan.resources.contains(&Resource::TransferPlayerDimensionMessages));
}
