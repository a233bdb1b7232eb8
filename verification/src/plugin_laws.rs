//! What each plugin of the bridge runs, when, and behind what.

use crate::plugins::{
    char_list_mirror_part, chat_bridge_part, combat_hud_mirror_part, crafting_mirror_part,
    hotbar_mirror_part, inventory_mirror_part, lod_alt_stream_part, lod_zone_stream_part,
    map_data_stream_part, player_bridge_part, player_transfer_part, server_oracle_head,
    server_oracle_tail, sfx_locomotion_mirror_part, sfx_outcome_bridge_part, sim_bridge_head,
    sim_bridge_tail, sim_entity_mirror_part, sim_terrain_stream_part, with_dimensions,
    with_player_transfer, CharListMirrorPlugin, ChatBridgePlugin, CombatHudMirrorPlugin,
    CraftingMirrorPlugin, HotbarMirrorPlugin, InventoryMirrorPlugin, LodAltStreamPlugin,
    LodZoneStreamPlugin, MapDataStreamPlugin, PlayerBridgePlugin, PlayerTransferPlugin,
    ServerOraclePlugin, SfxLocomotionMirrorPlugin, SfxOutcomeBridgePlugin, SimBridgePlugin,
    SimEntityMirrorPlugin, SimTerrainStreamPlugin,
};
use crate::schedule::{
    BridgePlugin, Edge, Phase, PlanModel, PluginKind, Resource, SettingModel, Step, System,
};
use vstd::prelude::*;

verus! {

/// Whether a plan runs a system in a phase, on a local server alone or on every one.
pub open spec fn runs(plan: PlanModel, phase: Phase, system: System, local_only: bool) -> bool {
    plan.steps.contains(Step { system, phase, local_only })
}

/// Whether a plan runs one system before another in a phase.
pub open spec fn in_turn(plan: PlanModel, phase: Phase, first: System, second: System) -> bool {
    plan.edges.contains(Edge { phase, first, second })
}

/// Whether a plan begins with all that another one holds.
pub open spec fn extends(built: PlanModel, plan: PlanModel) -> bool {
    &&& plan.plugins.is_prefix_of(built.plugins)
    &&& plan.resources.is_prefix_of(built.resources)
    &&& plan.settings.is_prefix_of(built.settings)
    &&& plan.steps.is_prefix_of(built.steps)
    &&& plan.edges.is_prefix_of(built.edges)
}

proof fn lemma_added<T>(before: Seq<T>, part: Seq<T>)
    ensures
        forall|i: int| 0 <= i < part.len() ==> (before + part).contains(#[trigger] part[i]),
{
    assert forall|i: int| 0 <= i < part.len() implies (before + part).contains(
        #[trigger] part[i],
    ) by {
        assert((before + part)[before.len() + i] == part[i]);
    }
}

proof fn lemma_extends(plan: PlanModel, part: PlanModel)
    ensures
        extends(plan.and(part), plan),
        part.settings.len() == 0 ==> plan.and(part).settings == plan.settings,
{
    let built = plan.and(part);
    assert(plan.plugins =~= built.plugins.take(plan.plugins.len() as int));
    assert(plan.resources =~= built.resources.take(plan.resources.len() as int));
    assert(plan.settings =~= built.settings.take(plan.settings.len() as int));
    assert(plan.steps =~= built.steps.take(plan.steps.len() as int));
    assert(plan.edges =~= built.edges.take(plan.edges.len() as int));
    if part.settings.len() == 0 {
        assert(plan.settings + part.settings =~= plan.settings);
    }
}

/// The terrain is kept, looked at and streamed in this order, on the fixed ticks of a local
/// server, and each of it behind the tick of the simulation.
pub proof fn law_terrain_follows_the_tick(plan: PlanModel)
    ensures
        ({
            let built = SimTerrainStreamPlugin.added_to(plan);
            &&& extends(built, plan)
            &&& built.steps.len() == plan.steps.len() + 3
            &&& built.edges.len() == plan.edges.len() + 5
            &&& built.plugins.len() == plan.plugins.len() + 1
            &&& built.resources.len() == plan.resources.len() + 1
            &&& built.settings == plan.settings
            &&& built.plugins.contains(PluginKind::SimTerrainStream)
            &&& built.resources.contains(Resource::TerrainAnchorState)
            &&& runs(built, Phase::FixedUpdate, System::EnsureTerrainAnchor, true)
            &&& runs(built, Phase::FixedUpdate, System::ApplyDefaultViewpointForNewClients, true)
            &&& runs(built, Phase::FixedUpdate, System::StreamTerrainChanges, true)
            &&& in_turn(
                built,
                Phase::FixedUpdate,
                System::EnsureTerrainAnchor,
                System::ApplyDefaultViewpointForNewClients,
            )
            &&& in_turn(
                built,
                Phase::FixedUpdate,
                System::ApplyDefaultViewpointForNewClients,
                System::StreamTerrainChanges,
            )
            &&& in_turn(built, Phase::FixedUpdate, System::TickSim, System::EnsureTerrainAnchor)
            &&& in_turn(
                built,
                Phase::FixedUpdate,
                System::TickSim,
                System::ApplyDefaultViewpointForNewClients,
            )
            &&& in_turn(built, Phase::FixedUpdate, System::TickSim, System::StreamTerrainChanges)
        }),
{
    let part = sim_terrain_stream_part();
    lemma_added(plan.plugins, part.plugins);
    lemma_added(plan.resources, part.resources);
    lemma_added(plan.steps, part.steps);
    lemma_added(plan.edges, part.edges);
    assert(part.plugins[0] == PluginKind::SimTerrainStream);
    assert(part.resources[0] == Resource::TerrainAnchorState);
    assert(part.steps[0].system is EnsureTerrainAnchor);
    assert(part.steps[1].system is ApplyDefaultViewpointForNewClients);
    assert(part.steps[2].system is StreamTerrainChanges);
    assert(part.edges[0].first is EnsureTerrainAnchor);
    assert(part.edges[1].first is ApplyDefaultViewpointForNewClients);
    assert(part.edges[2].first is TickSim);
    assert(part.edges[3].first is TickSim);
    assert(part.edges[4].first is TickSim);
    lemma_extends(plan, part);
}

/// The heights of the far terrain are sent from the frames of a local server.
pub proof fn law_heights_are_sent_in_frames(plan: PlanModel)
    ensures
        ({
            let built = LodAltStreamPlugin.added_to(plan);
            &&& extends(built, plan)
            &&& built.steps.len() == plan.steps.len() + 1
            &&& built.edges.len() == plan.edges.len()
            &&& built.plugins.len() == plan.plugins.len() + 1
            &&& built.resources.len() == plan.resources.len() + 1
            &&& built.settings == plan.settings
            &&& built.plugins.contains(PluginKind::LodAltStream)
            &&& built.resources.contains(Resource::LodAltState)
            &&& runs(built, Phase::Update, System::SendLodAltOnce, true)
        }),
{
    let part = lod_alt_stream_part();
    lemma_added(plan.plugins, part.plugins);
    lemma_added(plan.resources, part.resources);
    lemma_added(plan.steps, part.steps);
    assert(part.plugins[0] == PluginKind::LodAltStream);
    assert(part.resources[0] == Resource::LodAltState);
    assert(part.steps[0].system is SendLodAltOnce);
    lemma_extends(plan, part);
}

/// The objects of the far terrain are sent from the frames of a local server.
pub proof fn law_zones_are_sent_in_frames(plan: PlanModel)
    ensures
        ({
            let built = LodZoneStreamPlugin.added_to(plan);
            &&& extends(built, plan)
            &&& built.steps.len() == plan.steps.len() + 1
            &&& built.edges.len() == plan.edges.len()
            &&& built.plugins.len() == plan.plugins.len() + 1
            &&& built.resources.len() == plan.resources.len() + 1
            &&& built.settings == plan.settings
            &&& built.plugins.contains(PluginKind::LodZoneStream)
            &&& built.resources.contains(Resource::LodZoneStreamState)
            &&& runs(built, Phase::Update, System::SendLodZoneUpdates, true)
        }),
{
    let part = lod_zone_stream_part();
    lemma_added(plan.plugins, part.plugins);
    lemma_added(plan.resources, part.resources);
    lemma_added(plan.steps, part.steps);
    assert(part.plugins[0] == PluginKind::LodZoneStream);
    assert(part.resources[0] == Resource::LodZoneStreamState);
    assert(part.steps[0].system is SendLodZoneUpdates);
    lemma_extends(plan, part);
}

/// The map of the world is sent from the frames of a local server.
pub proof fn law_map_is_sent_in_frames(plan: PlanModel)
    ensures
        ({
            let built = MapDataStreamPlugin.added_to(plan);
            &&& extends(built, plan)
            &&& built.steps.len() == plan.steps.len() + 1
            &&& built.edges.len() == plan.edges.len()
            &&& built.plugins.len() == plan.plugins.len() + 1
            &&& built.resources.len() == plan.resources.len() + 1
            &&& built.settings == plan.settings
            &&& built.plugins.contains(PluginKind::MapDataStream)
            &&& built.resources.contains(Resource::MapDataState)
            &&& runs(built, Phase::Update, System::SendMapDataOnce, true)
        }),
{
    let part = map_data_stream_part();
    lemma_added(plan.plugins, part.plugins);
    lemma_added(plan.resources, part.resources);
    lemma_added(plan.steps, part.steps);
    assert(part.plugins[0] == PluginKind::MapDataStream);
    assert(part.resources[0] == Resource::MapDataState);
    assert(part.steps[0].system is SendMapDataOnce);
    lemma_extends(plan, part);
}

/// Mirrors are kept on the fixed ticks of a local server, behind the ticks of the simulation and
/// of the player and once the default dimension is there: the ring first, then the mirrors, then
/// what their characters feel. On every server occupants are released from a dimension that is
/// drained, and its entities deleted, before it comes to its end.
pub proof fn law_mirrors_are_kept_in_turn(plan: PlanModel)
    ensures
        ({
            let built = SimEntityMirrorPlugin.added_to(plan);
            &&& extends(built, plan)
            &&& built.steps.len() == plan.steps.len() + 5
            &&& built.edges.len() == plan.edges.len() + 16
            &&& built.plugins.len() == plan.plugins.len() + 1
            &&& built.resources.len() == plan.resources.len() + 7
            &&& built.settings == plan.settings
            &&& built.plugins.contains(PluginKind::SimEntityMirror)
            &&& built.resources.contains(Resource::SimMirror)
            &&& built.resources.contains(Resource::SimLoadoutCache)
            &&& built.resources.contains(Resource::SimRegionCache)
            &&& built.resources.contains(Resource::TestNpcState)
            &&& built.resources.contains(Resource::AiExecutionMode)
            &&& built.resources.contains(Resource::AuroraOverlay)
            &&& built.resources.contains(Resource::AuroraScratch)
            &&& runs(built, Phase::FixedUpdate, System::SpawnTestNpcs, true)
            &&& runs(built, Phase::FixedUpdate, System::MirrorSimEntities, true)
            &&& runs(built, Phase::FixedUpdate, System::TickAuroraOverlay, true)
            &&& runs(built, Phase::FixedUpdate, System::DeleteSpecsEntitiesForTornDownDimensions, false)
            &&& runs(built, Phase::FixedUpdate, System::ReleaseDimensionOccupantsOnDrainRequest, false)
            &&& in_turn(built, Phase::FixedUpdate, System::SpawnTestNpcs, System::MirrorSimEntities)
            &&& in_turn(
                built,
                Phase::FixedUpdate,
                System::MirrorSimEntities,
                System::TickAuroraOverlay,
            )
            &&& in_turn(built, Phase::FixedUpdate, System::TickSim, System::SpawnTestNpcs)
            &&& in_turn(built, Phase::FixedUpdate, System::TickSim, System::MirrorSimEntities)
            &&& in_turn(built, Phase::FixedUpdate, System::TickSim, System::TickAuroraOverlay)
            &&& in_turn(built, Phase::FixedUpdate, System::TickPlayer, System::SpawnTestNpcs)
            &&& in_turn(built, Phase::FixedUpdate, System::TickPlayer, System::MirrorSimEntities)
            &&& in_turn(built, Phase::FixedUpdate, System::TickPlayer, System::TickAuroraOverlay)
            &&& in_turn(
                built,
                Phase::FixedUpdate,
                System::EnsureDefaultDimension,
                System::SpawnTestNpcs,
            )
            &&& in_turn(
                built,
                Phase::FixedUpdate,
                System::EnsureDefaultDimension,
                System::MirrorSimEntities,
            )
            &&& in_turn(
                built,
                Phase::FixedUpdate,
                System::EnsureDefaultDimension,
                System::TickAuroraOverlay,
            )
            &&& in_turn(
                built,
                Phase::FixedUpdate,
                System::HandleDrainRequests,
                System::DeleteSpecsEntitiesForTornDownDimensions,
            )
            &&& in_turn(
                built,
                Phase::FixedUpdate,
                System::PredictiveGc,
                System::DeleteSpecsEntitiesForTornDownDimensions,
            )
            &&& in_turn(
                built,
                Phase::FixedUpdate,
                System::DeleteSpecsEntitiesForTornDownDimensions,
                System::TeardownCompletedDimensions,
            )
            &&& in_turn(
                built,
                Phase::FixedUpdate,
                System::HandleDrainRequests,
                System::ReleaseDimensionOccupantsOnDrainRequest,
            )
            &&& in_turn(
                built,
                Phase::FixedUpdate,
                System::ReleaseDimensionOccupantsOnDrainRequest,
                System::DeleteSpecsEntitiesForTornDownDimensions,
            )
        }),
{
    let part = sim_entity_mirror_part();
    lemma_added(plan.plugins, part.plugins);
    lemma_added(plan.resources, part.resources);
    lemma_added(plan.steps, part.steps);
    lemma_added(plan.edges, part.edges);
    assert(part.plugins[0] == PluginKind::SimEntityMirror);
    assert(part.resources[0] == Resource::SimMirror);
    assert(part.resources[1] == Resource::SimLoadoutCache);
    assert(part.resources[2] == Resource::SimRegionCache);
    assert(part.resources[3] == Resource::TestNpcState);
    assert(part.resources[4] == Resource::AiExecutionMode);
    assert(part.resources[5] == Resource::AuroraOverlay);
    assert(part.resources[6] == Resource::AuroraScratch);
    assert(part.steps[0].system is SpawnTestNpcs);
    assert(part.steps[1].system is MirrorSimEntities);
    assert(part.steps[2].system is TickAuroraOverlay);
    assert(part.steps[3].system is DeleteSpecsEntitiesForTornDownDimensions);
    assert(part.steps[4].system is ReleaseDimensionOccupantsOnDrainRequest);
    assert(part.edges[0].first is SpawnTestNpcs);
    assert(part.edges[1].first is MirrorSimEntities);
    assert(part.edges[2].first is TickSim);
    assert(part.edges[3].first is TickSim);
    assert(part.edges[4].first is TickSim);
    assert(part.edges[5].first is TickPlayer);
    assert(part.edges[6].first is TickPlayer);
    assert(part.edges[7].first is TickPlayer);
    assert(part.edges[8].first is EnsureDefaultDimension);
    assert(part.edges[9].first is EnsureDefaultDimension);
    assert(part.edges[10].first is EnsureDefaultDimension);
    assert(part.edges[11].first is HandleDrainRequests);
    assert(part.edges[12].first is PredictiveGc);
    assert(part.edges[13].first is DeleteSpecsEntitiesForTornDownDimensions);
    assert(part.edges[14].first is HandleDrainRequests);
    assert(part.edges[15].first is ReleaseDimensionOccupantsOnDrainRequest);
    lemma_extends(plan, part);
}

/// The player is ticked in every frame, and predicted behind that.
pub proof fn law_prediction_follows_the_player(plan: PlanModel)
    ensures
        ({
            let built = PlayerBridgePlugin.added_to(plan);
            &&& extends(built, plan)
            &&& built.steps.len() == plan.steps.len() + 2
            &&& built.edges.len() == plan.edges.len() + 1
            &&& built.plugins.len() == plan.plugins.len() + 1
            &&& built.resources.len() == plan.resources.len() + 1
            &&& built.settings == plan.settings
            &&& built.plugins.contains(PluginKind::PlayerBridge)
            &&& built.resources.contains(Resource::LocalPlayerInput)
            &&& runs(built, Phase::Update, System::TickPlayer, false)
            &&& runs(built, Phase::Update, System::MirrorLocalPlayerPrediction, false)
            &&& in_turn(
                built,
                Phase::Update,
                System::TickPlayer,
                System::MirrorLocalPlayerPrediction,
            )
        }),
{
    let part = player_bridge_part();
    lemma_added(plan.plugins, part.plugins);
    lemma_added(plan.resources, part.resources);
    lemma_added(plan.steps, part.steps);
    lemma_added(plan.edges, part.edges);
    assert(part.plugins[0] == PluginKind::PlayerBridge);
    assert(part.resources[0] == Resource::LocalPlayerInput);
    assert(part.steps[0].system is TickPlayer);
    assert(part.steps[1].system is MirrorLocalPlayerPrediction);
    assert(part.edges[0].first is TickPlayer);
    lemma_extends(plan, part);
}

/// Players are ejected once a drain is asked for and moved behind that, with the dimensions and the
/// simulation up to date, and before mirrors, releases, deletions and the end of a dimension.
pub proof fn law_transfers_are_made_in_turn(plan: PlanModel)
    ensures
        ({
            let built = PlayerTransferPlugin.added_to(plan);
            &&& extends(built, plan)
            &&& built.steps.len() == plan.steps.len() + 2
            &&& built.edges.len() == plan.edges.len() + 9
            &&& built.plugins.len() == plan.plugins.len() + 1
            &&& built.resources.len() == plan.resources.len() + 3
            &&& built.settings == plan.settings
            &&& built.plugins.contains(PluginKind::PlayerTransfer)
            &&& built.resources.contains(Resource::TransferPlayerDimensionMessages)
            &&& built.resources.contains(Resource::SimMirror)
            &&& built.resources.contains(Resource::SimEntityDimension)
            &&& runs(built, Phase::FixedUpdate, System::EjectPlayersBeforeDimensionTeardown, false)
            &&& runs(built, Phase::FixedUpdate, System::ApplyPlayerDimensionTransfers, false)
            &&& in_turn(
                built,
                Phase::FixedUpdate,
                System::HandleDrainRequests,
                System::EjectPlayersBeforeDimensionTeardown,
            )
            &&& in_turn(
                built,
                Phase::FixedUpdate,
                System::EjectPlayersBeforeDimensionTeardown,
                System::ApplyPlayerDimensionTransfers,
            )
            &&& in_turn(
                built,
                Phase::FixedUpdate,
                System::TickSim,
                System::ApplyPlayerDimensionTransfers,
            )
            &&& in_turn(
                built,
                Phase::FixedUpdate,
                System::HandleSpinupRequests,
                System::ApplyPlayerDimensionTransfers,
            )
            &&& in_turn(
                built,
                Phase::FixedUpdate,
                System::HandleDrainRequests,
                System::ApplyPlayerDimensionTransfers,
            )
            &&& in_turn(
                built,
                Phase::FixedUpdate,
                System::ApplyPlayerDimensionTransfers,
                System::MirrorSimEntities,
            )
            &&& in_turn(
                built,
                Phase::FixedUpdate,
                System::ApplyPlayerDimensionTransfers,
                System::ReleaseDimensionOccupantsOnDrainRequest,
            )
            &&& in_turn(
                built,
                Phase::FixedUpdate,
                System::ApplyPlayerDimensionTransfers,
                System::DeleteSpecsEntitiesForTornDownDimensions,
            )
            &&& in_turn(
                built,
                Phase::FixedUpdate,
                System::ApplyPlayerDimensionTransfers,
                System::TeardownCompletedDimensions,
            )
        }),
{
    let part = player_transfer_part();
    lemma_added(plan.plugins, part.plugins);
    lemma_added(plan.resources, part.resources);
    lemma_added(plan.steps, part.steps);
    lemma_added(plan.edges, part.edges);
    assert(part.plugins[0] == PluginKind::PlayerTransfer);
    assert(part.resources[0] == Resource::TransferPlayerDimensionMessages);
    assert(part.resources[1] == Resource::SimMirror);
    assert(part.resources[2] == Resource::SimEntityDimension);
    assert(part.steps[0].system is EjectPlayersBeforeDimensionTeardown);
    assert(part.steps[1].system is ApplyPlayerDimensionTransfers);
    assert(part.edges[0].first is HandleDrainRequests);
    assert(part.edges[1].first is EjectPlayersBeforeDimensionTeardown);
    assert(part.edges[2].first is TickSim);
    assert(part.edges[3].first is HandleSpinupRequests);
    assert(part.edges[4].first is HandleDrainRequests);
    assert(part.edges[5].first is ApplyPlayerDimensionTransfers);
    assert(part.edges[6].first is ApplyPlayerDimensionTransfers);
    assert(part.edges[7].first is ApplyPlayerDimensionTransfers);
    assert(part.edges[8].first is ApplyPlayerDimensionTransfers);
    lemma_extends(plan, part);
}

/// Requests about characters are passed on in every frame behind the tick of the player, and the
/// roster is told behind both.
pub proof fn law_roster_follows_the_player(plan: PlanModel)
    ensures
        ({
            let built = CharListMirrorPlugin.added_to(plan);
            &&& extends(built, plan)
            &&& built.steps.len() == plan.steps.len() + 2
            &&& built.edges.len() == plan.edges.len() + 3
            &&& built.plugins.len() == plan.plugins.len() + 1
            &&& built.resources.len() == plan.resources.len() + 1
            &&& built.settings == plan.settings
            &&& built.plugins.contains(PluginKind::CharListMirror)
            &&& built.resources.contains(Resource::CharListMirrorCache)
            &&& runs(built, Phase::Update, System::ApplyCharRequests, false)
            &&& runs(built, Phase::Update, System::BroadcastCharList, false)
            &&& in_turn(built, Phase::Update, System::ApplyCharRequests, System::BroadcastCharList)
            &&& in_turn(built, Phase::Update, System::TickPlayer, System::ApplyCharRequests)
            &&& in_turn(built, Phase::Update, System::TickPlayer, System::BroadcastCharList)
        }),
{
    let part = char_list_mirror_part();
    lemma_added(plan.plugins, part.plugins);
    lemma_added(plan.resources, part.resources);
    lemma_added(plan.steps, part.steps);
    lemma_added(plan.edges, part.edges);
    assert(part.plugins[0] == PluginKind::CharListMirror);
    assert(part.resources[0] == Resource::CharListMirrorCache);
    assert(part.steps[0].system is ApplyCharRequests);
    assert(part.steps[1].system is BroadcastCharList);
    assert(part.edges[0].first is ApplyCharRequests);
    assert(part.edges[1].first is TickPlayer);
    assert(part.edges[2].first is TickPlayer);
    lemma_extends(plan, part);
}

/// Chat goes out and comes in with the frames, behind the tick of the player; what the simulation
/// says goes with its fixed ticks, behind its tick.
pub proof fn law_chat_follows_its_source(plan: PlanModel)
    ensures
        ({
            let built = ChatBridgePlugin.added_to(plan);
            &&& extends(built, plan)
            &&& built.steps.len() == plan.steps.len() + 3
            &&& built.edges.len() == plan.edges.len() + 3
            &&& built.plugins.len() == plan.plugins.len() + 1
            &&& built.resources.len() == plan.resources.len() + 1
            &&& built.settings == plan.settings
            &&& built.plugins.contains(PluginKind::ChatBridge)
            &&& built.resources.contains(Resource::ActiveReplicaSessions)
            &&& runs(built, Phase::Update, System::ApplyChatSendRequests, false)
            &&& runs(built, Phase::Update, System::BroadcastEmbeddedChat, false)
            &&& runs(built, Phase::FixedUpdate, System::BroadcastCapturedChat, false)
            &&& in_turn(built, Phase::Update, System::TickPlayer, System::ApplyChatSendRequests)
            &&& in_turn(built, Phase::Update, System::TickPlayer, System::BroadcastEmbeddedChat)
            &&& in_turn(built, Phase::FixedUpdate, System::TickSim, System::BroadcastCapturedChat)
        }),
{
    let part = chat_bridge_part();
    lemma_added(plan.plugins, part.plugins);
    lemma_added(plan.resources, part.resources);
    lemma_added(plan.steps, part.steps);
    lemma_added(plan.edges, part.edges);
    assert(part.plugins[0] == PluginKind::ChatBridge);
    assert(part.resources[0] == Resource::ActiveReplicaSessions);
    assert(part.steps[0].system is ApplyChatSendRequests);
    assert(part.steps[1].system is BroadcastEmbeddedChat);
    assert(part.steps[2].system is BroadcastCapturedChat);
    assert(part.edges[0].first is TickPlayer);
    assert(part.edges[1].first is TickPlayer);
    assert(part.edges[2].first is TickSim);
    lemma_extends(plan, part);
}

/// The combat state is mirrored on fixed ticks, behind the simulation and the mirrors.
pub proof fn law_combat_state_follows_the_mirrors(plan: PlanModel)
    ensures
        ({
            let built = CombatHudMirrorPlugin.added_to(plan);
            &&& extends(built, plan)
            &&& built.steps.len() == plan.steps.len() + 1
            &&& built.edges.len() == plan.edges.len() + 2
            &&& built.plugins.len() == plan.plugins.len() + 1
            &&& built.resources.len() == plan.resources.len() + 1
            &&& built.settings == plan.settings
            &&& built.plugins.contains(PluginKind::CombatHudMirror)
            &&& built.resources.contains(Resource::CombatHudMirrorCache)
            &&& runs(built, Phase::FixedUpdate, System::MirrorCombatHudState, false)
            &&& in_turn(built, Phase::FixedUpdate, System::TickSim, System::MirrorCombatHudState)
            &&& in_turn(
                built,
                Phase::FixedUpdate,
                System::MirrorSimEntities,
                System::MirrorCombatHudState,
            )
        }),
{
    let part = combat_hud_mirror_part();
    lemma_added(plan.plugins, part.plugins);
    lemma_added(plan.resources, part.resources);
    lemma_added(plan.steps, part.steps);
    lemma_added(plan.edges, part.edges);
    assert(part.plugins[0] == PluginKind::CombatHudMirror);
    assert(part.resources[0] == Resource::CombatHudMirrorCache);
    assert(part.steps[0].system is MirrorCombatHudState);
    assert(part.edges[0].first is TickSim);
    assert(part.edges[1].first is MirrorSimEntities);
    lemma_extends(plan, part);
}

/// What can be crafted is mirrored on fixed ticks, behind the simulation and the mirrors.
pub proof fn law_crafting_follows_the_mirrors(plan: PlanModel)
    ensures
        ({
            let built = CraftingMirrorPlugin.added_to(plan);
            &&& extends(built, plan)
            &&& built.steps.len() == plan.steps.len() + 1
            &&& built.edges.len() == plan.edges.len() + 2
            &&& built.plugins.len() == plan.plugins.len() + 1
            &&& built.resources.len() == plan.resources.len() + 1
            &&& built.settings == plan.settings
            &&& built.plugins.contains(PluginKind::CraftingMirror)
            &&& built.resources.contains(Resource::CraftingMirrorCache)
            &&& runs(built, Phase::FixedUpdate, System::MirrorCraftingState, false)
            &&& in_turn(built, Phase::FixedUpdate, System::TickSim, System::MirrorCraftingState)
            &&& in_turn(
                built,
                Phase::FixedUpdate,
                System::MirrorSimEntities,
                System::MirrorCraftingState,
            )
        }),
{
    let part = crafting_mirror_part();
    lemma_added(plan.plugins, part.plugins);
    lemma_added(plan.resources, part.resources);
    lemma_added(plan.steps, part.steps);
    lemma_added(plan.edges, part.edges);
    assert(part.plugins[0] == PluginKind::CraftingMirror);
    assert(part.resources[0] == Resource::CraftingMirrorCache);
    assert(part.steps[0].system is MirrorCraftingState);
    assert(part.edges[0].first is TickSim);
    assert(part.edges[1].first is MirrorSimEntities);
    lemma_extends(plan, part);
}

/// The bar is mirrored, and requests about it are served, on fixed ticks, behind the simulation
/// and the mirrors.
pub proof fn law_hotbar_follows_the_mirrors(plan: PlanModel)
    ensures
        ({
            let built = HotbarMirrorPlugin.added_to(plan);
            &&& extends(built, plan)
            &&& built.steps.len() == plan.steps.len() + 2
            &&& built.edges.len() == plan.edges.len() + 4
            &&& built.plugins.len() == plan.plugins.len() + 1
            &&& built.resources.len() == plan.resources.len() + 1
            &&& built.settings == plan.settings
            &&& built.plugins.contains(PluginKind::HotbarMirror)
            &&& built.resources.contains(Resource::HotbarMirrorCache)
            &&& runs(built, Phase::FixedUpdate, System::MirrorHotbarState, false)
            &&& runs(built, Phase::FixedUpdate, System::ApplyHotbarAssignmentRequests, false)
            &&& in_turn(built, Phase::FixedUpdate, System::TickSim, System::MirrorHotbarState)
            &&& in_turn(
                built,
                Phase::FixedUpdate,
                System::MirrorSimEntities,
                System::MirrorHotbarState,
            )
            &&& in_turn(
                built,
                Phase::FixedUpdate,
                System::TickSim,
                System::ApplyHotbarAssignmentRequests,
            )
            &&& in_turn(
                built,
                Phase::FixedUpdate,
                System::MirrorSimEntities,
                System::ApplyHotbarAssignmentRequests,
            )
        }),
{
    let part = hotbar_mirror_part();
    lemma_added(plan.plugins, part.plugins);
    lemma_added(plan.resources, part.resources);
    lemma_added(plan.steps, part.steps);
    lemma_added(plan.edges, part.edges);
    assert(part.plugins[0] == PluginKind::HotbarMirror);
    assert(part.resources[0] == Resource::HotbarMirrorCache);
    assert(part.steps[0].system is MirrorHotbarState);
    assert(part.steps[1].system is ApplyHotbarAssignmentRequests);
    assert(part.edges[0].first is TickSim);
    assert(part.edges[1].first is MirrorSimEntities);
    assert(part.edges[2].first is TickSim);
    assert(part.edges[3].first is MirrorSimEntities);
    lemma_extends(plan, part);
}

/// The inventory is mirrored, and requests about it are served, on fixed ticks, behind the
/// simulation and the mirrors.
pub proof fn law_inventory_follows_the_mirrors(plan: PlanModel)
    ensures
        ({
            let built = InventoryMirrorPlugin.added_to(plan);
            &&& extends(built, plan)
            &&& built.steps.len() == plan.steps.len() + 2
            &&& built.edges.len() == plan.edges.len() + 4
            &&& built.plugins.len() == plan.plugins.len() + 1
            &&& built.resources.len() == plan.resources.len() + 1
            &&& built.settings == plan.settings
            &&& built.plugins.contains(PluginKind::InventoryMirror)
            &&& built.resources.contains(Resource::InventoryMirrorCache)
            &&& runs(built, Phase::FixedUpdate, System::MirrorInventoryState, false)
            &&& runs(built, Phase::FixedUpdate, System::ApplyInventoryActionRequests, false)
            &&& in_turn(built, Phase::FixedUpdate, System::TickSim, System::MirrorInventoryState)
            &&& in_turn(
                built,
                Phase::FixedUpdate,
                System::MirrorSimEntities,
                System::MirrorInventoryState,
            )
            &&& in_turn(
                built,
                Phase::FixedUpdate,
                System::TickSim,
                System::ApplyInventoryActionRequests,
            )
            &&& in_turn(
                built,
                Phase::FixedUpdate,
                System::MirrorSimEntities,
                System::ApplyInventoryActionRequests,
            )
        }),
{
    let part = inventory_mirror_part();
    lemma_added(plan.plugins, part.plugins);
    lemma_added(plan.resources, part.resources);
    lemma_added(plan.steps, part.steps);
    lemma_added(plan.edges, part.edges);
    assert(part.plugins[0] == PluginKind::InventoryMirror);
    assert(part.resources[0] == Resource::InventoryMirrorCache);
    assert(part.steps[0].system is MirrorInventoryState);
    assert(part.steps[1].system is ApplyInventoryActionRequests);
    assert(part.edges[0].first is TickSim);
    assert(part.edges[1].first is MirrorSimEntities);
    assert(part.edges[2].first is TickSim);
    assert(part.edges[3].first is MirrorSimEntities);
    lemma_extends(plan, part);
}

/// How entities move and fight is mirrored on fixed ticks, behind the simulation and the mirrors.
pub proof fn law_movement_follows_the_mirrors(plan: PlanModel)
    ensures
        ({
            let built = SfxLocomotionMirrorPlugin.added_to(plan);
            &&& extends(built, plan)
            &&& built.steps.len() == plan.steps.len() + 1
            &&& built.edges.len() == plan.edges.len() + 2
            &&& built.plugins.len() == plan.plugins.len() + 1
            &&& built.resources.len() == plan.resources.len()
            &&& built.settings == plan.settings
            &&& built.plugins.contains(PluginKind::SfxLocomotionMirror)
            &&& runs(built, Phase::FixedUpdate, System::MirrorLocomotionAndCombatState, false)
            &&& in_turn(
                built,
                Phase::FixedUpdate,
                System::TickSim,
                System::MirrorLocomotionAndCombatState,
            )
            &&& in_turn(
                built,
                Phase::FixedUpdate,
                System::MirrorSimEntities,
                System::MirrorLocomotionAndCombatState,
            )
        }),
{
    let part = sfx_locomotion_mirror_part();
    lemma_added(plan.plugins, part.plugins);
    lemma_added(plan.steps, part.steps);
    lemma_added(plan.edges, part.edges);
    assert(part.plugins[0] == PluginKind::SfxLocomotionMirror);
    assert(part.steps[0].system is MirrorLocomotionAndCombatState);
    assert(part.edges[0].first is TickSim);
    assert(part.edges[1].first is MirrorSimEntities);
    lemma_extends(plan, part);
}

/// What happened is told in every frame, behind the tick of the player.
pub proof fn law_outcomes_follow_the_player(plan: PlanModel)
    ensures
        ({
            let built = SfxOutcomeBridgePlugin.added_to(plan);
            &&& extends(built, plan)
            &&& built.steps.len() == plan.steps.len() + 1
            &&& built.edges.len() == plan.edges.len() + 1
            &&& built.plugins.len() == plan.plugins.len() + 1
            &&& built.resources.len() == plan.resources.len()
            &&& built.settings == plan.settings
            &&& built.plugins.contains(PluginKind::SfxOutcomeBridge)
            &&& runs(built, Phase::Update, System::BroadcastEmbeddedOutcomes, false)
            &&& in_turn(built, Phase::Update, System::TickPlayer, System::BroadcastEmbeddedOutcomes)
        }),
{
    let part = sfx_outcome_bridge_part();
    lemma_added(plan.plugins, part.plugins);
    lemma_added(plan.steps, part.steps);
    lemma_added(plan.edges, part.edges);
    assert(part.plugins[0] == PluginKind::SfxOutcomeBridge);
    assert(part.steps[0].system is BroadcastEmbeddedOutcomes);
    assert(part.edges[0].first is TickPlayer);
    lemma_extends(plan, part);
}

proof fn lemma_kept<T>(before: Seq<T>, after: Seq<T>, x: T)
    requires
        before.is_prefix_of(after),
    ensures
        before.contains(x) ==> after.contains(x),
{
    if before.contains(x) {
        let i = before.index_of(x);
        assert(after.take(before.len() as int)[i] == x);
        assert(after[i] == x);
    }
}

proof fn lemma_refl(plan: PlanModel)
    ensures
        extends(plan, plan),
{
    assert(plan.plugins =~= plan.plugins.take(plan.plugins.len() as int));
    assert(plan.resources =~= plan.resources.take(plan.resources.len() as int));
    assert(plan.settings =~= plan.settings.take(plan.settings.len() as int));
    assert(plan.steps =~= plan.steps.take(plan.steps.len() as int));
    assert(plan.edges =~= plan.edges.take(plan.edges.len() as int));
}

proof fn lemma_pushed(plan: PlanModel, kind: PluginKind)
    ensures
        extends(plan, plan),
        extends(PlanModel { plugins: plan.plugins.push(kind), ..plan }, plan),
        plan.plugins.push(kind).contains(kind),
{
    lemma_refl(plan);
    let more = plan.plugins.push(kind);
    assert(plan.plugins =~= more.take(plan.plugins.len() as int));
    assert(more[plan.plugins.len() as int] == kind);
}

proof fn lemma_prefix_on<T>(a: Seq<T>, b: Seq<T>, c: Seq<T>)
    requires
        a.is_prefix_of(b),
        b.is_prefix_of(c),
    ensures
        a.is_prefix_of(c),
{
    assert forall|i: int| 0 <= i < a.len() implies #[trigger] a[i] == c[i] by {
        assert(a[i] == b.take(a.len() as int)[i]);
        assert(b[i] == c.take(b.len() as int)[i]);
    }
    assert(a =~= c.take(a.len() as int));
}

proof fn lemma_extends_on(plan: PlanModel, half: PlanModel, built: PlanModel)
    requires
        extends(half, plan),
        extends(built, half),
    ensures
        extends(built, plan),
{
    lemma_prefix_on(plan.plugins, half.plugins, built.plugins);
    lemma_prefix_on(plan.resources, half.resources, built.resources);
    lemma_prefix_on(plan.settings, half.settings, built.settings);
    lemma_prefix_on(plan.steps, half.steps, built.steps);
    lemma_prefix_on(plan.edges, half.edges, built.edges);
}

/// The bridge ticks the simulation on fixed ticks, makes sure of the default dimension behind
/// that, and spawns what waits to be spawned behind both. It brings the dimensions along, unless
/// they are there already.
pub proof fn law_bridge_ticks_the_simulation(plan: PlanModel)
    ensures
        ({
            let built = SimBridgePlugin.added_to(plan);
            &&& extends(built, plan)
            &&& built.steps.len() == plan.steps.len() + 3
            &&& built.edges.len() == plan.edges.len() + 2
            &&& built.resources.len() == plan.resources.len() + 4
            &&& built.settings == plan.settings
            &&& built.plugins.contains(PluginKind::Dimensions)
            &&& built.plugins.len() == plan.plugins.len() + (if plan.plugins.contains(
                PluginKind::Dimensions,
            ) {
                1int
            } else {
                2int
            })
            &&& built.plugins.contains(PluginKind::SimBridge)
            &&& built.resources.contains(Resource::SimMirror)
            &&& built.resources.contains(Resource::PendingDimensionAttribution)
            &&& built.resources.contains(Resource::SimEntityDimension)
            &&& built.resources.contains(Resource::DefaultDimensionState)
            &&& runs(built, Phase::FixedUpdate, System::TickSim, false)
            &&& runs(built, Phase::FixedUpdate, System::EnsureDefaultDimension, false)
            &&& runs(built, Phase::FixedUpdate, System::ApplyPendingEntityTemplateSpawns, false)
            &&& in_turn(built, Phase::FixedUpdate, System::TickSim, System::EnsureDefaultDimension)
            &&& in_turn(
                built,
                Phase::FixedUpdate,
                System::EnsureDefaultDimension,
                System::ApplyPendingEntityTemplateSpawns,
            )
        }),
{
    let (head, tail) = (sim_bridge_head(), sim_bridge_tail());
    let first = plan.and(head);
    let mid = with_dimensions(first);
    let built = mid.and(tail);
    lemma_extends(plan, head);
    lemma_extends(mid, tail);
    lemma_pushed(first, PluginKind::Dimensions);
    lemma_extends_on(plan, first, mid);
    lemma_extends_on(plan, mid, built);
    lemma_added(plan.plugins, head.plugins);
    lemma_added(plan.resources, head.resources);
    assert(head.plugins[0] == PluginKind::SimBridge);
    assert(head.resources[0] == Resource::SimMirror);
    assert(head.resources[1] == Resource::PendingDimensionAttribution);
    assert(head.resources[2] == Resource::SimEntityDimension);
    lemma_added(mid.resources, tail.resources);
    lemma_added(mid.steps, tail.steps);
    lemma_added(mid.edges, tail.edges);
    assert(tail.resources[0] == Resource::DefaultDimensionState);
    assert(tail.steps[0].system is TickSim);
    assert(tail.steps[1].system is EnsureDefaultDimension);
    assert(tail.steps[2].system is ApplyPendingEntityTemplateSpawns);
    assert(tail.edges[0].first is TickSim);
    assert(tail.edges[1].first is EnsureDefaultDimension);
    if !plan.plugins.contains(PluginKind::Dimensions) {
        assert forall|i: int| 0 <= i < first.plugins.len() implies #[trigger] first.plugins[i]
            != PluginKind::Dimensions by {
            if i < plan.plugins.len() {
                assert(plan.plugins[i] == first.plugins[i]);
            } else {
                assert(head.plugins[i - plan.plugins.len()] == first.plugins[i]);
            }
        }
    } else {
        lemma_kept(plan.plugins, first.plugins, PluginKind::Dimensions);
    }
    lemma_kept(mid.plugins, built.plugins, PluginKind::Dimensions);
    lemma_kept(first.plugins, built.plugins, PluginKind::SimBridge);
    lemma_kept(first.resources, built.resources, Resource::SimMirror);
    lemma_kept(first.resources, built.resources, Resource::PendingDimensionAttribution);
    lemma_kept(first.resources, built.resources, Resource::SimEntityDimension);
}

/// The oracle takes in and ends events on fixed ticks, each before the dimensions act on it,
/// spawns minions once their dimension is up and lets players enter behind that, before they are
/// moved, and cleans up behind the end of a dimension. Its manifest is asked for once, at the
/// start. It is told where events and manifest lie, and brings the moves of players along,
/// unless they are there already.
pub proof fn law_oracle_runs_its_events_in_turn(plugin: ServerOraclePlugin, plan: PlanModel)
    ensures
        ({
            let built = plugin.added_to(plan);
            let moves = !plan.plugins.contains(PluginKind::PlayerTransfer);
            &&& extends(built, plan)
            &&& built.settings == plan.settings + seq![
                SettingModel::OracleEventsDir(plugin.events_dir@),
                SettingModel::OracleEventManifestPath(plugin.manifest_path@),
            ]
            &&& built.plugins.contains(PluginKind::PlayerTransfer)
            &&& moves ==> built.steps.len() == plan.steps.len() + 7 + player_transfer_part().steps.len()
            &&& moves ==> built.edges.len() == plan.edges.len() + 7 + player_transfer_part().edges.len()
            &&& !moves ==> built.steps.len() == plan.steps.len() + 7
            &&& !moves ==> built.edges.len() == plan.edges.len() + 7
            &&& moves ==> runs(
                built,
                Phase::FixedUpdate,
                System::ApplyPlayerDimensionTransfers,
                false,
            )
            &&& built.plugins.contains(PluginKind::ServerOracle)
            &&& built.plugins.contains(PluginKind::DmEvent)
            &&& built.plugins.contains(PluginKind::EntityTemplate)
            &&& built.plugins.contains(PluginKind::Chronicle)
            &&& built.plugins.contains(PluginKind::OracleEventManifest)
            &&& built.resources.contains(Resource::NextDimensionId)
            &&& built.resources.contains(Resource::OracleEventRegistry)
            &&& built.resources.contains(Resource::EntityTemplateHandles)
            &&& built.resources.contains(Resource::WellKnownEventHandles)
            &&& built.resources.contains(Resource::WellKnownEventFilenames)
            &&& built.resources.contains(Resource::EventTransferZones)
            &&& runs(built, Phase::Startup, System::RequestOracleEventManifest, false)
            &&& runs(built, Phase::FixedUpdate, System::RequestWellKnownEventsFromManifest, false)
            &&& runs(built, Phase::FixedUpdate, System::IngestDmEvents, false)
            &&& runs(built, Phase::FixedUpdate, System::RetireDmEvents, false)
            &&& runs(built, Phase::FixedUpdate, System::SpawnEventMinions, false)
            &&& runs(built, Phase::FixedUpdate, System::DetectPlayerDimensionEntry, false)
            &&& runs(built, Phase::FixedUpdate, System::CleanupDimensionSideTablesOnTeardown, false)
            &&& in_turn(
                built,
                Phase::FixedUpdate,
                System::IngestDmEvents,
                System::HandleSpinupRequests,
            )
            &&& in_turn(
                built,
                Phase::FixedUpdate,
                System::RetireDmEvents,
                System::HandleDrainRequests,
            )
            &&& in_turn(
                built,
                Phase::FixedUpdate,
                System::PollSpinupTasks,
                System::SpawnEventMinions,
            )
            &&& in_turn(
                built,
                Phase::FixedUpdate,
                System::SpawnEventMinions,
                System::ApplyPendingEntityTemplateSpawns,
            )
            &&& in_turn(
                built,
                Phase::FixedUpdate,
                System::SpawnEventMinions,
                System::DetectPlayerDimensionEntry,
            )
            &&& in_turn(
                built,
                Phase::FixedUpdate,
                System::DetectPlayerDimensionEntry,
                System::ApplyPlayerDimensionTransfers,
            )
            &&& in_turn(
                built,
                Phase::FixedUpdate,
                System::TeardownCompletedDimensions,
                System::CleanupDimensionSideTablesOnTeardown,
            )
        }),
{
    let (head, tail) = (
        server_oracle_head(),
        server_oracle_tail(plugin.events_dir@, plugin.manifest_path@),
    );
    let moves = player_transfer_part();
    let first = plan.and(head);
    let mid = with_player_transfer(first);
    let built = mid.and(tail);
    lemma_extends(plan, head);
    lemma_extends(first, moves);
    lemma_extends(mid, tail);
    lemma_refl(first);
    lemma_extends_on(plan, first, mid);
    lemma_extends_on(plan, mid, built);
    lemma_extends_on(first, mid, built);
    lemma_added(plan.plugins, head.plugins);
    assert(head.plugins[0] == PluginKind::ServerOracle);
    assert(head.plugins[1] == PluginKind::DmEvent);
    assert(head.plugins[2] == PluginKind::EntityTemplate);
    assert(head.plugins[3] == PluginKind::Chronicle);
    assert(head.plugins[4] == PluginKind::OracleEventManifest);
    lemma_added(mid.resources, tail.resources);
    lemma_added(mid.steps, tail.steps);
    lemma_added(mid.edges, tail.edges);
    assert(tail.resources[0] == Resource::NextDimensionId);
    assert(tail.resources[1] == Resource::OracleEventRegistry);
    assert(tail.resources[2] == Resource::EntityTemplateHandles);
    assert(tail.resources[3] == Resource::WellKnownEventHandles);
    assert(tail.resources[4] == Resource::WellKnownEventFilenames);
    assert(tail.resources[5] == Resource::EventTransferZones);
    assert(tail.steps[0].system is RequestOracleEventManifest);
    assert(tail.steps[1].system is RequestWellKnownEventsFromManifest);
    assert(tail.steps[2].system is IngestDmEvents);
    assert(tail.steps[3].system is RetireDmEvents);
    assert(tail.steps[4].system is SpawnEventMinions);
    assert(tail.steps[5].system is DetectPlayerDimensionEntry);
    assert(tail.steps[6].system is CleanupDimensionSideTablesOnTeardown);
    assert(tail.edges[0].first is IngestDmEvents);
    assert(tail.edges[1].first is RetireDmEvents);
    assert(tail.edges[2].first is PollSpinupTasks);
    assert(tail.edges[3].first is SpawnEventMinions);
    assert(tail.edges[4].first is SpawnEventMinions);
    assert(tail.edges[5].first is DetectPlayerDimensionEntry);
    assert(tail.edges[6].first is TeardownCompletedDimensions);
    if !plan.plugins.contains(PluginKind::PlayerTransfer) {
        assert forall|i: int| 0 <= i < first.plugins.len() implies #[trigger] first.plugins[i]
            != PluginKind::PlayerTransfer by {
            if i < plan.plugins.len() {
                assert(plan.plugins[i] == first.plugins[i]);
            } else {
                assert(head.plugins[i - plan.plugins.len()] == first.plugins[i]);
            }
        }
        law_transfers_are_made_in_turn(first);
        lemma_kept(
            mid.steps,
            built.steps,
            Step {
                system: System::ApplyPlayerDimensionTransfers,
                phase: Phase::FixedUpdate,
                local_only: false,
            },
        );
    } else {
        lemma_kept(plan.plugins, first.plugins, PluginKind::PlayerTransfer);
    }
    lemma_kept(mid.plugins, built.plugins, PluginKind::PlayerTransfer);
    lemma_kept(first.plugins, built.plugins, PluginKind::ServerOracle);
    lemma_kept(first.plugins, built.plugins, PluginKind::DmEvent);
    lemma_kept(first.plugins, built.plugins, PluginKind::EntityTemplate);
    lemma_kept(first.plugins, built.plugins, PluginKind::Chronicle);
    lemma_kept(first.plugins, built.plugins, PluginKind::OracleEventManifest);
    assert(built.settings =~= plan.settings + seq![
        SettingModel::OracleEventsDir(plugin.events_dir@),
        SettingModel::OracleEventManifestPath(plugin.manifest_path@),
    ]);
}

} // verus!
