//! The plugins of the bridge: what each of them adds to the schedule.

use crate::schedule::{
    fixed, fixed_local, fixed_order, framed, framed_local, framed_order,
    lemma_joined_points_forward, orders, BridgePlugin, Phase, PlanModel, PluginKind,
    Resource, SchedulePlan, Setting, SettingModel, Step, System,
};
use vstd::prelude::*;

verus! {

/// The terrain: who keeps it loaded, where new clients look from, and which chunks changed.
pub struct SimTerrainStreamPlugin;

/// What [`SimTerrainStreamPlugin`] adds.
pub open spec fn sim_terrain_stream_part() -> PlanModel {
    PlanModel {
        plugins: seq![PluginKind::SimTerrainStream],
        resources: seq![Resource::TerrainAnchorState],
        settings: Seq::empty(),
        steps: seq![
            fixed_local(System::EnsureTerrainAnchor),
            fixed_local(System::ApplyDefaultViewpointForNewClients),
            fixed_local(System::StreamTerrainChanges),
        ],
        edges: seq![
            fixed_order(System::EnsureTerrainAnchor, System::ApplyDefaultViewpointForNewClients),
            fixed_order(System::ApplyDefaultViewpointForNewClients, System::StreamTerrainChanges),
            fixed_order(System::TickSim, System::EnsureTerrainAnchor),
            fixed_order(System::TickSim, System::ApplyDefaultViewpointForNewClients),
            fixed_order(System::TickSim, System::StreamTerrainChanges),
        ],
    }
}

impl BridgePlugin for SimTerrainStreamPlugin {
    open spec fn can_be_added(&self, plan: PlanModel) -> bool {
        !plan.plugins.contains(PluginKind::SimTerrainStream)
    }

    open spec fn added_to(&self, plan: PlanModel) -> PlanModel {
        plan.and(sim_terrain_stream_part())
    }

    fn build(&self, plan: &mut SchedulePlan) {
        let ghost before = plan@;
        plan.plugin(PluginKind::SimTerrainStream);
        plan.resource(Resource::TerrainAnchorState);
        plan.fixed_local(System::EnsureTerrainAnchor);
        plan.fixed_local(System::ApplyDefaultViewpointForNewClients);
        plan.fixed_local(System::StreamTerrainChanges);
        plan.fixed_order(System::EnsureTerrainAnchor, System::ApplyDefaultViewpointForNewClients);
        plan.fixed_order(System::ApplyDefaultViewpointForNewClients, System::StreamTerrainChanges);
        plan.fixed_order(System::TickSim, System::EnsureTerrainAnchor);
        plan.fixed_order(System::TickSim, System::ApplyDefaultViewpointForNewClients);
        plan.fixed_order(System::TickSim, System::StreamTerrainChanges);
        proof {
            let after = before.and(sim_terrain_stream_part());
            assert(plan@.plugins =~= after.plugins);
            assert(plan@.resources =~= after.resources);
            assert(plan@.settings =~= after.settings);
            assert(plan@.steps =~= after.steps);
            assert(plan@.edges =~= after.edges);
        }
    }

    proof fn law_orders_stay_acyclic(&self, plan: PlanModel) {
        lemma_joined_points_forward(plan.edges, sim_terrain_stream_part().edges);
    }
}

/// The heights of the far terrain.
pub struct LodAltStreamPlugin;

/// What [`LodAltStreamPlugin`] adds.
pub open spec fn lod_alt_stream_part() -> PlanModel {
    PlanModel {
        plugins: seq![PluginKind::LodAltStream],
        resources: seq![Resource::LodAltState],
        settings: Seq::empty(),
        steps: seq![framed_local(System::SendLodAltOnce)],
        edges: Seq::empty(),
    }
}

impl BridgePlugin for LodAltStreamPlugin {
    open spec fn can_be_added(&self, plan: PlanModel) -> bool {
        !plan.plugins.contains(PluginKind::LodAltStream)
    }

    open spec fn added_to(&self, plan: PlanModel) -> PlanModel {
        plan.and(lod_alt_stream_part())
    }

    fn build(&self, plan: &mut SchedulePlan) {
        let ghost before = plan@;
        plan.plugin(PluginKind::LodAltStream);
        plan.resource(Resource::LodAltState);
        plan.framed_local(System::SendLodAltOnce);
        proof {
            let after = before.and(lod_alt_stream_part());
            assert(plan@.plugins =~= after.plugins);
            assert(plan@.resources =~= after.resources);
            assert(plan@.settings =~= after.settings);
            assert(plan@.steps =~= after.steps);
            assert(plan@.edges =~= after.edges);
        }
    }

    proof fn law_orders_stay_acyclic(&self, plan: PlanModel) {
        lemma_joined_points_forward(plan.edges, lod_alt_stream_part().edges);
    }
}

/// The objects of the far terrain.
pub struct LodZoneStreamPlugin;

/// What [`LodZoneStreamPlugin`] adds.
pub open spec fn lod_zone_stream_part() -> PlanModel {
    PlanModel {
        plugins: seq![PluginKind::LodZoneStream],
        resources: seq![Resource::LodZoneStreamState],
        settings: Seq::empty(),
        steps: seq![framed_local(System::SendLodZoneUpdates)],
        edges: Seq::empty(),
    }
}

impl BridgePlugin for LodZoneStreamPlugin {
    open spec fn can_be_added(&self, plan: PlanModel) -> bool {
        !plan.plugins.contains(PluginKind::LodZoneStream)
    }

    open spec fn added_to(&self, plan: PlanModel) -> PlanModel {
        plan.and(lod_zone_stream_part())
    }

    fn build(&self, plan: &mut SchedulePlan) {
        let ghost before = plan@;
        plan.plugin(PluginKind::LodZoneStream);
        plan.resource(Resource::LodZoneStreamState);
        plan.framed_local(System::SendLodZoneUpdates);
        proof {
            let after = before.and(lod_zone_stream_part());
            assert(plan@.plugins =~= after.plugins);
            assert(plan@.resources =~= after.resources);
            assert(plan@.settings =~= after.settings);
            assert(plan@.steps =~= after.steps);
            assert(plan@.edges =~= after.edges);
        }
    }

    proof fn law_orders_stay_acyclic(&self, plan: PlanModel) {
        lemma_joined_points_forward(plan.edges, lod_zone_stream_part().edges);
    }
}

/// The map of the world.
pub struct MapDataStreamPlugin;

/// What [`MapDataStreamPlugin`] adds.
pub open spec fn map_data_stream_part() -> PlanModel {
    PlanModel {
        plugins: seq![PluginKind::MapDataStream],
        resources: seq![Resource::MapDataState],
        settings: Seq::empty(),
        steps: seq![framed_local(System::SendMapDataOnce)],
        edges: Seq::empty(),
    }
}

impl BridgePlugin for MapDataStreamPlugin {
    open spec fn can_be_added(&self, plan: PlanModel) -> bool {
        !plan.plugins.contains(PluginKind::MapDataStream)
    }

    open spec fn added_to(&self, plan: PlanModel) -> PlanModel {
        plan.and(map_data_stream_part())
    }

    fn build(&self, plan: &mut SchedulePlan) {
        let ghost before = plan@;
        plan.plugin(PluginKind::MapDataStream);
        plan.resource(Resource::MapDataState);
        plan.framed_local(System::SendMapDataOnce);
        proof {
            let after = before.and(map_data_stream_part());
            assert(plan@.plugins =~= after.plugins);
            assert(plan@.resources =~= after.resources);
            assert(plan@.settings =~= after.settings);
            assert(plan@.steps =~= after.steps);
            assert(plan@.edges =~= after.edges);
        }
    }

    proof fn law_orders_stay_acyclic(&self, plan: PlanModel) {
        lemma_joined_points_forward(plan.edges, map_data_stream_part().edges);
    }
}

/// The mirrors of the simulation's entities, and their end with their dimension.
pub struct SimEntityMirrorPlugin;

/// What [`SimEntityMirrorPlugin`] adds.
pub open spec fn sim_entity_mirror_part() -> PlanModel {
    PlanModel {
        plugins: seq![PluginKind::SimEntityMirror],
        resources: seq![
            Resource::SimMirror,
            Resource::SimLoadoutCache,
            Resource::SimRegionCache,
            Resource::TestNpcState,
            Resource::AiExecutionMode,
            Resource::AuroraOverlay,
            Resource::AuroraScratch,
        ],
        settings: Seq::empty(),
        steps: seq![
            fixed_local(System::SpawnTestNpcs),
            fixed_local(System::MirrorSimEntities),
            fixed_local(System::TickAuroraOverlay),
            fixed(System::DeleteSpecsEntitiesForTornDownDimensions),
            fixed(System::ReleaseDimensionOccupantsOnDrainRequest),
        ],
        edges: seq![
            fixed_order(System::SpawnTestNpcs, System::MirrorSimEntities),
            fixed_order(System::MirrorSimEntities, System::TickAuroraOverlay),
            fixed_order(System::TickSim, System::SpawnTestNpcs),
            fixed_order(System::TickSim, System::MirrorSimEntities),
            fixed_order(System::TickSim, System::TickAuroraOverlay),
            fixed_order(System::TickPlayer, System::SpawnTestNpcs),
            fixed_order(System::TickPlayer, System::MirrorSimEntities),
            fixed_order(System::TickPlayer, System::TickAuroraOverlay),
            fixed_order(System::EnsureDefaultDimension, System::SpawnTestNpcs),
            fixed_order(System::EnsureDefaultDimension, System::MirrorSimEntities),
            fixed_order(System::EnsureDefaultDimension, System::TickAuroraOverlay),
            fixed_order(System::HandleDrainRequests, System::DeleteSpecsEntitiesForTornDownDimensions),
            fixed_order(System::PredictiveGc, System::DeleteSpecsEntitiesForTornDownDimensions),
            fixed_order(System::DeleteSpecsEntitiesForTornDownDimensions, System::TeardownCompletedDimensions),
            fixed_order(System::HandleDrainRequests, System::ReleaseDimensionOccupantsOnDrainRequest),
            fixed_order(System::ReleaseDimensionOccupantsOnDrainRequest, System::DeleteSpecsEntitiesForTornDownDimensions),
        ],
    }
}

impl BridgePlugin for SimEntityMirrorPlugin {
    open spec fn can_be_added(&self, plan: PlanModel) -> bool {
        !plan.plugins.contains(PluginKind::SimEntityMirror)
    }

    open spec fn added_to(&self, plan: PlanModel) -> PlanModel {
        plan.and(sim_entity_mirror_part())
    }

    fn build(&self, plan: &mut SchedulePlan) {
        let ghost before = plan@;
        plan.plugin(PluginKind::SimEntityMirror);
        plan.resource(Resource::SimMirror);
        plan.resource(Resource::SimLoadoutCache);
        plan.resource(Resource::SimRegionCache);
        plan.resource(Resource::TestNpcState);
        plan.resource(Resource::AiExecutionMode);
        plan.resource(Resource::AuroraOverlay);
        plan.resource(Resource::AuroraScratch);
        plan.fixed_local(System::SpawnTestNpcs);
        plan.fixed_local(System::MirrorSimEntities);
        plan.fixed_local(System::TickAuroraOverlay);
        plan.fixed(System::DeleteSpecsEntitiesForTornDownDimensions);
        plan.fixed(System::ReleaseDimensionOccupantsOnDrainRequest);
        plan.fixed_order(System::SpawnTestNpcs, System::MirrorSimEntities);
        plan.fixed_order(System::MirrorSimEntities, System::TickAuroraOverlay);
        plan.fixed_order(System::TickSim, System::SpawnTestNpcs);
        plan.fixed_order(System::TickSim, System::MirrorSimEntities);
        plan.fixed_order(System::TickSim, System::TickAuroraOverlay);
        plan.fixed_order(System::TickPlayer, System::SpawnTestNpcs);
        plan.fixed_order(System::TickPlayer, System::MirrorSimEntities);
        plan.fixed_order(System::TickPlayer, System::TickAuroraOverlay);
        plan.fixed_order(System::EnsureDefaultDimension, System::SpawnTestNpcs);
        plan.fixed_order(System::EnsureDefaultDimension, System::MirrorSimEntities);
        plan.fixed_order(System::EnsureDefaultDimension, System::TickAuroraOverlay);
        plan.fixed_order(System::HandleDrainRequests, System::DeleteSpecsEntitiesForTornDownDimensions);
        plan.fixed_order(System::PredictiveGc, System::DeleteSpecsEntitiesForTornDownDimensions);
        plan.fixed_order(System::DeleteSpecsEntitiesForTornDownDimensions, System::TeardownCompletedDimensions);
        plan.fixed_order(System::HandleDrainRequests, System::ReleaseDimensionOccupantsOnDrainRequest);
        plan.fixed_order(System::ReleaseDimensionOccupantsOnDrainRequest, System::DeleteSpecsEntitiesForTornDownDimensions);
        proof {
            let after = before.and(sim_entity_mirror_part());
            assert(plan@.plugins =~= after.plugins);
            assert(plan@.resources =~= after.resources);
            assert(plan@.settings =~= after.settings);
            assert(plan@.steps =~= after.steps);
            assert(plan@.edges =~= after.edges);
        }
    }

    proof fn law_orders_stay_acyclic(&self, plan: PlanModel) {
        lemma_joined_points_forward(plan.edges, sim_entity_mirror_part().edges);
    }
}

/// The local player.
pub struct PlayerBridgePlugin;

/// What [`PlayerBridgePlugin`] adds.
pub open spec fn player_bridge_part() -> PlanModel {
    PlanModel {
        plugins: seq![PluginKind::PlayerBridge],
        resources: seq![Resource::LocalPlayerInput],
        settings: Seq::empty(),
        steps: seq![
            framed(System::TickPlayer),
            framed(System::MirrorLocalPlayerPrediction),
        ],
        edges: seq![framed_order(System::TickPlayer, System::MirrorLocalPlayerPrediction)],
    }
}

impl BridgePlugin for PlayerBridgePlugin {
    open spec fn can_be_added(&self, plan: PlanModel) -> bool {
        !plan.plugins.contains(PluginKind::PlayerBridge)
    }

    open spec fn added_to(&self, plan: PlanModel) -> PlanModel {
        plan.and(player_bridge_part())
    }

    fn build(&self, plan: &mut SchedulePlan) {
        let ghost before = plan@;
        plan.plugin(PluginKind::PlayerBridge);
        plan.resource(Resource::LocalPlayerInput);
        plan.framed(System::TickPlayer);
        plan.framed(System::MirrorLocalPlayerPrediction);
        plan.framed_order(System::TickPlayer, System::MirrorLocalPlayerPrediction);
        proof {
            let after = before.and(player_bridge_part());
            assert(plan@.plugins =~= after.plugins);
            assert(plan@.resources =~= after.resources);
            assert(plan@.settings =~= after.settings);
            assert(plan@.steps =~= after.steps);
            assert(plan@.edges =~= after.edges);
        }
    }

    proof fn law_orders_stay_acyclic(&self, plan: PlanModel) {
        lemma_joined_points_forward(plan.edges, player_bridge_part().edges);
    }
}

/// The moves of players between dimensions.
pub struct PlayerTransferPlugin;

/// What [`PlayerTransferPlugin`] adds.
pub open spec fn player_transfer_part() -> PlanModel {
    PlanModel {
        plugins: seq![PluginKind::PlayerTransfer],
        resources: seq![
            Resource::TransferPlayerDimensionMessages,
            Resource::SimMirror,
            Resource::SimEntityDimension,
        ],
        settings: Seq::empty(),
        steps: seq![
            fixed(System::EjectPlayersBeforeDimensionTeardown),
            fixed(System::ApplyPlayerDimensionTransfers),
        ],
        edges: seq![
            fixed_order(System::HandleDrainRequests, System::EjectPlayersBeforeDimensionTeardown),
            fixed_order(System::EjectPlayersBeforeDimensionTeardown, System::ApplyPlayerDimensionTransfers),
            fixed_order(System::TickSim, System::ApplyPlayerDimensionTransfers),
            fixed_order(System::HandleSpinupRequests, System::ApplyPlayerDimensionTransfers),
            fixed_order(System::HandleDrainRequests, System::ApplyPlayerDimensionTransfers),
            fixed_order(System::ApplyPlayerDimensionTransfers, System::MirrorSimEntities),
            fixed_order(System::ApplyPlayerDimensionTransfers, System::ReleaseDimensionOccupantsOnDrainRequest),
            fixed_order(System::ApplyPlayerDimensionTransfers, System::DeleteSpecsEntitiesForTornDownDimensions),
            fixed_order(System::ApplyPlayerDimensionTransfers, System::TeardownCompletedDimensions),
        ],
    }
}

impl BridgePlugin for PlayerTransferPlugin {
    open spec fn can_be_added(&self, plan: PlanModel) -> bool {
        !plan.plugins.contains(PluginKind::PlayerTransfer)
    }

    open spec fn added_to(&self, plan: PlanModel) -> PlanModel {
        plan.and(player_transfer_part())
    }

    fn build(&self, plan: &mut SchedulePlan) {
        let ghost before = plan@;
        plan.plugin(PluginKind::PlayerTransfer);
        plan.resource(Resource::TransferPlayerDimensionMessages);
        plan.resource(Resource::SimMirror);
        plan.resource(Resource::SimEntityDimension);
        plan.fixed(System::EjectPlayersBeforeDimensionTeardown);
        plan.fixed(System::ApplyPlayerDimensionTransfers);
        plan.fixed_order(System::HandleDrainRequests, System::EjectPlayersBeforeDimensionTeardown);
        plan.fixed_order(System::EjectPlayersBeforeDimensionTeardown, System::ApplyPlayerDimensionTransfers);
        plan.fixed_order(System::TickSim, System::ApplyPlayerDimensionTransfers);
        plan.fixed_order(System::HandleSpinupRequests, System::ApplyPlayerDimensionTransfers);
        plan.fixed_order(System::HandleDrainRequests, System::ApplyPlayerDimensionTransfers);
        plan.fixed_order(System::ApplyPlayerDimensionTransfers, System::MirrorSimEntities);
        plan.fixed_order(System::ApplyPlayerDimensionTransfers, System::ReleaseDimensionOccupantsOnDrainRequest);
        plan.fixed_order(System::ApplyPlayerDimensionTransfers, System::DeleteSpecsEntitiesForTornDownDimensions);
        plan.fixed_order(System::ApplyPlayerDimensionTransfers, System::TeardownCompletedDimensions);
        proof {
            let after = before.and(player_transfer_part());
            assert(plan@.plugins =~= after.plugins);
            assert(plan@.resources =~= after.resources);
            assert(plan@.settings =~= after.settings);
            assert(plan@.steps =~= after.steps);
            assert(plan@.edges =~= after.edges);
        }
    }

    proof fn law_orders_stay_acyclic(&self, plan: PlanModel) {
        lemma_joined_points_forward(plan.edges, player_transfer_part().edges);
    }
}

/// The roster of the player's account.
pub struct CharListMirrorPlugin;

/// What [`CharListMirrorPlugin`] adds.
pub open spec fn char_list_mirror_part() -> PlanModel {
    PlanModel {
        plugins: seq![PluginKind::CharListMirror],
        resources: seq![Resource::CharListMirrorCache],
        settings: Seq::empty(),
        steps: seq![
            framed(System::ApplyCharRequests),
            framed(System::BroadcastCharList),
        ],
        edges: seq![
            framed_order(System::ApplyCharRequests, System::BroadcastCharList),
            framed_order(System::TickPlayer, System::ApplyCharRequests),
            framed_order(System::TickPlayer, System::BroadcastCharList),
        ],
    }
}

impl BridgePlugin for CharListMirrorPlugin {
    open spec fn can_be_added(&self, plan: PlanModel) -> bool {
        !plan.plugins.contains(PluginKind::CharListMirror)
    }

    open spec fn added_to(&self, plan: PlanModel) -> PlanModel {
        plan.and(char_list_mirror_part())
    }

    fn build(&self, plan: &mut SchedulePlan) {
        let ghost before = plan@;
        plan.plugin(PluginKind::CharListMirror);
        plan.resource(Resource::CharListMirrorCache);
        plan.framed(System::ApplyCharRequests);
        plan.framed(System::BroadcastCharList);
        plan.framed_order(System::ApplyCharRequests, System::BroadcastCharList);
        plan.framed_order(System::TickPlayer, System::ApplyCharRequests);
        plan.framed_order(System::TickPlayer, System::BroadcastCharList);
        proof {
            let after = before.and(char_list_mirror_part());
            assert(plan@.plugins =~= after.plugins);
            assert(plan@.resources =~= after.resources);
            assert(plan@.settings =~= after.settings);
            assert(plan@.steps =~= after.steps);
            assert(plan@.edges =~= after.edges);
        }
    }

    proof fn law_orders_stay_acyclic(&self, plan: PlanModel) {
        lemma_joined_points_forward(plan.edges, char_list_mirror_part().edges);
    }
}

/// What is said, in both directions.
pub struct ChatBridgePlugin;

/// What [`ChatBridgePlugin`] adds.
pub open spec fn chat_bridge_part() -> PlanModel {
    PlanModel {
        plugins: seq![PluginKind::ChatBridge],
        resources: seq![Resource::ActiveReplicaSessions],
        settings: Seq::empty(),
        steps: seq![
            framed(System::ApplyChatSendRequests),
            framed(System::BroadcastEmbeddedChat),
            fixed(System::BroadcastCapturedChat),
        ],
        edges: seq![
            framed_order(System::TickPlayer, System::ApplyChatSendRequests),
            framed_order(System::TickPlayer, System::BroadcastEmbeddedChat),
            fixed_order(System::TickSim, System::BroadcastCapturedChat),
        ],
    }
}

impl BridgePlugin for ChatBridgePlugin {
    open spec fn can_be_added(&self, plan: PlanModel) -> bool {
        !plan.plugins.contains(PluginKind::ChatBridge)
    }

    open spec fn added_to(&self, plan: PlanModel) -> PlanModel {
        plan.and(chat_bridge_part())
    }

    fn build(&self, plan: &mut SchedulePlan) {
        let ghost before = plan@;
        plan.plugin(PluginKind::ChatBridge);
        plan.resource(Resource::ActiveReplicaSessions);
        plan.framed(System::ApplyChatSendRequests);
        plan.framed(System::BroadcastEmbeddedChat);
        plan.fixed(System::BroadcastCapturedChat);
        plan.framed_order(System::TickPlayer, System::ApplyChatSendRequests);
        plan.framed_order(System::TickPlayer, System::BroadcastEmbeddedChat);
        plan.fixed_order(System::TickSim, System::BroadcastCapturedChat);
        proof {
            let after = before.and(chat_bridge_part());
            assert(plan@.plugins =~= after.plugins);
            assert(plan@.resources =~= after.resources);
            assert(plan@.settings =~= after.settings);
            assert(plan@.steps =~= after.steps);
            assert(plan@.edges =~= after.edges);
        }
    }

    proof fn law_orders_stay_acyclic(&self, plan: PlanModel) {
        lemma_joined_points_forward(plan.edges, chat_bridge_part().edges);
    }
}

/// What a fighter sees of themselves and others.
pub struct CombatHudMirrorPlugin;

/// What [`CombatHudMirrorPlugin`] adds.
pub open spec fn combat_hud_mirror_part() -> PlanModel {
    PlanModel {
        plugins: seq![PluginKind::CombatHudMirror],
        resources: seq![Resource::CombatHudMirrorCache],
        settings: Seq::empty(),
        steps: seq![fixed(System::MirrorCombatHudState)],
        edges: seq![
            fixed_order(System::TickSim, System::MirrorCombatHudState),
            fixed_order(System::MirrorSimEntities, System::MirrorCombatHudState),
        ],
    }
}

impl BridgePlugin for CombatHudMirrorPlugin {
    open spec fn can_be_added(&self, plan: PlanModel) -> bool {
        !plan.plugins.contains(PluginKind::CombatHudMirror)
    }

    open spec fn added_to(&self, plan: PlanModel) -> PlanModel {
        plan.and(combat_hud_mirror_part())
    }

    fn build(&self, plan: &mut SchedulePlan) {
        let ghost before = plan@;
        plan.plugin(PluginKind::CombatHudMirror);
        plan.resource(Resource::CombatHudMirrorCache);
        plan.fixed(System::MirrorCombatHudState);
        plan.fixed_order(System::TickSim, System::MirrorCombatHudState);
        plan.fixed_order(System::MirrorSimEntities, System::MirrorCombatHudState);
        proof {
            let after = before.and(combat_hud_mirror_part());
            assert(plan@.plugins =~= after.plugins);
            assert(plan@.resources =~= after.resources);
            assert(plan@.settings =~= after.settings);
            assert(plan@.steps =~= after.steps);
            assert(plan@.edges =~= after.edges);
        }
    }

    proof fn law_orders_stay_acyclic(&self, plan: PlanModel) {
        lemma_joined_points_forward(plan.edges, combat_hud_mirror_part().edges);
    }
}

/// What can be crafted.
pub struct CraftingMirrorPlugin;

/// What [`CraftingMirrorPlugin`] adds.
pub open spec fn crafting_mirror_part() -> PlanModel {
    PlanModel {
        plugins: seq![PluginKind::CraftingMirror],
        resources: seq![Resource::CraftingMirrorCache],
        settings: Seq::empty(),
        steps: seq![fixed(System::MirrorCraftingState)],
        edges: seq![
            fixed_order(System::TickSim, System::MirrorCraftingState),
            fixed_order(System::MirrorSimEntities, System::MirrorCraftingState),
        ],
    }
}

impl BridgePlugin for CraftingMirrorPlugin {
    open spec fn can_be_added(&self, plan: PlanModel) -> bool {
        !plan.plugins.contains(PluginKind::CraftingMirror)
    }

    open spec fn added_to(&self, plan: PlanModel) -> PlanModel {
        plan.and(crafting_mirror_part())
    }

    fn build(&self, plan: &mut SchedulePlan) {
        let ghost before = plan@;
        plan.plugin(PluginKind::CraftingMirror);
        plan.resource(Resource::CraftingMirrorCache);
        plan.fixed(System::MirrorCraftingState);
        plan.fixed_order(System::TickSim, System::MirrorCraftingState);
        plan.fixed_order(System::MirrorSimEntities, System::MirrorCraftingState);
        proof {
            let after = before.and(crafting_mirror_part());
            assert(plan@.plugins =~= after.plugins);
            assert(plan@.resources =~= after.resources);
            assert(plan@.settings =~= after.settings);
            assert(plan@.steps =~= after.steps);
            assert(plan@.edges =~= after.edges);
        }
    }

    proof fn law_orders_stay_acyclic(&self, plan: PlanModel) {
        lemma_joined_points_forward(plan.edges, crafting_mirror_part().edges);
    }
}

/// The ability bar.
pub struct HotbarMirrorPlugin;

/// What [`HotbarMirrorPlugin`] adds.
pub open spec fn hotbar_mirror_part() -> PlanModel {
    PlanModel {
        plugins: seq![PluginKind::HotbarMirror],
        resources: seq![Resource::HotbarMirrorCache],
        settings: Seq::empty(),
        steps: seq![
            fixed(System::MirrorHotbarState),
            fixed(System::ApplyHotbarAssignmentRequests),
        ],
        edges: seq![
            fixed_order(System::TickSim, System::MirrorHotbarState),
            fixed_order(System::MirrorSimEntities, System::MirrorHotbarState),
            fixed_order(System::TickSim, System::ApplyHotbarAssignmentRequests),
            fixed_order(System::MirrorSimEntities, System::ApplyHotbarAssignmentRequests),
        ],
    }
}

impl BridgePlugin for HotbarMirrorPlugin {
    open spec fn can_be_added(&self, plan: PlanModel) -> bool {
        !plan.plugins.contains(PluginKind::HotbarMirror)
    }

    open spec fn added_to(&self, plan: PlanModel) -> PlanModel {
        plan.and(hotbar_mirror_part())
    }

    fn build(&self, plan: &mut SchedulePlan) {
        let ghost before = plan@;
        plan.plugin(PluginKind::HotbarMirror);
        plan.resource(Resource::HotbarMirrorCache);
        plan.fixed(System::MirrorHotbarState);
        plan.fixed(System::ApplyHotbarAssignmentRequests);
        plan.fixed_order(System::TickSim, System::MirrorHotbarState);
        plan.fixed_order(System::MirrorSimEntities, System::MirrorHotbarState);
        plan.fixed_order(System::TickSim, System::ApplyHotbarAssignmentRequests);
        plan.fixed_order(System::MirrorSimEntities, System::ApplyHotbarAssignmentRequests);
        proof {
            let after = before.and(hotbar_mirror_part());
            assert(plan@.plugins =~= after.plugins);
            assert(plan@.resources =~= after.resources);
            assert(plan@.settings =~= after.settings);
            assert(plan@.steps =~= after.steps);
            assert(plan@.edges =~= after.edges);
        }
    }

    proof fn law_orders_stay_acyclic(&self, plan: PlanModel) {
        lemma_joined_points_forward(plan.edges, hotbar_mirror_part().edges);
    }
}

/// What is carried.
pub struct InventoryMirrorPlugin;

/// What [`InventoryMirrorPlugin`] adds.
pub open spec fn inventory_mirror_part() -> PlanModel {
    PlanModel {
        plugins: seq![PluginKind::InventoryMirror],
        resources: seq![Resource::InventoryMirrorCache],
        settings: Seq::empty(),
        steps: seq![
            fixed(System::MirrorInventoryState),
            fixed(System::ApplyInventoryActionRequests),
        ],
        edges: seq![
            fixed_order(System::TickSim, System::MirrorInventoryState),
            fixed_order(System::MirrorSimEntities, System::MirrorInventoryState),
            fixed_order(System::TickSim, System::ApplyInventoryActionRequests),
            fixed_order(System::MirrorSimEntities, System::ApplyInventoryActionRequests),
        ],
    }
}

impl BridgePlugin for InventoryMirrorPlugin {
    open spec fn can_be_added(&self, plan: PlanModel) -> bool {
        !plan.plugins.contains(PluginKind::InventoryMirror)
    }

    open spec fn added_to(&self, plan: PlanModel) -> PlanModel {
        plan.and(inventory_mirror_part())
    }

    fn build(&self, plan: &mut SchedulePlan) {
        let ghost before = plan@;
        plan.plugin(PluginKind::InventoryMirror);
        plan.resource(Resource::InventoryMirrorCache);
        plan.fixed(System::MirrorInventoryState);
        plan.fixed(System::ApplyInventoryActionRequests);
        plan.fixed_order(System::TickSim, System::MirrorInventoryState);
        plan.fixed_order(System::MirrorSimEntities, System::MirrorInventoryState);
        plan.fixed_order(System::TickSim, System::ApplyInventoryActionRequests);
        plan.fixed_order(System::MirrorSimEntities, System::ApplyInventoryActionRequests);
        proof {
            let after = before.and(inventory_mirror_part());
            assert(plan@.plugins =~= after.plugins);
            assert(plan@.resources =~= after.resources);
            assert(plan@.settings =~= after.settings);
            assert(plan@.steps =~= after.steps);
            assert(plan@.edges =~= after.edges);
        }
    }

    proof fn law_orders_stay_acyclic(&self, plan: PlanModel) {
        lemma_joined_points_forward(plan.edges, inventory_mirror_part().edges);
    }
}

/// What moves and fights sound like.
pub struct SfxLocomotionMirrorPlugin;

/// What [`SfxLocomotionMirrorPlugin`] adds.
pub open spec fn sfx_locomotion_mirror_part() -> PlanModel {
    PlanModel {
        plugins: seq![PluginKind::SfxLocomotionMirror],
        resources: Seq::empty(),
        settings: Seq::empty(),
        steps: seq![fixed(System::MirrorLocomotionAndCombatState)],
        edges: seq![
            fixed_order(System::TickSim, System::MirrorLocomotionAndCombatState),
            fixed_order(System::MirrorSimEntities, System::MirrorLocomotionAndCombatState),
        ],
    }
}

impl BridgePlugin for SfxLocomotionMirrorPlugin {
    open spec fn can_be_added(&self, plan: PlanModel) -> bool {
        !plan.plugins.contains(PluginKind::SfxLocomotionMirror)
    }

    open spec fn added_to(&self, plan: PlanModel) -> PlanModel {
        plan.and(sfx_locomotion_mirror_part())
    }

    fn build(&self, plan: &mut SchedulePlan) {
        let ghost before = plan@;
        plan.plugin(PluginKind::SfxLocomotionMirror);
        plan.fixed(System::MirrorLocomotionAndCombatState);
        plan.fixed_order(System::TickSim, System::MirrorLocomotionAndCombatState);
        plan.fixed_order(System::MirrorSimEntities, System::MirrorLocomotionAndCombatState);
        proof {
            let after = before.and(sfx_locomotion_mirror_part());
            assert(plan@.plugins =~= after.plugins);
            assert(plan@.resources =~= after.resources);
            assert(plan@.settings =~= after.settings);
            assert(plan@.steps =~= after.steps);
            assert(plan@.edges =~= after.edges);
        }
    }

    proof fn law_orders_stay_acyclic(&self, plan: PlanModel) {
        lemma_joined_points_forward(plan.edges, sfx_locomotion_mirror_part().edges);
    }
}

/// What events sound like.
pub struct SfxOutcomeBridgePlugin;

/// What [`SfxOutcomeBridgePlugin`] adds.
pub open spec fn sfx_outcome_bridge_part() -> PlanModel {
    PlanModel {
        plugins: seq![PluginKind::SfxOutcomeBridge],
        resources: Seq::empty(),
        settings: Seq::empty(),
        steps: seq![framed(System::BroadcastEmbeddedOutcomes)],
        edges: seq![framed_order(System::TickPlayer, System::BroadcastEmbeddedOutcomes)],
    }
}

impl BridgePlugin for SfxOutcomeBridgePlugin {
    open spec fn can_be_added(&self, plan: PlanModel) -> bool {
        !plan.plugins.contains(PluginKind::SfxOutcomeBridge)
    }

    open spec fn added_to(&self, plan: PlanModel) -> PlanModel {
        plan.and(sfx_outcome_bridge_part())
    }

    fn build(&self, plan: &mut SchedulePlan) {
        let ghost before = plan@;
        plan.plugin(PluginKind::SfxOutcomeBridge);
        plan.framed(System::BroadcastEmbeddedOutcomes);
        plan.framed_order(System::TickPlayer, System::BroadcastEmbeddedOutcomes);
        proof {
            let after = before.and(sfx_outcome_bridge_part());
            assert(plan@.plugins =~= after.plugins);
            assert(plan@.resources =~= after.resources);
            assert(plan@.settings =~= after.settings);
            assert(plan@.steps =~= after.steps);
            assert(plan@.edges =~= after.edges);
        }
    }

    proof fn law_orders_stay_acyclic(&self, plan: PlanModel) {
        lemma_joined_points_forward(plan.edges, sfx_outcome_bridge_part().edges);
    }
}

/// The simulation itself.
pub struct SimBridgePlugin;

/// What [`SimBridgePlugin`] adds ahead of the dimensions.
pub open spec fn sim_bridge_head() -> PlanModel {
    PlanModel {
        plugins: seq![PluginKind::SimBridge],
        resources: seq![
            Resource::SimMirror,
            Resource::PendingDimensionAttribution,
            Resource::SimEntityDimension,
        ],
        settings: Seq::empty(),
        steps: Seq::empty(),
        edges: Seq::empty(),
    }
}

/// What [`SimBridgePlugin`] adds behind the dimensions.
pub open spec fn sim_bridge_tail() -> PlanModel {
    PlanModel {
        plugins: Seq::empty(),
        resources: seq![Resource::DefaultDimensionState],
        settings: Seq::empty(),
        steps: seq![
            fixed(System::TickSim),
            fixed(System::EnsureDefaultDimension),
            fixed(System::ApplyPendingEntityTemplateSpawns),
        ],
        edges: seq![
            fixed_order(System::TickSim, System::EnsureDefaultDimension),
            fixed_order(System::EnsureDefaultDimension, System::ApplyPendingEntityTemplateSpawns),
        ],
    }
}

/// The plan with the dimensions in it; they are added where they are not there yet.
pub open spec fn with_dimensions(plan: PlanModel) -> PlanModel {
    if plan.plugins.contains(PluginKind::Dimensions) {
        plan
    } else {
        PlanModel { plugins: plan.plugins.push(PluginKind::Dimensions), ..plan }
    }
}

impl BridgePlugin for SimBridgePlugin {
    open spec fn can_be_added(&self, plan: PlanModel) -> bool {
        !plan.plugins.contains(PluginKind::SimBridge)
    }

    open spec fn added_to(&self, plan: PlanModel) -> PlanModel {
        with_dimensions(plan.and(sim_bridge_head())).and(sim_bridge_tail())
    }

    fn build(&self, plan: &mut SchedulePlan) {
        let ghost before = plan@;
        plan.plugin(PluginKind::SimBridge);
        plan.resource(Resource::SimMirror);
        plan.resource(Resource::PendingDimensionAttribution);
        plan.resource(Resource::SimEntityDimension);
        proof {
            let head = before.and(sim_bridge_head());
            assert(plan@.plugins =~= head.plugins);
            assert(plan@.resources =~= head.resources);
            assert(plan@.settings =~= head.settings);
            assert(plan@.steps =~= head.steps);
            assert(plan@.edges =~= head.edges);
        }
        if !plan.is_plugin_added(PluginKind::Dimensions) {
            plan.plugin(PluginKind::Dimensions);
        }
        let ghost middle = plan@;
        plan.resource(Resource::DefaultDimensionState);
        plan.fixed(System::TickSim);
        plan.fixed(System::EnsureDefaultDimension);
        plan.fixed(System::ApplyPendingEntityTemplateSpawns);
        plan.fixed_order(System::TickSim, System::EnsureDefaultDimension);
        plan.fixed_order(System::EnsureDefaultDimension, System::ApplyPendingEntityTemplateSpawns);
        proof {
            let after = middle.and(sim_bridge_tail());
            assert(plan@.plugins =~= after.plugins);
            assert(plan@.resources =~= after.resources);
            assert(plan@.settings =~= after.settings);
            assert(plan@.steps =~= after.steps);
            assert(plan@.edges =~= after.edges);
        }
    }

    proof fn law_orders_stay_acyclic(&self, plan: PlanModel) {
        lemma_joined_points_forward(plan.edges, sim_bridge_head().edges);
        lemma_joined_points_forward(
            plan.edges + sim_bridge_head().edges,
            sim_bridge_tail().edges,
        );
    }
}

/// The events that a game master writes, from their files to their dimensions.
pub struct ServerOraclePlugin {
    /// The directory that the events' files are watched in.
    pub events_dir: String,
    /// The list of the events that are always there.
    pub manifest_path: String,
}

/// What [`ServerOraclePlugin`] adds ahead of the players' moves.
pub open spec fn server_oracle_head() -> PlanModel {
    PlanModel {
        plugins: seq![
            PluginKind::ServerOracle,
            PluginKind::DmEvent,
            PluginKind::EntityTemplate,
            PluginKind::Chronicle,
            PluginKind::OracleEventManifest,
        ],
        resources: Seq::empty(),
        settings: Seq::empty(),
        steps: Seq::empty(),
        edges: Seq::empty(),
    }
}

/// What [`ServerOraclePlugin`] adds behind the players' moves.
pub open spec fn server_oracle_tail(events_dir: Seq<char>, manifest_path: Seq<char>) -> PlanModel {
    PlanModel {
        plugins: Seq::empty(),
        resources: seq![
            Resource::NextDimensionId,
            Resource::OracleEventRegistry,
            Resource::EntityTemplateHandles,
            Resource::WellKnownEventHandles,
            Resource::WellKnownEventFilenames,
            Resource::EventTransferZones,
        ],
        settings: seq![
            SettingModel::OracleEventsDir(events_dir),
            SettingModel::OracleEventManifestPath(manifest_path),
        ],
        steps: seq![
            Step {
                system: System::RequestOracleEventManifest,
                phase: Phase::Startup,
                local_only: false,
            },
            fixed(System::RequestWellKnownEventsFromManifest),
            fixed(System::IngestDmEvents),
            fixed(System::RetireDmEvents),
            fixed(System::SpawnEventMinions),
            fixed(System::DetectPlayerDimensionEntry),
            fixed(System::CleanupDimensionSideTablesOnTeardown),
        ],
        edges: seq![
            fixed_order(System::IngestDmEvents, System::HandleSpinupRequests),
            fixed_order(System::RetireDmEvents, System::HandleDrainRequests),
            fixed_order(System::PollSpinupTasks, System::SpawnEventMinions),
            fixed_order(System::SpawnEventMinions, System::ApplyPendingEntityTemplateSpawns),
            fixed_order(System::SpawnEventMinions, System::DetectPlayerDimensionEntry),
            fixed_order(System::DetectPlayerDimensionEntry, System::ApplyPlayerDimensionTransfers),
            fixed_order(
                System::TeardownCompletedDimensions,
                System::CleanupDimensionSideTablesOnTeardown,
            ),
        ],
    }
}

/// The plan with the players' moves in it; they are added where they are not there yet.
pub open spec fn with_player_transfer(plan: PlanModel) -> PlanModel {
    if plan.plugins.contains(PluginKind::PlayerTransfer) {
        plan
    } else {
        plan.and(player_transfer_part())
    }
}

impl BridgePlugin for ServerOraclePlugin {
    open spec fn can_be_added(&self, plan: PlanModel) -> bool {
        &&& !plan.plugins.contains(PluginKind::ServerOracle)
        &&& !plan.plugins.contains(PluginKind::DmEvent)
        &&& !plan.plugins.contains(PluginKind::EntityTemplate)
        &&& !plan.plugins.contains(PluginKind::Chronicle)
        &&& !plan.plugins.contains(PluginKind::OracleEventManifest)
    }

    open spec fn added_to(&self, plan: PlanModel) -> PlanModel {
        with_player_transfer(plan.and(server_oracle_head())).and(
            server_oracle_tail(self.events_dir@, self.manifest_path@),
        )
    }

    fn build(&self, plan: &mut SchedulePlan) {
        let ghost before = plan@;
        plan.plugin(PluginKind::ServerOracle);
        plan.plugin(PluginKind::DmEvent);
        plan.plugin(PluginKind::EntityTemplate);
        plan.plugin(PluginKind::Chronicle);
        plan.plugin(PluginKind::OracleEventManifest);
        proof {
            let head = before.and(server_oracle_head());
            assert(plan@.plugins =~= head.plugins);
            assert(plan@.resources =~= head.resources);
            assert(plan@.settings =~= head.settings);
            assert(plan@.steps =~= head.steps);
            assert(plan@.edges =~= head.edges);
        }
        if !plan.is_plugin_added(PluginKind::PlayerTransfer) {
            PlayerTransferPlugin.build(plan);
        }
        let ghost middle = plan@;
        plan.resource(Resource::NextDimensionId);
        plan.resource(Resource::OracleEventRegistry);
        plan.resource(Resource::EntityTemplateHandles);
        plan.resource(Resource::WellKnownEventHandles);
        plan.resource(Resource::WellKnownEventFilenames);
        plan.resource(Resource::EventTransferZones);
        plan.setting(Setting::OracleEventsDir(self.events_dir.clone()));
        plan.setting(Setting::OracleEventManifestPath(self.manifest_path.clone()));
        plan.startup(System::RequestOracleEventManifest);
        plan.fixed(System::RequestWellKnownEventsFromManifest);
        plan.fixed(System::IngestDmEvents);
        plan.fixed(System::RetireDmEvents);
        plan.fixed(System::SpawnEventMinions);
        plan.fixed(System::DetectPlayerDimensionEntry);
        plan.fixed(System::CleanupDimensionSideTablesOnTeardown);
        plan.fixed_order(System::IngestDmEvents, System::HandleSpinupRequests);
        plan.fixed_order(System::RetireDmEvents, System::HandleDrainRequests);
        plan.fixed_order(System::PollSpinupTasks, System::SpawnEventMinions);
        plan.fixed_order(System::SpawnEventMinions, System::ApplyPendingEntityTemplateSpawns);
        plan.fixed_order(System::SpawnEventMinions, System::DetectPlayerDimensionEntry);
        plan.fixed_order(
            System::DetectPlayerDimensionEntry,
            System::ApplyPlayerDimensionTransfers,
        );
        plan.fixed_order(
            System::TeardownCompletedDimensions,
            System::CleanupDimensionSideTablesOnTeardown,
        );
        proof {
            let after = middle.and(server_oracle_tail(self.events_dir@, self.manifest_path@));
            assert(plan@.plugins =~= after.plugins);
            assert(plan@.resources =~= after.resources);
            assert(plan@.settings =~= after.settings);
            assert(plan@.steps =~= after.steps);
            assert(plan@.edges =~= after.edges);
        }
    }

    proof fn law_orders_stay_acyclic(&self, plan: PlanModel) {
        let head = plan.and(server_oracle_head());
        lemma_joined_points_forward(plan.edges, server_oracle_head().edges);
        lemma_joined_points_forward(head.edges, player_transfer_part().edges);
        lemma_joined_points_forward(
            with_player_transfer(head).edges,
            server_oracle_tail(self.events_dir@, self.manifest_path@).edges,
        );
    }
}

/// An order that one part of a plan gives holds in the whole.
proof fn lemma_part_orders(a: PlanModel, b: PlanModel, first: System, second: System)
    requires
        orders(a, first, second) || orders(b, first, second),
    ensures
        orders(a.and(b), first, second),
{
    let edge = fixed_order(first, second);
    if a.edges.contains(edge) {
        let i = a.edges.index_of(edge);
        assert(a.and(b).edges[i] == edge);
    } else {
        let i = b.edges.index_of(edge);
        assert(a.and(b).edges[a.edges.len() + i] == edge);
    }
}

/// Adding a plugin takes back no order.
pub proof fn law_orders_are_kept(plan: PlanModel, more: PlanModel, first: System, second: System)
    requires
        orders(plan, first, second),
    ensures
        orders(plan.and(more), first, second),
{
    lemma_part_orders(plan, more, first, second);
}

/// A player leaves a dimension that is drained before the systems that end it run: first they
/// are ejected, then moved, and only then are mirrors released, deleted and torn down.
pub proof fn law_players_leave_before_the_end(plan: PlanModel)
    ensures
        ({
            let built = PlayerTransferPlugin.added_to(plan);
            let eject = System::EjectPlayersBeforeDimensionTeardown;
            let transfer = System::ApplyPlayerDimensionTransfers;
            &&& orders(built, System::HandleDrainRequests, eject)
            &&& orders(built, eject, transfer)
            &&& orders(built, transfer, System::MirrorSimEntities)
            &&& orders(built, transfer, System::ReleaseDimensionOccupantsOnDrainRequest)
            &&& orders(built, transfer, System::DeleteSpecsEntitiesForTornDownDimensions)
            &&& orders(built, transfer, System::TeardownCompletedDimensions)
        }),
{
    let part = player_transfer_part();
    let transfer = System::ApplyPlayerDimensionTransfers;
    assert(part.edges[0] == fixed_order(
        System::HandleDrainRequests,
        System::EjectPlayersBeforeDimensionTeardown,
    ));
    assert(part.edges[1] == fixed_order(System::EjectPlayersBeforeDimensionTeardown, transfer));
    assert(part.edges[5] == fixed_order(transfer, System::MirrorSimEntities));
    assert(part.edges[6] == fixed_order(
        transfer,
        System::ReleaseDimensionOccupantsOnDrainRequest,
    ));
    assert(part.edges[7] == fixed_order(
        transfer,
        System::DeleteSpecsEntitiesForTornDownDimensions,
    ));
    assert(part.edges[8] == fixed_order(transfer, System::TeardownCompletedDimensions));
    lemma_part_orders(
        plan,
        part,
        System::HandleDrainRequests,
        System::EjectPlayersBeforeDimensionTeardown,
    );
    lemma_part_orders(plan, part, System::EjectPlayersBeforeDimensionTeardown, transfer);
    lemma_part_orders(plan, part, transfer, System::MirrorSimEntities);
    lemma_part_orders(plan, part, transfer, System::ReleaseDimensionOccupantsOnDrainRequest);
    lemma_part_orders(plan, part, transfer, System::DeleteSpecsEntitiesForTornDownDimensions);
    lemma_part_orders(plan, part, transfer, System::TeardownCompletedDimensions);
}

/// What a dimension's end does to the simulation is done before its mirrors are gone: a drain
/// and every other way into teardown come first, then occupants are released, then the
/// simulation's entities are deleted, and only then is the dimension torn down.
pub proof fn law_entities_are_deleted_before_the_end(plan: PlanModel)
    ensures
        ({
            let built = SimEntityMirrorPlugin.added_to(plan);
            let delete = System::DeleteSpecsEntitiesForTornDownDimensions;
            let release = System::ReleaseDimensionOccupantsOnDrainRequest;
            &&& orders(built, System::HandleDrainRequests, release)
            &&& orders(built, release, delete)
            &&& orders(built, System::HandleDrainRequests, delete)
            &&& orders(built, System::PredictiveGc, delete)
            &&& orders(built, delete, System::TeardownCompletedDimensions)
        }),
{
    let part = sim_entity_mirror_part();
    let delete = System::DeleteSpecsEntitiesForTornDownDimensions;
    let release = System::ReleaseDimensionOccupantsOnDrainRequest;
    assert(part.edges[11] == fixed_order(System::HandleDrainRequests, delete));
    assert(part.edges[12] == fixed_order(System::PredictiveGc, delete));
    assert(part.edges[13] == fixed_order(delete, System::TeardownCompletedDimensions));
    assert(part.edges[14] == fixed_order(System::HandleDrainRequests, release));
    assert(part.edges[15] == fixed_order(release, delete));
    lemma_part_orders(plan, part, System::HandleDrainRequests, delete);
    lemma_part_orders(plan, part, System::PredictiveGc, delete);
    lemma_part_orders(plan, part, delete, System::TeardownCompletedDimensions);
    lemma_part_orders(plan, part, System::HandleDrainRequests, release);
    lemma_part_orders(plan, part, release, delete);
}

/// The mirrors are made from what the tick left, after the default dimension is there.
pub proof fn law_mirrors_follow_the_tick(plan: PlanModel)
    ensures
        orders(SimEntityMirrorPlugin.added_to(plan), System::TickSim, System::MirrorSimEntities),
        orders(
            SimEntityMirrorPlugin.added_to(plan),
            System::EnsureDefaultDimension,
            System::MirrorSimEntities,
        ),
{
    let part = sim_entity_mirror_part();
    assert(part.edges[3] == fixed_order(System::TickSim, System::MirrorSimEntities));
    assert(part.edges[9] == fixed_order(System::EnsureDefaultDimension, System::MirrorSimEntities));
    lemma_part_orders(plan, part, System::TickSim, System::MirrorSimEntities);
    lemma_part_orders(plan, part, System::EnsureDefaultDimension, System::MirrorSimEntities);
}

} // verus!
