//! What runs when: the systems of the bridge, the phases they run in, and the order among
//! them. A plugin adds its part to a plan, and the host application registers the plan.

use crate::net_value::models;
use vstd::prelude::*;

verus! {

/// The phases of a frame.
#[derive(Clone, Copy, Debug, PartialEq, Eq, Hash, Structural)]
pub enum Phase {
    /// Once, before the first frame.
    Startup,
    /// Once a frame.
    Update,
    /// At the pace of the simulation.
    FixedUpdate,
}

/// The systems that an order is given for.
#[derive(Clone, Copy, Debug, PartialEq, Eq, Hash, Structural)]
pub enum System {
    TickSim,
    EnsureDefaultDimension,
    ApplyPendingEntityTemplateSpawns,
    EnsureTerrainAnchor,
    ApplyDefaultViewpointForNewClients,
    StreamTerrainChanges,
    SendLodAltOnce,
    SendLodZoneUpdates,
    SendMapDataOnce,
    SpawnTestNpcs,
    MirrorSimEntities,
    TickAuroraOverlay,
    DeleteSpecsEntitiesForTornDownDimensions,
    ReleaseDimensionOccupantsOnDrainRequest,
    TickPlayer,
    MirrorLocalPlayerPrediction,
    ApplyCharRequests,
    BroadcastCharList,
    ApplyChatSendRequests,
    BroadcastEmbeddedChat,
    BroadcastCapturedChat,
    MirrorCombatHudState,
    MirrorCraftingState,
    MirrorHotbarState,
    ApplyHotbarAssignmentRequests,
    MirrorInventoryState,
    ApplyInventoryActionRequests,
    MirrorLocomotionAndCombatState,
    BroadcastEmbeddedOutcomes,
    EjectPlayersBeforeDimensionTeardown,
    ApplyPlayerDimensionTransfers,
    RequestOracleEventManifest,
    RequestWellKnownEventsFromManifest,
    IngestDmEvents,
    RetireDmEvents,
    SpawnEventMinions,
    DetectPlayerDimensionEntry,
    CleanupDimensionSideTablesOnTeardown,
    /// The dimensions' own systems, which others are ordered against.
    HandleSpinupRequests,
    PollSpinupTasks,
    HandleDrainRequests,
    PredictiveGc,
    TeardownCompletedDimensions,
}

/// The plugins, those of the bridge and those that it brings along.
#[derive(Clone, Copy, Debug, PartialEq, Eq, Hash, Structural)]
pub enum PluginKind {
    SimBridge,
    SimTerrainStream,
    LodAltStream,
    LodZoneStream,
    MapDataStream,
    SimEntityMirror,
    PlayerBridge,
    PlayerTransfer,
    CharListMirror,
    ChatBridge,
    CombatHudMirror,
    CraftingMirror,
    HotbarMirror,
    InventoryMirror,
    SfxLocomotionMirror,
    SfxOutcomeBridge,
    ServerOracle,
    Dimensions,
    DmEvent,
    EntityTemplate,
    Chronicle,
    OracleEventManifest,
}

/// What has to exist before the systems run; what exists already is left as it is.
#[derive(Clone, Copy, Debug, PartialEq, Eq, Hash, Structural)]
pub enum Resource {
    SimMirror,
    PendingDimensionAttribution,
    SimEntityDimension,
    DefaultDimensionState,
    TerrainAnchorState,
    LodAltState,
    LodZoneStreamState,
    MapDataState,
    SimLoadoutCache,
    SimRegionCache,
    TestNpcState,
    AiExecutionMode,
    AuroraOverlay,
    AuroraScratch,
    LocalPlayerInput,
    CharListMirrorCache,
    ActiveReplicaSessions,
    CombatHudMirrorCache,
    CraftingMirrorCache,
    HotbarMirrorCache,
    InventoryMirrorCache,
    TransferPlayerDimensionMessages,
    NextDimensionId,
    OracleEventRegistry,
    EntityTemplateHandles,
    WellKnownEventHandles,
    WellKnownEventFilenames,
    EventTransferZones,
}

/// A resource that comes with its value, which is written over the one that exists already.
pub enum Setting {
    /// The directory that the events' files are watched in.
    OracleEventsDir(String),
    /// The list of the events that are always there.
    OracleEventManifestPath(String),
}

/// A [`Setting`] over text.
pub ghost enum SettingModel {
    OracleEventsDir(Seq<char>),
    OracleEventManifestPath(Seq<char>),
}

impl View for Setting {
    type V = SettingModel;

    open spec fn view(&self) -> SettingModel {
        match *self {
            Setting::OracleEventsDir(dir) => SettingModel::OracleEventsDir(dir@),
            Setting::OracleEventManifestPath(path) => SettingModel::OracleEventManifestPath(path@),
        }
    }
}

/// A system that runs in a phase. One that is `local_only` runs only where the application is
/// no client of another.
#[derive(Clone, Copy, Debug, PartialEq, Eq, Structural)]
pub struct Step {
    pub system: System,
    pub phase: Phase,
    pub local_only: bool,
}

/// Within a phase, the first system has run before the second one does.
#[derive(Clone, Copy, Debug, PartialEq, Eq, Structural)]
pub struct Edge {
    pub phase: Phase,
    pub first: System,
    pub second: System,
}

/// What the plugins have added so far.
pub struct SchedulePlan {
    pub plugins: Vec<PluginKind>,
    pub resources: Vec<Resource>,
    pub settings: Vec<Setting>,
    pub steps: Vec<Step>,
    pub edges: Vec<Edge>,
}

/// A [`SchedulePlan`] over sequences.
pub ghost struct PlanModel {
    pub plugins: Seq<PluginKind>,
    pub resources: Seq<Resource>,
    pub settings: Seq<SettingModel>,
    pub steps: Seq<Step>,
    pub edges: Seq<Edge>,
}

impl View for SchedulePlan {
    type V = PlanModel;

    open spec fn view(&self) -> PlanModel {
        PlanModel {
            plugins: self.plugins@,
            resources: self.resources@,
            settings: models(self.settings@),
            steps: self.steps@,
            edges: self.edges@,
        }
    }
}

impl PlanModel {
    /// The plan with more behind what it holds.
    pub open spec fn and(self, more: PlanModel) -> PlanModel {
        PlanModel {
            plugins: self.plugins + more.plugins,
            resources: self.resources + more.resources,
            settings: self.settings + more.settings,
            steps: self.steps + more.steps,
            edges: self.edges + more.edges,
        }
    }
}

/// A step at the pace of the simulation.
pub open spec fn fixed(system: System) -> Step {
    Step { system, phase: Phase::FixedUpdate, local_only: false }
}

/// A step at the pace of the simulation, where the application is no client.
pub open spec fn fixed_local(system: System) -> Step {
    Step { system, phase: Phase::FixedUpdate, local_only: true }
}

/// A step of every frame.
pub open spec fn framed(system: System) -> Step {
    Step { system, phase: Phase::Update, local_only: false }
}

/// A step of every frame, where the application is no client.
pub open spec fn framed_local(system: System) -> Step {
    Step { system, phase: Phase::Update, local_only: true }
}

/// An order at the pace of the simulation.
pub open spec fn fixed_order(first: System, second: System) -> Edge {
    Edge { phase: Phase::FixedUpdate, first, second }
}

/// An order within a frame.
pub open spec fn framed_order(first: System, second: System) -> Edge {
    Edge { phase: Phase::Update, first, second }
}

impl SchedulePlan {
    /// A plan that nothing was added to.
    pub fn new() -> (plan: SchedulePlan)
        ensures
            plan@.plugins.len() == 0,
            plan@.resources.len() == 0,
            plan@.settings.len() == 0,
            plan@.steps.len() == 0,
            plan@.edges.len() == 0,
    {
        SchedulePlan {
            plugins: Vec::new(),
            resources: Vec::new(),
            settings: Vec::new(),
            steps: Vec::new(),
            edges: Vec::new(),
        }
    }

    /// Whether a plugin was added.
    pub fn is_plugin_added(&self, kind: PluginKind) -> (added: bool)
        ensures
            added == self@.plugins.contains(kind),
    {
        let mut i: usize = 0;
        while i < self.plugins.len()
            invariant
                i <= self.plugins.len(),
                forall|k: int| 0 <= k < i ==> self.plugins@[k] != kind,
            decreases self.plugins.len() - i,
        {
            if self.plugins[i] == kind {
                assert(self.plugins@[i as int] == kind);
                return true;
            }
            i += 1;
        }
        false
    }

    /// Notes that a plugin was added.
    pub fn plugin(&mut self, kind: PluginKind)
        ensures
            final(self)@ == (PlanModel { plugins: old(self)@.plugins.push(kind), ..old(self)@ }),
    {
        self.plugins.push(kind);
    }

    /// Asks for a resource.
    pub fn resource(&mut self, resource: Resource)
        ensures
            final(self)@ == (PlanModel {
                resources: old(self)@.resources.push(resource),
                ..old(self)@
            }),
    {
        self.resources.push(resource);
    }

    /// Writes a resource that comes with its value.
    pub fn setting(&mut self, setting: Setting)
        ensures
            final(self)@ == (PlanModel {
                settings: old(self)@.settings.push(setting@),
                ..old(self)@
            }),
    {
        self.settings.push(setting);
        assert(models(self.settings@) =~= models(old(self).settings@).push(setting@));
    }

    /// Adds a step at the pace of the simulation.
    pub fn fixed(&mut self, system: System)
        ensures
            final(self)@ == (PlanModel { steps: old(self)@.steps.push(fixed(system)), ..old(self)@ }),
    {
        self.steps.push(Step { system, phase: Phase::FixedUpdate, local_only: false });
    }

    /// Adds a step at the pace of the simulation, where the application is no client.
    pub fn fixed_local(&mut self, system: System)
        ensures
            final(self)@ == (PlanModel {
                steps: old(self)@.steps.push(fixed_local(system)),
                ..old(self)@
            }),
    {
        self.steps.push(Step { system, phase: Phase::FixedUpdate, local_only: true });
    }

    /// Adds a step of every frame.
    pub fn framed(&mut self, system: System)
        ensures
            final(self)@ == (PlanModel { steps: old(self)@.steps.push(framed(system)), ..old(self)@ }),
    {
        self.steps.push(Step { system, phase: Phase::Update, local_only: false });
    }

    /// Adds a step of every frame, where the application is no client.
    pub fn framed_local(&mut self, system: System)
        ensures
            final(self)@ == (PlanModel {
                steps: old(self)@.steps.push(framed_local(system)),
                ..old(self)@
            }),
    {
        self.steps.push(Step { system, phase: Phase::Update, local_only: true });
    }

    /// Adds a step before the first frame.
    pub fn startup(&mut self, system: System)
        ensures
            final(self)@ == (PlanModel {
                steps: old(self)@.steps.push(
                    Step { system, phase: Phase::Startup, local_only: false },
                ),
                ..old(self)@
            }),
    {
        self.steps.push(Step { system, phase: Phase::Startup, local_only: false });
    }

    /// Orders two systems at the pace of the simulation.
    pub fn fixed_order(&mut self, first: System, second: System)
        ensures
            final(self)@ == (PlanModel {
                edges: old(self)@.edges.push(fixed_order(first, second)),
                ..old(self)@
            }),
    {
        self.edges.push(Edge { phase: Phase::FixedUpdate, first, second });
    }

    /// Orders two systems within a frame.
    pub fn framed_order(&mut self, first: System, second: System)
        ensures
            final(self)@ == (PlanModel {
                edges: old(self)@.edges.push(framed_order(first, second)),
                ..old(self)@
            }),
    {
        self.edges.push(Edge { phase: Phase::Update, first, second });
    }
}

/// A line that all systems can be put in so that every order of the bridge holds.
pub open spec fn place(system: System) -> int {
    match system {
        System::IngestDmEvents => 0,
        System::RetireDmEvents => 0,
        System::TickPlayer => 0,
        System::TickSim => 1,
        System::HandleSpinupRequests => 2,
        System::EnsureDefaultDimension => 2,
        System::PollSpinupTasks => 3,
        System::HandleDrainRequests => 4,
        System::PredictiveGc => 5,
        System::SpawnEventMinions => 6,
        System::ApplyPendingEntityTemplateSpawns => 7,
        System::DetectPlayerDimensionEntry => 7,
        System::EjectPlayersBeforeDimensionTeardown => 7,
        System::ApplyPlayerDimensionTransfers => 8,
        System::EnsureTerrainAnchor => 8,
        System::SpawnTestNpcs => 8,
        System::ApplyCharRequests => 8,
        System::ReleaseDimensionOccupantsOnDrainRequest => 9,
        System::ApplyDefaultViewpointForNewClients => 9,
        System::MirrorSimEntities => 9,
        System::DeleteSpecsEntitiesForTornDownDimensions => 10,
        System::TeardownCompletedDimensions => 11,
        System::CleanupDimensionSideTablesOnTeardown => 12,
        _ => 10,
    }
}

/// Whether every order points forward along the line.
pub open spec fn points_forward(edges: Seq<Edge>) -> bool {
    forall|i: int| 0 <= i < edges.len() ==> place((#[trigger] edges[i]).first) < place(edges[i].second)
}

/// Whether a plan orders one system before another, directly.
pub open spec fn orders(plan: PlanModel, first: System, second: System) -> bool {
    plan.edges.contains(fixed_order(first, second))
}

/// Whether each system of a path is ordered before the next one, in some phase.
pub open spec fn is_path(edges: Seq<Edge>, path: Seq<System>) -> bool {
    forall|i: int|
        0 <= i < path.len() - 1 ==> exists|e: int|
            0 <= e < edges.len() && edges[e].first == #[trigger] path[i] && (
            #[trigger] edges[e]).second == path[i + 1]
}

/// Orders that point forward have no cycle: a path never comes back to where it started.
pub proof fn law_no_cycles(edges: Seq<Edge>, path: Seq<System>)
    requires
        points_forward(edges),
        is_path(edges, path),
        path.len() >= 2,
    ensures
        path.first() != path.last(),
{
    lemma_path_advances(edges, path, path.len() - 1);
}

/// A path of orders that point forward advances.
proof fn lemma_path_advances(edges: Seq<Edge>, path: Seq<System>, n: int)
    requires
        points_forward(edges),
        is_path(edges, path),
        1 <= n < path.len(),
    ensures
        place(path[0]) < place(path[n]),
    decreases n,
{
    if n > 1 {
        lemma_path_advances(edges, path, n - 1);
    }
    let i = n - 1;
    assert(path[i] == path[i]);
    let e = choose|e: int|
        0 <= e < edges.len() && edges[e].first == path[i] && (#[trigger] edges[e]).second == path[i
            + 1];
    assert(place(edges[e].first) < place(edges[e].second));
}

/// Joined orders point forward where both parts do.
pub proof fn lemma_joined_points_forward(a: Seq<Edge>, b: Seq<Edge>)
    requires
        points_forward(a),
        points_forward(b),
    ensures
        points_forward(a + b),
{
    let all = a + b;
    assert forall|i: int| 0 <= i < all.len() implies place((#[trigger] all[i]).first) < place(
        all[i].second,
    ) by {
        if i < a.len() {
            assert(all[i] == a[i]);
        } else {
            assert(all[i] == b[i - a.len()]);
        }
    }
}

/// A part of the bridge that an application can take in.
pub trait BridgePlugin {
    /// Whether the plugin can be added: a plugin is added once, and what it brings along
    /// without asking must not be there yet.
    spec fn can_be_added(&self, plan: PlanModel) -> bool;

    /// The plan with this plugin in it.
    spec fn added_to(&self, plan: PlanModel) -> PlanModel;

    /// Adds the plugin to a plan.
    fn build(&self, plan: &mut SchedulePlan)
        requires
            self.can_be_added(old(plan)@),
        ensures
            final(plan)@ == self.added_to(old(plan)@),
    ;

    /// Whatever is added, the orders have no cycle.
    proof fn law_orders_stay_acyclic(&self, plan: PlanModel)
        requires
            points_forward(plan.edges),
        ensures
            points_forward(self.added_to(plan).edges),
    ;
}

} // verus!
