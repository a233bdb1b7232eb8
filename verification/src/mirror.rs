//! The mirror of simulation entities: which of them are shown, in which dimension, and
//! what is written to each one's replicated counterpart.

use crate::axes::{identity, sim_pos_to_bevy, to_bevy, QuatBits, Vec3Bits, ONE};
use crate::character::{gliding, is_gliding, CharacterState};
use crate::ids::{
    admits, default_dimension, DimensionId, DimensionState, DimensionTable, RegionKey,
};
use crate::keys::{keep_only, keys_of};
use crate::loadout::{
    bare_loadout, gear_loadout, net_loadout_from_inventory, EquippedGear, LoadoutModel, NetLoadout,
};
use crate::net_value::{is_cached, DedupCache, NetValue};
use std::collections::{HashMap, HashSet, VecDeque};
use vstd::prelude::*;

verus! {

broadcast use vstd::std_specs::hash::group_hash_axioms;

/// The replicated counterpart of each mirrored simulation entity.
pub struct SimMirror(pub HashMap<u64, u64>);

/// The loadout that was last written for each simulation entity.
pub struct SimLoadoutCache(pub DedupCache<NetLoadout>);

/// The region that was last written for each simulation entity.
pub struct SimRegionCache(pub HashMap<u64, RegionKey>);

/// The dimension that was decided for each simulation entity when it was first seen.
pub struct SimEntityDimension(pub HashMap<u64, DimensionId>);

/// The dimensions that the next new agents belong to, in the order of their requests.
pub struct PendingDimensionAttribution(pub VecDeque<DimensionId>);

/// The health of a simulation entity; the amounts are bit patterns.
#[derive(Clone, Copy, Debug, PartialEq, Eq, Structural)]
pub struct Health {
    pub current: u32,
    pub max: u32,
    pub is_dead: bool,
}

/// The health that a mirror shows; the amounts are bit patterns.
#[derive(Clone, Copy, Debug, PartialEq, Eq, Structural)]
pub struct NetHealth {
    pub current: u32,
    pub max: u32,
}

/// What a mirror shows of its entity on every pass, among the axes of the replicated world. A
/// mirror without `health` has no such component.
#[derive(Clone, Copy, Debug, PartialEq, Eq, Structural)]
pub struct NetFigure {
    pub pos: Vec3Bits,
    pub ori: QuatBits,
    pub vel: Vec3Bits,
    /// The number of the body.
    pub body: u32,
    pub health: Option<NetHealth>,
}

/// What a pass reads of one simulation entity that has a position and a body.
pub struct MirrorRow {
    pub sim_entity: u64,
    /// Whether its presence is synchronised to clients; `None` where it has no presence.
    pub sync_me: Option<bool>,
    /// Its position in the simulation.
    pub pos: Vec3Bits,
    /// Its velocity in the simulation, if it has one.
    pub vel: Option<Vec3Bits>,
    /// Its rotation in the replicated world, if it has one.
    pub ori: Option<QuatBits>,
    pub health: Option<Health>,
    /// The number of its body.
    pub body: u32,
    pub humanoid: bool,
    pub gear: Option<EquippedGear>,
    pub character_state: Option<CharacterState>,
    pub uid: Option<u64>,
    pub has_agent: bool,
    /// The cell of the interest grid that its position lies in.
    pub cell_x: i32,
    pub cell_y: i32,
}

/// What is written to a mirror that exists already, from the row at index `row`.
pub struct MirrorUpdate {
    pub row: usize,
    pub entity: u64,
    pub figure: NetFigure,
    pub loadout: Option<NetLoadout>,
    /// Whether the mirror carries the mark of the local player.
    pub local_player: bool,
    pub uid: Option<u64>,
    pub region: Option<RegionKey>,
}

/// A mirror that has to be created, with what it starts with, from the row at index `row`.
pub struct MirrorSpawn {
    pub row: usize,
    pub sim_entity: u64,
    pub dimension: DimensionId,
    pub root: u64,
    pub figure: NetFigure,
    pub loadout: Option<NetLoadout>,
    pub local_player: bool,
    pub uid: Option<u64>,
    pub region: RegionKey,
}

/// One step of a mirror pass.
pub enum MirrorAction {
    Update(MirrorUpdate),
    Spawn(MirrorSpawn),
}

/// A mirror whose simulation entity is gone, and the dimension that it occupied.
#[derive(Clone, Copy, Debug, PartialEq, Eq, Structural)]
pub struct StaleMirror {
    pub sim_entity: u64,
    pub entity: u64,
    pub dimension: DimensionId,
}

/// What a pass decided: writes and creations in row order, then removals.
pub struct MirrorPlan {
    pub actions: Vec<MirrorAction>,
    pub stale: Vec<StaleMirror>,
}

/// A [`MirrorAction`] over models.
pub ghost enum ActionModel {
    Update {
        row: int,
        entity: u64,
        figure: NetFigure,
        loadout: Option<LoadoutModel>,
        local_player: bool,
        uid: Option<u64>,
        region_write: Option<RegionKey>,
    },
    Spawn {
        row: int,
        sim_entity: u64,
        dimension: DimensionId,
        root: u64,
        figure: NetFigure,
        loadout: Option<LoadoutModel>,
        local_player: bool,
        uid: Option<u64>,
        region: RegionKey,
    },
}

/// Everything that a pass reads and changes.
pub ghost struct MirrorModel {
    pub mirror: Map<u64, u64>,
    pub loadouts: Map<u64, LoadoutModel>,
    pub regions: Map<u64, RegionKey>,
    pub dims: Map<u64, DimensionId>,
    pub queue: Seq<DimensionId>,
}

/// The model of an optional loadout.
pub open spec fn loadout_of(loadout: Option<NetLoadout>) -> Option<LoadoutModel> {
    match loadout {
        Some(loadout) => Some(loadout@),
        None => None,
    }
}

impl View for MirrorAction {
    type V = ActionModel;

    open spec fn view(&self) -> ActionModel {
        match *self {
            MirrorAction::Update(u) => ActionModel::Update {
                row: u.row as int,
                entity: u.entity,
                figure: u.figure,
                loadout: loadout_of(u.loadout),
                local_player: u.local_player,
                uid: u.uid,
                region_write: u.region,
            },
            MirrorAction::Spawn(s) => ActionModel::Spawn {
                row: s.row as int,
                sim_entity: s.sim_entity,
                dimension: s.dimension,
                root: s.root,
                figure: s.figure,
                loadout: loadout_of(s.loadout),
                local_player: s.local_player,
                uid: s.uid,
                region: s.region,
            },
        }
    }
}

/// Whether clients may see the entity of a row: its presence, if it has one, is
/// synchronised, and it is not dead.
pub open spec fn visible(row: MirrorRow) -> bool {
    row.sync_me != Some(false) && !(row.health is Some && row.health->0.is_dead)
}

/// What the mirror of a row shows: the position and the velocity among the axes of the
/// replicated world, standing still and unturned where the entity has no velocity or rotation,
/// its very body, and its health where it has any.
pub open spec fn figure(row: MirrorRow) -> NetFigure {
    NetFigure {
        pos: to_bevy(row.pos),
        ori: match row.ori {
            Some(ori) => ori,
            None => identity(),
        },
        vel: match row.vel {
            Some(vel) => to_bevy(vel),
            None => Vec3Bits { x: 0, y: 0, z: 0 },
        },
        body: row.body,
        health: match row.health {
            Some(health) => Some(NetHealth { current: health.current, max: health.max }),
            None => None,
        },
    }
}

/// The loadout of a row: humanoids have one, whether or not they carry an inventory.
pub open spec fn row_loadout(row: MirrorRow) -> Option<LoadoutModel> {
    if row.humanoid {
        Some(
            match row.gear {
                Some(gear) => gear_loadout(gear, gliding(row.character_state)),
                None => bare_loadout(gliding(row.character_state)),
            },
        )
    } else {
        None
    }
}

/// The dimension of an entity: the decided one, or the default where none was decided.
pub open spec fn dimension_of(dims: Map<u64, DimensionId>, entity: u64) -> DimensionId {
    if dims.contains_key(entity) {
        dims[entity]
    } else {
        default_dimension()
    }
}

/// Decides the dimension of one row. A decided one stands. A new agent takes the next
/// attribution from the queue, which counts only where that dimension admits it; every
/// other new entity belongs to the default dimension.
pub open spec fn attribute(
    row: MirrorRow,
    dims: Map<u64, DimensionId>,
    queue: Seq<DimensionId>,
    table: Map<u64, DimensionState>,
) -> (Map<u64, DimensionId>, Seq<DimensionId>) {
    if !visible(row) || dims.contains_key(row.sim_entity) {
        (dims, queue)
    } else if row.has_agent && queue.len() > 0 {
        let decided = if admits(table, queue[0]) {
            queue[0]
        } else {
            default_dimension()
        };
        (dims.insert(row.sim_entity, decided), queue.drop_first())
    } else {
        (dims.insert(row.sim_entity, default_dimension()), queue)
    }
}

/// Decides the dimensions of all rows, in order.
pub open spec fn attribute_all(
    rows: Seq<MirrorRow>,
    dims: Map<u64, DimensionId>,
    queue: Seq<DimensionId>,
    table: Map<u64, DimensionState>,
) -> (Map<u64, DimensionId>, Seq<DimensionId>)
    decreases rows.len(),
{
    if rows.len() == 0 {
        (dims, queue)
    } else {
        let before = attribute_all(rows.drop_last(), dims, queue, table);
        attribute(rows.last(), before.0, before.1, table)
    }
}

/// The region of a row in a dimension.
pub open spec fn row_region(row: MirrorRow, dimension: DimensionId) -> RegionKey {
    RegionKey { dimension, cell_x: row.cell_x, cell_y: row.cell_y }
}

/// The loadout to write for a row: the row's, where it is not the one written last.
pub open spec fn loadout_write(row: MirrorRow, loadouts: Map<u64, LoadoutModel>) -> Option<
    LoadoutModel,
> {
    match row_loadout(row) {
        Some(loadout) => if is_cached::<NetLoadout>(loadouts, row.sim_entity, loadout) {
            None
        } else {
            Some(loadout)
        },
        None => None,
    }
}

/// What is done for the row at index `i`. A mirrored entity is updated whatever state its
/// dimension is in; another one is created where its dimension admits it, and left alone
/// where that does not.
pub open spec fn row_action(
    i: int,
    row: MirrorRow,
    state: MirrorModel,
    table: Map<u64, DimensionState>,
    player: Option<u64>,
) -> Option<ActionModel> {
    let dimension = dimension_of(state.dims, row.sim_entity);
    let region = row_region(row, dimension);
    if !visible(row) {
        None
    } else if state.mirror.contains_key(row.sim_entity) {
        Some(
            ActionModel::Update {
                row: i,
                entity: state.mirror[row.sim_entity],
                figure: figure(row),
                loadout: loadout_write(row, state.loadouts),
                local_player: player == Some(row.sim_entity),
                uid: row.uid,
                region_write: if state.regions.contains_key(row.sim_entity)
                    && state.regions[row.sim_entity] == region {
                    None
                } else {
                    Some(region)
                },
            },
        )
    } else if admits(table, dimension) {
        Some(
            ActionModel::Spawn {
                row: i,
                sim_entity: row.sim_entity,
                dimension,
                root: table[dimension.0].root,
                figure: figure(row),
                loadout: row_loadout(row),
                local_player: player == Some(row.sim_entity),
                uid: row.uid,
                region,
            },
        )
    } else {
        None
    }
}

/// The caches after a row was acted on: they hold its loadout, if it has one, and its
/// region.
pub open spec fn remember(row: MirrorRow, state: MirrorModel) -> MirrorModel {
    MirrorModel {
        loadouts: match row_loadout(row) {
            Some(loadout) => state.loadouts.insert(row.sim_entity, loadout),
            None => state.loadouts,
        },
        regions: state.regions.insert(
            row.sim_entity,
            row_region(row, dimension_of(state.dims, row.sim_entity)),
        ),
        ..state
    }
}

/// The actions for all rows, in order, and the caches after them.
pub open spec fn plan_all(
    rows: Seq<MirrorRow>,
    state: MirrorModel,
    table: Map<u64, DimensionState>,
    player: Option<u64>,
) -> (Seq<ActionModel>, MirrorModel)
    decreases rows.len(),
{
    if rows.len() == 0 {
        (Seq::empty(), state)
    } else {
        let before = plan_all(rows.drop_last(), state, table, player);
        match row_action(rows.len() - 1, rows.last(), before.1, table, player) {
            Some(action) => (before.0.push(action), remember(rows.last(), before.1)),
            None => before,
        }
    }
}

/// The entities that a pass sees.
pub open spec fn seen(rows: Seq<MirrorRow>) -> Set<u64> {
    Set::new(|e: u64| exists|i: int| 0 <= i < rows.len() && #[trigger] rows[i].sim_entity == e && visible(rows[i]))
}

/// The mirrored entities that a pass does not see.
pub open spec fn stale_set(rows: Seq<MirrorRow>, mirror: Map<u64, u64>) -> Set<u64> {
    mirror.dom().difference(seen(rows))
}

/// Forgets every entity that is not in `shown`, in the mirror, both caches and the decided
/// dimensions, whether or not it had a mirror.
pub open spec fn sweep(state: MirrorModel, shown: Set<u64>) -> MirrorModel {
    MirrorModel {
        mirror: state.mirror.restrict(shown),
        loadouts: state.loadouts.restrict(shown),
        regions: state.regions.restrict(shown),
        dims: state.dims.restrict(shown),
        queue: state.queue,
    }
}

/// The state after the dimensions of all rows are decided.
pub open spec fn attributed(
    rows: Seq<MirrorRow>,
    state: MirrorModel,
    table: Map<u64, DimensionState>,
) -> MirrorModel {
    let decided = attribute_all(rows, state.dims, state.queue, table);
    MirrorModel { dims: decided.0, queue: decided.1, ..state }
}

/// The state after a whole pass; mirrors that it creates are not entered yet.
pub open spec fn after_pass(
    rows: Seq<MirrorRow>,
    state: MirrorModel,
    table: Map<u64, DimensionState>,
    player: Option<u64>,
) -> MirrorModel {
    sweep(plan_all(rows, attributed(rows, state, table), table, player).1, seen(rows))
}

/// No two rows are of one entity.
pub open spec fn distinct(rows: Seq<MirrorRow>) -> bool {
    forall|i: int, j: int|
        #![trigger rows[i], rows[j]]
        0 <= i < j < rows.len() ==> rows[i].sim_entity != rows[j].sim_entity
}

/// Whether a new mirror may be created in a dimension: only in one that is registered and
/// takes new entrants.
pub fn mirror_admits_new_entity(dimension: Option<&DimensionState>) -> (admitted: bool)
    ensures
        admitted == (dimension matches Some(state) && state.admits()),
{
    match dimension {
        Some(state) => state.accepts_new_entrants(),
        None => false,
    }
}

/// Whether clients may see the entity of a row.
pub fn is_visible(row: &MirrorRow) -> (shown: bool)
    ensures
        shown == visible(*row),
{
    let hidden = match row.sync_me {
        Some(sync_me) => !sync_me,
        None => false,
    };
    let dead = match row.health {
        Some(health) => health.is_dead,
        None => false,
    };
    !hidden && !dead
}

/// What the mirror of a row shows.
pub fn project_figure(row: &MirrorRow) -> (shown: NetFigure)
    ensures
        shown == figure(*row),
{
    NetFigure {
        pos: sim_pos_to_bevy(row.pos),
        ori: match row.ori {
            Some(ori) => ori,
            None => QuatBits { x: 0, y: 0, z: 0, w: ONE },
        },
        vel: match row.vel {
            Some(vel) => sim_pos_to_bevy(vel),
            None => Vec3Bits { x: 0, y: 0, z: 0 },
        },
        body: row.body,
        health: match row.health {
            Some(health) => Some(NetHealth { current: health.current, max: health.max }),
            None => None,
        },
    }
}

/// The loadout of a row.
pub fn project_loadout(row: &MirrorRow) -> (loadout: Option<NetLoadout>)
    ensures
        loadout_of(loadout) == row_loadout(*row),
{
    if !row.humanoid {
        return None;
    }
    let glides = is_gliding(row.character_state.as_ref());
    match &row.gear {
        Some(gear) => Some(net_loadout_from_inventory(gear, glides)),
        None => Some(NetLoadout::bare(glides)),
    }
}

/// Decides the dimension of one row.
pub fn attribute_row(
    row: &MirrorRow,
    table: &DimensionTable,
    attribution: &mut PendingDimensionAttribution,
    dims: &mut SimEntityDimension,
)
    ensures
        (final(dims).0@, final(attribution).0@) == attribute(
            *row,
            old(dims).0@,
            old(attribution).0@,
            table@,
        ),
{
    if !is_visible(row) || dims.0.contains_key(&row.sim_entity) {
        return ;
    }
    let mut decided = DimensionId::default_id();
    if row.has_agent {
        if let Some(candidate) = attribution.0.pop_front() {
            assert(attribution.0@ =~= old(attribution).0@.drop_first());
            if table.accepts(candidate) {
                decided = candidate;
            }
        }
    }
    dims.0.insert(row.sim_entity, decided);
}

/// The dimension of an entity: the decided one, or the default where none was decided.
pub fn dimension_for(dims: &SimEntityDimension, entity: u64) -> (dimension: DimensionId)
    ensures
        dimension == dimension_of(dims.0@, entity),
{
    match dims.0.get(&entity) {
        Some(dimension) => *dimension,
        None => DimensionId::default_id(),
    }
}

/// What is done for the row at index `i`; what was written last is brought up to date
/// where anything is done.
pub fn plan_row(
    i: usize,
    row: &MirrorRow,
    player: Option<u64>,
    table: &DimensionTable,
    mirror: &SimMirror,
    dims: &SimEntityDimension,
    loadouts: &mut SimLoadoutCache,
    regions: &mut SimRegionCache,
) -> (action: Option<MirrorAction>)
    ensures
        ({
            let state = MirrorModel {
                mirror: mirror.0@,
                loadouts: old(loadouts).0@,
                regions: old(regions).0@,
                dims: dims.0@,
                queue: Seq::empty(),
            };
            let expected = row_action(i as int, *row, state, table@, player);
            let after = remember(*row, state);
            &&& action is Some <==> expected is Some
            &&& action is Some ==> action->0@ == expected->0
            &&& final(loadouts).0@ == if expected is Some {
                after.loadouts
            } else {
                state.loadouts
            }
            &&& final(regions).0@ == if expected is Some {
                after.regions
            } else {
                state.regions
            }
        }),
{
    if !is_visible(row) {
        return None;
    }
    let dimension = dimension_for(dims, row.sim_entity);
    let region = RegionKey { dimension, cell_x: row.cell_x, cell_y: row.cell_y };
    let figure = project_figure(row);
    let loadout = project_loadout(row);
    let local_player = match player {
        Some(player) => player == row.sim_entity,
        None => false,
    };
    let region_changed = match regions.0.get(&row.sim_entity) {
        Some(cached) => *cached != region,
        None => true,
    };
    let action = match mirror.0.get(&row.sim_entity) {
        Some(entity) => {
            let written = match &loadout {
                Some(loadout) => if loadouts.0.holds(row.sim_entity, loadout) {
                    None
                } else {
                    Some(loadout.duplicate())
                },
                None => None,
            };
            MirrorAction::Update(
                MirrorUpdate {
                    row: i,
                    entity: *entity,
                    figure,
                    loadout: written,
                    local_player,
                    uid: row.uid,
                    region: if region_changed {
                        Some(region)
                    } else {
                        None
                    },
                },
            )
        },
        None => {
            let found = table.get(dimension);
            if !mirror_admits_new_entity(found.as_ref()) {
                return None;
            }
            let root = match found {
                Some(found) => found.root,
                None => {
                    return None;
                },
            };
            let written = match &loadout {
                Some(loadout) => Some(loadout.duplicate()),
                None => None,
            };
            MirrorAction::Spawn(
                MirrorSpawn {
                    row: i,
                    sim_entity: row.sim_entity,
                    dimension,
                    root,
                    figure,
                    loadout: written,
                    local_player,
                    uid: row.uid,
                    region,
                },
            )
        },
    };
    if let Some(loadout) = loadout {
        loadouts.0.put(row.sim_entity, loadout);
    }
    regions.0.insert(row.sim_entity, region);
    Some(action)
}

/// The removal of one mirror from what a pass knows.
pub open spec fn stale_mirror(state: MirrorModel, entity: u64) -> StaleMirror {
    StaleMirror {
        sim_entity: entity,
        entity: state.mirror[entity],
        dimension: dimension_of(state.dims, entity),
    }
}

/// The keys among the first `n` that were not seen.
spec fn unseen(keys: Seq<u64>, n: int, seen: Set<u64>) -> Set<u64> {
    Set::new(|e: u64| keys.take(n).contains(e) && !seen.contains(e))
}

proof fn lemma_unseen_step(keys: Seq<u64>, n: int, seen: Set<u64>)
    requires
        0 <= n < keys.len(),
    ensures
        unseen(keys, n + 1, seen) == if seen.contains(keys[n]) {
            unseen(keys, n, seen)
        } else {
            unseen(keys, n, seen).insert(keys[n])
        },
{
    assert(keys.take(n + 1) =~= keys.take(n).push(keys[n]));
    let expected = if seen.contains(keys[n]) {
        unseen(keys, n, seen)
    } else {
        unseen(keys, n, seen).insert(keys[n])
    };
    assert forall|e: u64| #[trigger] unseen(keys, n + 1, seen).contains(e) <==> expected.contains(e) by {
        if keys.take(n).contains(e) {
            let k = keys.take(n).index_of(e);
            assert(keys.take(n + 1)[k] == e);
        }
        assert(keys.take(n + 1)[n] == keys[n]);
    }
    assert(unseen(keys, n + 1, seen) =~= expected);
}

/// Removes every mirror whose entity was not seen, and forgets all that is remembered of
/// entities that were not seen, those without a mirror too.
pub fn sweep_stale(
    seen: &HashSet<u64>,
    mirror: &mut SimMirror,
    loadouts: &mut SimLoadoutCache,
    regions: &mut SimRegionCache,
    dims: &mut SimEntityDimension,
) -> (stale: Vec<StaleMirror>)
    ensures
        ({
            let state = MirrorModel {
                mirror: old(mirror).0@,
                loadouts: old(loadouts).0@,
                regions: old(regions).0@,
                dims: old(dims).0@,
                queue: Seq::empty(),
            };
            let after = sweep(state, seen@);
            &&& final(mirror).0@ == after.mirror
            &&& final(loadouts).0@ == after.loadouts
            &&& final(regions).0@ == after.regions
            &&& final(dims).0@ == after.dims
            &&& lists_stale(stale@, state, state.mirror.dom().difference(seen@))
        }),
{
    let keys = keys_of(&mirror.0);
    let ghost state = MirrorModel {
        mirror: mirror.0@,
        loadouts: loadouts.0@,
        regions: regions.0@,
        dims: dims.0@,
        queue: Seq::empty(),
    };
    let mut stale: Vec<StaleMirror> = Vec::new();
    let mut i: usize = 0;
    assert(unseen(keys@, 0, seen@) =~= Set::empty());
    while i < keys.len()
        invariant
            i <= keys.len(),
            keys@.no_duplicates(),
            keys@.to_set() == state.mirror.dom(),
            mirror.0@ == state.mirror,
            dims.0@ == state.dims,
            lists_stale(stale@, state, unseen(keys@, i as int, seen@)),
        decreases keys.len() - i,
    {
        let sim_entity = keys[i];
        let ghost before = unseen(keys@, i as int, seen@);
        let ghost listed = stale@;
        proof {
            lemma_unseen_step(keys@, i as int, seen@);
            assert(!before.contains(sim_entity)) by {
                if keys@.take(i as int).contains(sim_entity) {
                    let k = keys@.take(i as int).index_of(sim_entity);
                    assert(keys@[k] == keys@[i as int]);
                }
            }
            assert(keys@.to_set().contains(sim_entity));
        }
        if !seen.contains(&sim_entity) {
            let dimension = dimension_for(dims, sim_entity);
            if let Some(entity) = mirror.0.get(&sim_entity) {
                stale.push(StaleMirror { sim_entity, entity: *entity, dimension });
            }
            proof {
                assert(stale@ == listed.push(stale_mirror(state, sim_entity)));
                lemma_lists_push(listed, state, before, sim_entity);
            }
        }
        i += 1;
    }
    proof {
        assert(keys@.take(i as int) =~= keys@);
        assert forall|e: u64| keys@.contains(e) <==> state.mirror.contains_key(e) by {
            assert(keys@.to_set().contains(e) <==> keys@.contains(e));
        }
        assert(unseen(keys@, i as int, seen@) =~= state.mirror.dom().difference(seen@));
    }
    keep_only(&mut mirror.0, seen);
    loadouts.0.keep_only(seen);
    keep_only(&mut regions.0, seen);
    keep_only(&mut dims.0, seen);
    stale
}

/// The list holds the removal of each entity of `gone`, and nothing else, each once.
pub open spec fn lists_stale(stale: Seq<StaleMirror>, state: MirrorModel, gone: Set<u64>) -> bool {
    &&& forall|k: int|
        0 <= k < stale.len() ==> gone.contains(#[trigger] stale[k].sim_entity) && stale[k]
            == stale_mirror(state, stale[k].sim_entity)
    &&& forall|e: u64|
        #![trigger gone.contains(e)]
        gone.contains(e) ==> exists|k: int| 0 <= k < stale.len() && #[trigger] stale[k].sim_entity == e
    &&& forall|j: int, k: int|
        #![trigger stale[j], stale[k]]
        0 <= j < k < stale.len() ==> stale[j].sim_entity != stale[k].sim_entity
}

proof fn lemma_lists_push(stale: Seq<StaleMirror>, state: MirrorModel, gone: Set<u64>, entity: u64)
    requires
        lists_stale(stale, state, gone),
        !gone.contains(entity),
    ensures
        lists_stale(stale.push(stale_mirror(state, entity)), state, gone.insert(entity)),
{
    let after = stale.push(stale_mirror(state, entity));
    assert forall|e: u64| gone.insert(entity).contains(e) implies exists|k: int|
        0 <= k < after.len() && #[trigger] after[k].sim_entity == e by {
        if e == entity {
            assert(after[stale.len() as int].sim_entity == e);
        } else {
            assert(gone.contains(e));
            let k = choose|k: int| 0 <= k < stale.len() && #[trigger] stale[k].sim_entity == e;
            assert(after[k].sim_entity == e);
        }
    }
    assert forall|j: int, k: int|
        #![trigger after[j], after[k]]
        0 <= j < k < after.len() implies after[j].sim_entity != after[k].sim_entity by {
        assert(gone.contains(stale[j].sim_entity));
    }
}

/// The models of a list of actions.
pub open spec fn actions_of(actions: Seq<MirrorAction>) -> Seq<ActionModel> {
    actions.map_values(|action: MirrorAction| action@)
}

/// One pass over everything that the simulation would show: decides dimensions, plans what
/// is written to each mirror and which mirrors are created, and drops those whose entity is
/// gone. A created mirror is entered with [`record_spawned`] once it has an identifier.
pub fn mirror_sim_entities(
    rows: &Vec<MirrorRow>,
    player: Option<u64>,
    table: &DimensionTable,
    mirror: &mut SimMirror,
    loadouts: &mut SimLoadoutCache,
    regions: &mut SimRegionCache,
    attribution: &mut PendingDimensionAttribution,
    dims: &mut SimEntityDimension,
) -> (plan: MirrorPlan)
    ensures
        ({
            let state = MirrorModel {
                mirror: old(mirror).0@,
                loadouts: old(loadouts).0@,
                regions: old(regions).0@,
                dims: old(dims).0@,
                queue: old(attribution).0@,
            };
            let planned = plan_all(rows@, attributed(rows@, state, table@), table@, player);
            let after = after_pass(rows@, state, table@, player);
            &&& actions_of(plan.actions@) == planned.0
            &&& lists_stale(plan.stale@, planned.1, stale_set(rows@, state.mirror))
            &&& final(mirror).0@ == after.mirror
            &&& final(loadouts).0@ == after.loadouts
            &&& final(regions).0@ == after.regions
            &&& final(dims).0@ == after.dims
            &&& final(attribution).0@ == after.queue
        }),
{
    let ghost state = MirrorModel {
        mirror: mirror.0@,
        loadouts: loadouts.0@,
        regions: regions.0@,
        dims: dims.0@,
        queue: attribution.0@,
    };
    let mut shown: HashSet<u64> = HashSet::new();
    let mut i: usize = 0;
    assert(shown@ =~= seen(rows@.take(0)));
    while i < rows.len()
        invariant
            i <= rows.len(),
            shown@ == seen(rows@.take(i as int)),
            (dims.0@, attribution.0@) == attribute_all(
                rows@.take(i as int),
                state.dims,
                state.queue,
                table@,
            ),
        decreases rows.len() - i,
    {
        proof {
            lemma_take_step(rows@, i as int);
            lemma_seen_step(rows@, i as int);
        }
        if is_visible(&rows[i]) {
            shown.insert(rows[i].sim_entity);
        }
        attribute_row(&rows[i], table, attribution, dims);
        i += 1;
    }
    assert(rows@.take(i as int) =~= rows@);
    let ghost decided = attributed(rows@, state, table@);
    let mut actions: Vec<MirrorAction> = Vec::new();
    let mut j: usize = 0;
    assert(actions_of(actions@) =~= Seq::<ActionModel>::empty());
    while j < rows.len()
        invariant
            j <= rows.len(),
            mirror.0@ == decided.mirror,
            dims.0@ == decided.dims,
            decided.queue == attribution.0@,
            actions_of(actions@) == plan_all(rows@.take(j as int), decided, table@, player).0,
            plan_all(rows@.take(j as int), decided, table@, player).1 == (MirrorModel {
                loadouts: loadouts.0@,
                regions: regions.0@,
                ..decided
            }),
        decreases rows.len() - j,
    {
        let ghost before = actions@;
        proof {
            lemma_take_step(rows@, j as int);
        }
        if let Some(action) = plan_row(j, &rows[j], player, table, mirror, dims, loadouts, regions) {
            actions.push(action);
            assert(actions_of(actions@) =~= actions_of(before).push(action@));
        }
        j += 1;
    }
    assert(rows@.take(j as int) =~= rows@);
    let ghost planned = plan_all(rows@, decided, table@, player).1;
    let stale = sweep_stale(&shown, mirror, loadouts, regions, dims);
    proof {
        assert(stale_set(rows@, state.mirror) =~= decided.mirror.dom().difference(shown@));
        assert(forall|e: u64|
            stale_mirror(planned, e) == stale_mirror(
                MirrorModel { queue: Seq::empty(), ..planned },
                e,
            ));
    }
    MirrorPlan { actions, stale }
}

proof fn lemma_take_step(rows: Seq<MirrorRow>, n: int)
    requires
        0 <= n < rows.len(),
    ensures
        rows.take(n + 1).drop_last() == rows.take(n),
        rows.take(n + 1).last() == rows[n],
        rows.take(n + 1).len() == n + 1,
{
    assert(rows.take(n + 1).drop_last() =~= rows.take(n));
}

proof fn lemma_seen_step(rows: Seq<MirrorRow>, n: int)
    requires
        0 <= n < rows.len(),
    ensures
        seen(rows.take(n + 1)) == if visible(rows[n]) {
            seen(rows.take(n)).insert(rows[n].sim_entity)
        } else {
            seen(rows.take(n))
        },
{
    let expected = if visible(rows[n]) {
        seen(rows.take(n)).insert(rows[n].sim_entity)
    } else {
        seen(rows.take(n))
    };
    assert forall|e: u64| #[trigger] seen(rows.take(n + 1)).contains(e) <==> expected.contains(e) by {
        if seen(rows.take(n)).contains(e) {
            let k = choose|k: int|
                0 <= k < n && #[trigger] rows.take(n)[k].sim_entity == e && visible(rows.take(n)[k]);
            assert(rows.take(n + 1)[k].sim_entity == e);
        }
        if seen(rows.take(n + 1)).contains(e) {
            let k = choose|k: int|
                0 <= k < n + 1 && #[trigger] rows.take(n + 1)[k].sim_entity == e && visible(
                    rows.take(n + 1)[k],
                );
            if k < n {
                assert(rows.take(n)[k].sim_entity == e);
            }
        }
        assert(rows.take(n + 1)[n] == rows[n]);
    }
    assert(seen(rows.take(n + 1)) =~= expected);
}

/// Enters a created mirror, in the dimension that it was planned for.
pub fn record_spawned(mirror: &mut SimMirror, spawn: &MirrorSpawn, entity: u64)
    ensures
        final(mirror).0@ == old(mirror).0@.insert(spawn.sim_entity, entity),
{
    mirror.0.insert(spawn.sim_entity, entity);
}

} // verus!
