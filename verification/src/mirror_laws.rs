//! What holds of every mirror pass.

use crate::axes::{law_points_are_turned, turned};
use crate::ids::{admits, default_dimension, DimensionId, DimensionState};
use crate::loadout::{EquippedItem, ItemDefinition, LoadoutModel, ToolKeyModel, ToolModel};
use crate::mirror::{
    after_pass, attribute, attribute_all, attributed, dimension_of, distinct, figure, lists_stale,
    plan_all, row_action, row_loadout, row_region, seen, stale_set, visible, ActionModel,
    MirrorModel, MirrorRow, NetFigure, StaleMirror,
};
use vstd::prelude::*;

verus! {

/// The entities that a list of actions creates mirrors for.
pub open spec fn spawned(actions: Seq<ActionModel>) -> Set<u64> {
    Set::new(
        |e: u64|
            exists|k: int|
                0 <= k < actions.len() && #[trigger] actions[k] is Spawn
                    && actions[k]->Spawn_sim_entity == e,
    )
}

/// The row that an action was planned for.
pub open spec fn row_of(action: ActionModel) -> int {
    match action {
        ActionModel::Update { row, .. } => row,
        ActionModel::Spawn { row, .. } => row,
    }
}

/// Whether some row is of `entity`.
pub open spec fn has_row(rows: Seq<MirrorRow>, entity: u64) -> bool {
    exists|i: int| 0 <= i < rows.len() && (#[trigger] rows[i]).sim_entity == entity
}

/// Planning leaves the mirror, the decided dimensions and the queue as they are, and what
/// is remembered of entities without a row.
proof fn lemma_plan_frame(
    rows: Seq<MirrorRow>,
    state: MirrorModel,
    table: Map<u64, DimensionState>,
    player: Option<u64>,
)
    ensures
        ({
            let after = plan_all(rows, state, table, player).1;
            &&& after.mirror == state.mirror
            &&& after.dims == state.dims
            &&& after.queue == state.queue
            &&& forall|e: u64|
                !#[trigger] has_row(rows, e) ==> {
                    &&& after.loadouts.contains_key(e) == state.loadouts.contains_key(e)
                    &&& after.loadouts[e] == state.loadouts[e]
                    &&& after.regions.contains_key(e) == state.regions.contains_key(e)
                    &&& after.regions[e] == state.regions[e]
                }
        }),
    decreases rows.len(),
{
    if rows.len() > 0 {
        let init = rows.drop_last();
        lemma_plan_frame(init, state, table, player);
        assert forall|e: u64| !#[trigger] has_row(rows, e) implies !has_row(init, e) by {
            if has_row(init, e) {
                let i = choose|i: int| 0 <= i < init.len() && (#[trigger] init[i]).sim_entity == e;
                assert(rows[i].sim_entity == e);
            }
        }
        assert forall|e: u64| !#[trigger] has_row(rows, e) implies rows.last().sim_entity != e by {
            assert(rows[rows.len() - 1] == rows.last());
        }
    }
}

/// Each action is the one of its row, decided as if that row stood alone, and each row that
/// calls for an action has one.
proof fn lemma_plan_rows(
    rows: Seq<MirrorRow>,
    state: MirrorModel,
    table: Map<u64, DimensionState>,
    player: Option<u64>,
)
    requires
        distinct(rows),
    ensures
        ({
            let planned = plan_all(rows, state, table, player);
            &&& forall|k: int|
                0 <= k < planned.0.len() ==> {
                    let i = row_of(#[trigger] planned.0[k]);
                    &&& 0 <= i < rows.len()
                    &&& row_action(i, rows[i], state, table, player) == Some(planned.0[k])
                }
            &&& forall|i: int|
                0 <= i < rows.len() && row_action(i, #[trigger] rows[i], state, table, player) is Some
                    ==> planned.0.contains(row_action(i, rows[i], state, table, player)->0)
            &&& forall|i: int|
                0 <= i < rows.len() && row_action(i, #[trigger] rows[i], state, table, player) is Some
                    ==> {
                    let e = rows[i].sim_entity;
                    &&& planned.1.regions.contains_key(e)
                    &&& planned.1.regions[e] == row_region(rows[i], dimension_of(state.dims, e))
                    &&& row_loadout(rows[i]) is Some ==> planned.1.loadouts.contains_key(e)
                        && planned.1.loadouts[e] == row_loadout(rows[i])->0
                }
        }),
    decreases rows.len(),
{
    if rows.len() > 0 {
        let init = rows.drop_last();
        let n = rows.len() - 1;
        let last = rows.last();
        assert(distinct(init)) by {
            assert forall|i: int, j: int|
                #![trigger init[i], init[j]]
                0 <= i < j < init.len() implies init[i].sim_entity != init[j].sim_entity by {
                assert(rows[i].sim_entity != rows[j].sim_entity);
            }
        }
        lemma_plan_rows(init, state, table, player);
        lemma_plan_frame(init, state, table, player);
        let before = plan_all(init, state, table, player);
        let planned = plan_all(rows, state, table, player);
        assert(!has_row(init, last.sim_entity)) by {
            if has_row(init, last.sim_entity) {
                let i = choose|i: int|
                    0 <= i < init.len() && (#[trigger] init[i]).sim_entity == last.sim_entity;
                assert(rows[i].sim_entity != rows[n].sim_entity);
            }
        }
        assert(row_action(n, last, before.1, table, player) == row_action(
            n,
            last,
            state,
            table,
            player,
        ));
        assert forall|k: int| 0 <= k < planned.0.len() implies {
            let i = row_of(#[trigger] planned.0[k]);
            &&& 0 <= i < rows.len()
            &&& row_action(i, rows[i], state, table, player) == Some(planned.0[k])
        } by {
            if k < before.0.len() {
                let i = row_of(before.0[k]);
                assert(planned.0[k] == before.0[k]);
                assert(init[i] == rows[i]);
            }
        }
        assert forall|i: int|
            0 <= i < rows.len() && row_action(
                i,
                #[trigger] rows[i],
                state,
                table,
                player,
            ) is Some implies planned.0.contains(
            row_action(i, rows[i], state, table, player)->0,
        ) by {
            let action = row_action(i, rows[i], state, table, player)->0;
            if i < n {
                assert(init[i] == rows[i]);
                let k = before.0.index_of(action);
                assert(planned.0[k] == action);
            } else {
                assert(planned.0[before.0.len() as int] == action);
            }
        }
        assert forall|i: int|
            0 <= i < rows.len() && row_action(
                i,
                #[trigger] rows[i],
                state,
                table,
                player,
            ) is Some implies {
            let e = rows[i].sim_entity;
            &&& planned.1.regions.contains_key(e)
            &&& planned.1.regions[e] == row_region(rows[i], dimension_of(state.dims, e))
            &&& row_loadout(rows[i]) is Some ==> planned.1.loadouts.contains_key(e)
                && planned.1.loadouts[e] == row_loadout(rows[i])->0
        } by {
            if i < n {
                assert(init[i] == rows[i]);
                assert(rows[i].sim_entity != rows[n].sim_entity);
            }
        }
    }
}

/// A decided dimension stands: deciding on more rows does not revisit it, whatever became of
/// that dimension and whatever waits in the queue.
pub proof fn law_decided_dimension_stands(
    rows: Seq<MirrorRow>,
    dims: Map<u64, DimensionId>,
    queue: Seq<DimensionId>,
    table: Map<u64, DimensionState>,
    entity: u64,
)
    requires
        dims.contains_key(entity),
    ensures
        attribute_all(rows, dims, queue, table).0.contains_key(entity),
        attribute_all(rows, dims, queue, table).0[entity] == dims[entity],
    decreases rows.len(),
{
    if rows.len() > 0 {
        law_decided_dimension_stands(rows.drop_last(), dims, queue, table, entity);
    }
}

/// Every entity that a pass sees has a dimension afterwards.
pub proof fn law_seen_entity_has_dimension(
    rows: Seq<MirrorRow>,
    dims: Map<u64, DimensionId>,
    queue: Seq<DimensionId>,
    table: Map<u64, DimensionState>,
    entity: u64,
)
    requires
        seen(rows).contains(entity),
    ensures
        attribute_all(rows, dims, queue, table).0.contains_key(entity),
    decreases rows.len(),
{
    let i = choose|i: int|
        0 <= i < rows.len() && #[trigger] rows[i].sim_entity == entity && visible(rows[i]);
    if i < rows.len() - 1 {
        let init = rows.drop_last();
        assert(init[i].sim_entity == entity);
        law_seen_entity_has_dimension(init, dims, queue, table, entity);
    }
}

/// Attributions are used up from the front of the queue and none is skipped, and an entity
/// whose dimension a pass decides lands in the default dimension or in one that the queue
/// asked for and that admits it.
pub proof fn law_attribution_consumes_front(
    rows: Seq<MirrorRow>,
    dims: Map<u64, DimensionId>,
    queue: Seq<DimensionId>,
    table: Map<u64, DimensionState>,
) -> (used: int)
    ensures
        0 <= used <= queue.len(),
        attribute_all(rows, dims, queue, table).1 == queue.skip(used),
        forall|e: u64|
            #[trigger] attribute_all(rows, dims, queue, table).0.contains_key(e)
                && !dims.contains_key(e) ==> {
                let decided = attribute_all(rows, dims, queue, table).0[e];
                decided == default_dimension() || (queue.take(used).contains(decided) && admits(
                    table,
                    decided,
                ))
            },
    decreases rows.len(),
{
    if rows.len() == 0 {
        assert(queue.skip(0) =~= queue);
        0
    } else {
        let init = rows.drop_last();
        let used = law_attribution_consumes_front(init, dims, queue, table);
        let before = attribute_all(init, dims, queue, table);
        let last = rows.last();
        let pops = visible(last) && !before.0.contains_key(last.sim_entity) && last.has_agent
            && before.1.len() > 0;
        let now = if pops {
            used + 1
        } else {
            used
        };
        if pops {
            assert(before.1.drop_first() =~= queue.skip(used + 1));
            assert(before.1[0] == queue[used]);
            assert(queue.take(used + 1)[used] == queue[used]);
        }
        assert forall|e: u64|
            #[trigger] attribute_all(rows, dims, queue, table).0.contains_key(e)
                && !dims.contains_key(e) implies {
            let decided = attribute_all(rows, dims, queue, table).0[e];
            decided == default_dimension() || (queue.take(now).contains(decided) && admits(
                table,
                decided,
            ))
        } by {
            if before.0.contains_key(e) {
                let decided = before.0[e];
                if queue.take(used).contains(decided) {
                    let k = queue.take(used).index_of(decided);
                    assert(queue.take(now)[k] == decided);
                }
            }
        }
        now
    }
}

/// An entity without an agent never uses up an attribution: the dimension decided for it is
/// the default one.
pub proof fn law_only_agents_are_attributed(
    row: MirrorRow,
    dims: Map<u64, DimensionId>,
    queue: Seq<DimensionId>,
    table: Map<u64, DimensionState>,
)
    requires
        visible(row),
        !row.has_agent,
        !dims.contains_key(row.sim_entity),
    ensures
        attribute(row, dims, queue, table).0[row.sim_entity] == default_dimension(),
        attribute(row, dims, queue, table).1 == queue,
{
}

/// After a pass, exactly those entities are mirrored or about to be that the pass sees and
/// that were mirrored before or whose dimension admits new entrants.
pub proof fn law_mirrored_after_pass(
    rows: Seq<MirrorRow>,
    state: MirrorModel,
    table: Map<u64, DimensionState>,
    player: Option<u64>,
    entity: u64,
)
    requires
        distinct(rows),
    ensures
        ({
            let decided = attributed(rows, state, table);
            let planned = plan_all(rows, decided, table, player);
            let kept = after_pass(rows, state, table, player).mirror;
            (kept.contains_key(entity) || spawned(planned.0).contains(entity)) <==> (seen(
                rows,
            ).contains(entity) && (state.mirror.contains_key(entity) || admits(
                table,
                dimension_of(decided.dims, entity),
            )))
        }),
{
    let decided = attributed(rows, state, table);
    let planned = plan_all(rows, decided, table, player);
    lemma_plan_rows(rows, decided, table, player);
    lemma_plan_frame(rows, decided, table, player);
    if spawned(planned.0).contains(entity) {
        let k = choose|k: int|
            0 <= k < planned.0.len() && #[trigger] planned.0[k] is Spawn
                && planned.0[k]->Spawn_sim_entity == entity;
        let i = row_of(planned.0[k]);
        assert(rows[i].sim_entity == entity);
    }
    if seen(rows).contains(entity) && !state.mirror.contains_key(entity) && admits(
        table,
        dimension_of(decided.dims, entity),
    ) {
        let i = choose|i: int|
            0 <= i < rows.len() && #[trigger] rows[i].sim_entity == entity && visible(rows[i]);
        let action = row_action(i, rows[i], decided, table, player);
        assert(action is Some);
        let k = planned.0.index_of(action->0);
        assert(planned.0[k] is Spawn);
    }
}

/// A new mirror is only ever created in an active dimension, under that dimension's root.
pub proof fn law_spawns_only_in_active_dimensions(
    rows: Seq<MirrorRow>,
    state: MirrorModel,
    table: Map<u64, DimensionState>,
    player: Option<u64>,
    k: int,
)
    requires
        distinct(rows),
        0 <= k < plan_all(rows, state, table, player).0.len(),
        plan_all(rows, state, table, player).0[k] is Spawn,
    ensures
        ({
            let spawn = plan_all(rows, state, table, player).0[k];
            &&& admits(table, spawn->Spawn_dimension)
            &&& spawn->Spawn_root == table[spawn->Spawn_dimension.0].root
            &&& spawn->Spawn_dimension == dimension_of(state.dims, spawn->Spawn_sim_entity)
            &&& !state.mirror.contains_key(spawn->Spawn_sim_entity)
        }),
{
    lemma_plan_rows(rows, state, table, player);
}

/// A mirrored entity that is seen is updated whatever state its dimension is in.
pub proof fn law_mirrored_entity_is_always_updated(
    rows: Seq<MirrorRow>,
    state: MirrorModel,
    table: Map<u64, DimensionState>,
    player: Option<u64>,
    i: int,
)
    requires
        distinct(rows),
        0 <= i < rows.len(),
        visible(rows[i]),
        state.mirror.contains_key(rows[i].sim_entity),
    ensures
        exists|k: int|
            0 <= k < plan_all(rows, state, table, player).0.len() && {
                let action = #[trigger] plan_all(rows, state, table, player).0[k];
                action is Update && action->Update_row == i && action->Update_entity
                    == state.mirror[rows[i].sim_entity]
            },
{
    lemma_plan_rows(rows, state, table, player);
    let planned = plan_all(rows, state, table, player).0;
    let action = row_action(i, rows[i], state, table, player)->0;
    let k = planned.index_of(action);
    assert(planned[k] == action);
}

/// Whatever region is written for an entity lies in that entity's dimension.
pub proof fn law_region_lies_in_dimension(
    rows: Seq<MirrorRow>,
    state: MirrorModel,
    table: Map<u64, DimensionState>,
    player: Option<u64>,
    k: int,
)
    requires
        distinct(rows),
        0 <= k < plan_all(rows, state, table, player).0.len(),
    ensures
        match plan_all(rows, state, table, player).0[k] {
            ActionModel::Spawn { dimension, region, .. } => region.dimension == dimension,
            ActionModel::Update { row, region_write, .. } => region_write is Some
                ==> region_write->0.dimension == dimension_of(state.dims, rows[row].sim_entity),
        },
{
    lemma_plan_rows(rows, state, table, player);
}

/// The mark of the local player is on the mirror of the player's entity and on no other.
pub proof fn law_one_local_player(
    rows: Seq<MirrorRow>,
    state: MirrorModel,
    table: Map<u64, DimensionState>,
    player: Option<u64>,
    k: int,
)
    requires
        distinct(rows),
        0 <= k < plan_all(rows, state, table, player).0.len(),
    ensures
        match plan_all(rows, state, table, player).0[k] {
            ActionModel::Spawn { row, local_player, .. } => local_player <==> player == Some(
                rows[row].sim_entity,
            ),
            ActionModel::Update { row, local_player, .. } => local_player <==> player == Some(
                rows[row].sim_entity,
            ),
        },
{
    lemma_plan_rows(rows, state, table, player);
}

/// Whether a figure shows the entity of a row: its position and velocity along the axes of the
/// clients, at rest where it has no velocity and upright where it has no orientation, its body,
/// and its own health where it has any.
pub open spec fn shows_entity(shown: NetFigure, row: MirrorRow) -> bool {
    &&& turned(shown.pos, row.pos)
    &&& row.vel is Some ==> turned(shown.vel, row.vel->0)
    &&& row.vel is None ==> shown.vel.x == 0 && shown.vel.y == 0 && shown.vel.z == 0
    &&& row.ori is Some ==> shown.ori == row.ori->0
    &&& row.ori is None ==> shown.ori.x == 0 && shown.ori.y == 0 && shown.ori.z == 0 && shown.ori.w
        == 0x3f80_0000u32
    &&& shown.body == row.body
    &&& shown.health is Some <==> row.health is Some
    &&& row.health is Some ==> shown.health->0.current == row.health->0.current
        && shown.health->0.max == row.health->0.max
}

/// Every mirror that a pass writes to or creates shows its own entity: where it is and how it
/// moves and turns, its body and its health, and its identifier where it has one. The row of
/// that entity is neither hidden nor dead.
pub proof fn law_mirror_shows_its_entity(
    rows: Seq<MirrorRow>,
    state: MirrorModel,
    table: Map<u64, DimensionState>,
    player: Option<u64>,
    k: int,
)
    requires
        0 <= k < plan_all(rows, state, table, player).0.len(),
    ensures
        ({
            let action = plan_all(rows, state, table, player).0[k];
            let row = rows[row_of(action)];
            &&& 0 <= row_of(action) < rows.len()
            &&& row.sync_me != Some(false)
            &&& row.health is Some ==> !row.health->0.is_dead
            &&& match action {
                ActionModel::Spawn { sim_entity, figure: shown, uid, .. } => row.sim_entity
                    == sim_entity && shown == figure(row) && shows_entity(shown, row) && uid
                    == row.uid,
                ActionModel::Update { entity, figure: shown, uid, .. } => state.mirror.contains_key(
                    row.sim_entity,
                ) && entity == state.mirror[row.sim_entity] && shown == figure(row) && shows_entity(
                    shown,
                    row,
                ) && uid == row.uid,
            }
        }),
    decreases rows.len(),
{
    let init = rows.drop_last();
    let before = plan_all(init, state, table, player);
    lemma_plan_frame(init, state, table, player);
    if k < before.0.len() {
        law_mirror_shows_its_entity(init, state, table, player, k);
        assert(init[row_of(before.0[k])] == rows[row_of(before.0[k])]);
        assert(plan_all(rows, state, table, player).0[k] == before.0[k]);
    } else {
        let row = rows.last();
        law_points_are_turned(row.pos);
        if let Some(vel) = row.vel {
            law_points_are_turned(vel);
        }
    }
}

/// A row calls for an action exactly where its entity is neither hidden nor dead and is
/// mirrored already or may enter its dimension; a mirror that exists is updated and any other
/// is created, and no row is acted on twice.
pub proof fn law_every_visible_row_is_acted_on(
    rows: Seq<MirrorRow>,
    state: MirrorModel,
    table: Map<u64, DimensionState>,
    player: Option<u64>,
    i: int,
)
    requires
        distinct(rows),
        0 <= i < rows.len(),
    ensures
        ({
            let actions = plan_all(rows, state, table, player).0;
            let row = rows[i];
            let shown = row.sync_me != Some(false) && (row.health is Some
                ==> !row.health->0.is_dead);
            let home = if state.dims.contains_key(row.sim_entity) {
                state.dims[row.sim_entity].0
            } else {
                0
            };
            let open = table.contains_key(home) && table[home].lifecycle is Active;
            let mirrored = state.mirror.contains_key(row.sim_entity);
            &&& (exists|k: int| 0 <= k < actions.len() && row_of(#[trigger] actions[k]) == i)
                <==> shown && (mirrored || open)
            &&& forall|k: int|
                0 <= k < actions.len() && row_of(#[trigger] actions[k]) == i ==> (actions[k]
                    is Update <==> mirrored)
            &&& forall|j: int, k: int|
                0 <= j < k < actions.len() ==> row_of(#[trigger] actions[j]) < row_of(
                    #[trigger] actions[k],
                )
        }),
{
    lemma_plan_rows(rows, state, table, player);
    lemma_plan_order(rows, state, table, player);
    let actions = plan_all(rows, state, table, player).0;
    if let Some(action) = row_action(i, rows[i], state, table, player) {
        let k = actions.index_of(action);
        assert(row_of(actions[k]) == i);
    }
}

proof fn lemma_plan_order(
    rows: Seq<MirrorRow>,
    state: MirrorModel,
    table: Map<u64, DimensionState>,
    player: Option<u64>,
)
    ensures
        ({
            let actions = plan_all(rows, state, table, player).0;
            &&& forall|k: int| 0 <= k < actions.len() ==> row_of(#[trigger] actions[k]) < rows.len()
            &&& forall|j: int, k: int|
                0 <= j < k < actions.len() ==> row_of(#[trigger] actions[j]) < row_of(
                    #[trigger] actions[k],
                )
        }),
    decreases rows.len(),
{
    if rows.len() > 0 {
        lemma_plan_order(rows.drop_last(), state, table, player);
        let before = plan_all(rows.drop_last(), state, table, player);
        let actions = plan_all(rows, state, table, player).0;
        if let Some(action) = row_action(rows.len() - 1, rows.last(), before.1, table, player) {
            assert(actions == before.0.push(action));
            assert(row_of(action) == rows.len() - 1);
        } else {
            assert(actions == before.0);
        }
    }
}

/// Whether a slot of a loadout names the item that is worn there.
pub open spec fn names_item(shown: Option<Seq<char>>, worn: Option<EquippedItem>) -> bool {
    &&& shown is Some <==> worn is Some
    &&& worn is Some ==> match worn->0.definition {
        ItemDefinition::Simple(id) => shown->0 == id@,
        ItemDefinition::Compound { simple_base } => shown->0 == simple_base@,
        ItemDefinition::Modular { pseudo_base, .. } => shown->0 == pseudo_base@,
    }
}

/// Whether a hand of a loadout shows the tool that is held in it: its kind and the hands that it
/// takes, under the key that its pieces have where it was put together from pieces, and else
/// under the name of the item. An item that is no tool is not shown in a hand.
pub open spec fn shows_tool(shown: Option<ToolModel>, held: Option<EquippedItem>) -> bool {
    &&& shown is Some <==> held is Some && held->0.tool is Some
    &&& shown is Some ==> {
        &&& shown->0.kind == held->0.tool->0.kind
        &&& shown->0.hands == held->0.tool->0.hands
        &&& match held->0.definition {
            ItemDefinition::Modular { weapon_key, .. } => shown->0.key == ToolKeyModel::Modular {
                primary: weapon_key.primary@,
                secondary: weapon_key.secondary@,
                hands: weapon_key.hands,
            },
            _ => shown->0.key is Tool && names_item(Some(shown->0.key->Tool_0), held),
        }
    }
}

/// Whether a loadout shows what the entity of a row wears: each slot the item in the place that
/// it stands for, nothing at all without gear, and the glider out exactly where the character
/// has it out.
pub open spec fn shows_gear(shown: LoadoutModel, row: MirrorRow) -> bool {
    &&& shown.gliding <==> row.character_state is Some && row.character_state->0.glide_wielded
    &&& row.gear is Some ==> {
        let gear = row.gear->0;
        &&& shows_tool(shown.active_tool, gear.active_mainhand)
        &&& shows_tool(shown.second_tool, gear.active_offhand)
        &&& names_item(shown.chest, gear.chest)
        &&& names_item(shown.belt, gear.belt)
        &&& names_item(shown.back, gear.back)
        &&& names_item(shown.pants, gear.legs)
        &&& names_item(shown.shoulder, gear.shoulders)
        &&& names_item(shown.hand, gear.hands)
        &&& names_item(shown.foot, gear.feet)
        &&& names_item(shown.lantern, gear.lantern)
        &&& names_item(shown.head, gear.head)
        &&& names_item(shown.glider, gear.glider)
    }
    &&& row.gear is None ==> {
        &&& shown.active_tool is None
        &&& shown.second_tool is None
        &&& shown.chest is None
        &&& shown.belt is None
        &&& shown.back is None
        &&& shown.pants is None
        &&& shown.shoulder is None
        &&& shown.hand is None
        &&& shown.foot is None
        &&& shown.lantern is None
        &&& shown.head is None
        &&& shown.glider is None
    }
}

/// A loadout is written for humanoids alone, and shows what they wear. A new mirror of one gets
/// it with its creation; one that exists gets it unless the one it got last is the same, and
/// what it got last is what it is remembered to have. The region that a mirror lies in is told
/// in the same way, and is the cell of its row.
pub proof fn law_mirror_wears_its_gear(
    rows: Seq<MirrorRow>,
    state: MirrorModel,
    table: Map<u64, DimensionState>,
    player: Option<u64>,
    k: int,
)
    requires
        distinct(rows),
        0 <= k < plan_all(rows, state, table, player).0.len(),
    ensures
        ({
            let (actions, after) = plan_all(rows, state, table, player);
            let row = rows[row_of(actions[k])];
            let e = row.sim_entity;
            let (loadout, region) = match actions[k] {
                ActionModel::Spawn { loadout, region, .. } => (loadout, Some(region)),
                ActionModel::Update { loadout, region_write, .. } => (loadout, region_write),
            };
            &&& loadout is Some ==> row.humanoid && shows_gear(loadout->0, row)
            &&& row.humanoid ==> after.loadouts.contains_key(e) && shows_gear(
                after.loadouts[e],
                row,
            )
            &&& row.humanoid && actions[k] is Spawn ==> loadout is Some
            &&& row.humanoid && actions[k] is Update ==> (loadout is None <==> (
            state.loadouts.contains_key(e) && state.loadouts[e] == after.loadouts[e]))
            &&& region is Some ==> region->0.cell_x == row.cell_x && region->0.cell_y == row.cell_y
            &&& after.regions.contains_key(e)
            &&& after.regions[e].cell_x == row.cell_x
            &&& after.regions[e].cell_y == row.cell_y
            &&& region is None <==> actions[k] is Update && state.regions.contains_key(e)
                && state.regions[e] == after.regions[e]
        }),
{
    lemma_plan_rows(rows, state, table, player);
}

/// An entity that a pass does not see is forgotten altogether, whether or not it had a
/// mirror.
pub proof fn law_gone_is_forgotten(
    rows: Seq<MirrorRow>,
    state: MirrorModel,
    table: Map<u64, DimensionState>,
    player: Option<u64>,
    entity: u64,
)
    requires
        !seen(rows).contains(entity),
    ensures
        ({
            let after = after_pass(rows, state, table, player);
            &&& !after.mirror.contains_key(entity)
            &&& !after.loadouts.contains_key(entity)
            &&& !after.regions.contains_key(entity)
            &&& !after.dims.contains_key(entity)
        }),
{
}

/// After a pass a dimension is decided for exactly the entities that the pass sees, and the
/// one that was decided for such an entity before is decided for it still.
pub proof fn law_dimensions_are_of_the_seen(
    rows: Seq<MirrorRow>,
    state: MirrorModel,
    table: Map<u64, DimensionState>,
    player: Option<u64>,
    entity: u64,
)
    ensures
        ({
            let after = after_pass(rows, state, table, player);
            &&& after.dims.contains_key(entity) <==> seen(rows).contains(entity)
            &&& seen(rows).contains(entity) && state.dims.contains_key(entity)
                ==> after.dims[entity] == state.dims[entity]
        }),
{
    lemma_plan_frame(rows, attributed(rows, state, table), table, player);
    if seen(rows).contains(entity) {
        law_seen_entity_has_dimension(rows, state.dims, state.queue, table, entity);
        if state.dims.contains_key(entity) {
            law_decided_dimension_stands(rows, state.dims, state.queue, table, entity);
        }
    }
}

/// Whether some row shows an entity: one that is neither hidden nor dead.
pub open spec fn is_shown(rows: Seq<MirrorRow>, entity: u64) -> bool {
    exists|i: int|
        0 <= i < rows.len() && (#[trigger] rows[i]).sim_entity == entity && rows[i].sync_me != Some(
            false,
        ) && (rows[i].health matches Some(health) ==> !health.is_dead)
}

proof fn lemma_is_shown(rows: Seq<MirrorRow>, entity: u64)
    ensures
        seen(rows).contains(entity) <==> is_shown(rows, entity),
{
    if seen(rows).contains(entity) {
        let i = choose|i: int|
            0 <= i < rows.len() && #[trigger] rows[i].sim_entity == entity && visible(rows[i]);
        assert(rows[i].sim_entity == entity);
    }
    if is_shown(rows, entity) {
        let i = choose|i: int|
            0 <= i < rows.len() && (#[trigger] rows[i]).sim_entity == entity && rows[i].sync_me
                != Some(false) && (rows[i].health matches Some(health) ==> !health.is_dead);
        assert(rows[i].sim_entity == entity && visible(rows[i]));
    }
}

/// A mirror goes exactly where no row shows its entity any longer; it is then listed once, with
/// the entity that stood for it and the dimension that was decided for it. Every other mirror
/// stays what it was. The dimensions that were decided are kept for the entities that are shown,
/// and for no others, and what is left of the queue of attributions is kept whole.
pub proof fn law_mirror_goes_with_its_entity(
    rows: Seq<MirrorRow>,
    state: MirrorModel,
    table: Map<u64, DimensionState>,
    player: Option<u64>,
    stale: Seq<StaleMirror>,
    entity: u64,
)
    requires
        lists_stale(
            stale,
            plan_all(rows, attributed(rows, state, table), table, player).1,
            stale_set(rows, state.mirror),
        ),
    ensures
        ({
            let after = after_pass(rows, state, table, player);
            let goes = state.mirror.contains_key(entity) && !is_shown(rows, entity);
            &&& goes <==> exists|k: int|
                0 <= k < stale.len() && (#[trigger] stale[k]).sim_entity == entity
            &&& forall|k: int|
                0 <= k < stale.len() && (#[trigger] stale[k]).sim_entity == entity
                    ==> stale[k].entity == state.mirror[entity] && (
                state.dims.contains_key(entity) ==> stale[k].dimension == state.dims[entity])
            &&& forall|j: int, k: int|
                0 <= j < k < stale.len() ==> (#[trigger] stale[j]).sim_entity != (
                #[trigger] stale[k]).sim_entity
            &&& after.mirror.contains_key(entity) <==> state.mirror.contains_key(entity)
                && is_shown(rows, entity)
            &&& after.mirror.contains_key(entity) ==> after.mirror[entity] == state.mirror[entity]
            &&& ({
                let (dims, queue) = attribute_all(rows, state.dims, state.queue, table);
                &&& after.queue == queue
                &&& is_shown(rows, entity) ==> after.dims.contains_key(entity)
                    && after.dims[entity] == dims[entity]
                &&& !is_shown(rows, entity) ==> !after.dims.contains_key(entity)
            })
        }),
{
    let decided = attributed(rows, state, table);
    if is_shown(rows, entity) {
        lemma_is_shown(rows, entity);
        law_seen_entity_has_dimension(rows, state.dims, state.queue, table, entity);
    }
    lemma_plan_frame(rows, decided, table, player);
    lemma_is_shown(rows, entity);
    if state.dims.contains_key(entity) {
        law_decided_dimension_stands(rows, state.dims, state.queue, table, entity);
    }
    let gone = stale_set(rows, state.mirror);
    if state.mirror.contains_key(entity) && !is_shown(rows, entity) {
        assert(gone.contains(entity));
    }
    assert forall|k: int|
        0 <= k < stale.len() && (#[trigger] stale[k]).sim_entity == entity implies gone.contains(
        entity,
    ) by {
        assert(gone.contains(stale[k].sim_entity));
    }
}

/// The first sight of an entity decides its dimension. One with an agent takes the attribution
/// that waits longest, where one waits, and uses it up even if the dimension that it names takes
/// no one; every other lands in the default dimension and leaves the queue alone. Nothing is
/// decided of an entity that is hidden, dead, or decided on already, nor of any other entity.
pub proof fn law_first_sight_decides(
    row: MirrorRow,
    dims: Map<u64, DimensionId>,
    queue: Seq<DimensionId>,
    table: Map<u64, DimensionState>,
)
    ensures
        ({
            let (decided, left) = attribute(row, dims, queue, table);
            let e = row.sim_entity;
            let first = row.sync_me != Some(false) && (row.health matches Some(health)
                ==> !health.is_dead) && !dims.contains_key(e);
            let takes = first && row.has_agent && queue.len() > 0;
            &&& !first ==> decided == dims
            &&& first ==> decided.contains_key(e)
            &&& forall|other: u64|
                other != e ==> (#[trigger] decided.contains_key(other) <==> dims.contains_key(other))
                    && decided[other] == dims[other]
            &&& takes ==> left.len() == queue.len() - 1 && forall|i: int|
                0 <= i < left.len() ==> #[trigger] left[i] == queue[i + 1]
            &&& !takes ==> left == queue
            &&& takes && table.contains_key(queue[0].0) && table[queue[0].0].lifecycle is Active
                ==> decided[e] == queue[0]
            &&& takes && !(table.contains_key(queue[0].0) && table[queue[0].0].lifecycle is Active)
                ==> decided[e].0 == 0
            &&& first && !takes ==> decided[e].0 == 0
        }),
{
}

/// Rows are decided on one after the other: deciding on a list is deciding on its first part and
/// then, with what that left, on the rest.
pub proof fn law_attribution_splits(
    first: Seq<MirrorRow>,
    rest: Seq<MirrorRow>,
    dims: Map<u64, DimensionId>,
    queue: Seq<DimensionId>,
    table: Map<u64, DimensionState>,
)
    ensures
        ({
            let half = attribute_all(first, dims, queue, table);
            attribute_all(first + rest, dims, queue, table) == attribute_all(
                rest,
                half.0,
                half.1,
                table,
            )
        }),
        forall|row: MirrorRow| #[trigger]
            attribute_all(seq![row], dims, queue, table) == attribute(row, dims, queue, table),
    decreases rest.len(),
{
    if rest.len() == 0 {
        assert(first + rest =~= first);
    } else {
        law_attribution_splits(first, rest.drop_last(), dims, queue, table);
        assert((first + rest).drop_last() =~= first + rest.drop_last());
    }
    assert forall|row: MirrorRow| #[trigger]
        attribute_all(seq![row], dims, queue, table) == attribute(row, dims, queue, table) by {
        assert(seq![row].drop_last() =~= Seq::empty());
        assert(attribute_all(seq![row].drop_last(), dims, queue, table) == (dims, queue));
    }
}

/// Once an entity was written, a pass over the rows of the pass before, with the same table
/// and player and with every new mirror entered, writes neither its loadout nor its region
/// again.
pub proof fn law_unchanged_rows_write_nothing(
    rows: Seq<MirrorRow>,
    state: MirrorModel,
    table: Map<u64, DimensionState>,
    player: Option<u64>,
    i: int,
    entered: Map<u64, u64>,
)
    requires
        distinct(rows),
        0 <= i < rows.len(),
        row_action(i, rows[i], attributed(rows, state, table), table, player) is Some,
        entered.contains_key(rows[i].sim_entity),
    ensures
        ({
            let first = MirrorModel { mirror: entered, ..after_pass(rows, state, table, player) };
            let again = attributed(rows, first, table);
            let action = row_action(i, rows[i], again, table, player);
            &&& action is Some
            &&& action->0 is Update
            &&& action->0->Update_loadout is None
            &&& action->0->Update_region_write is None
        }),
{
    let decided = attributed(rows, state, table);
    let first = MirrorModel { mirror: entered, ..after_pass(rows, state, table, player) };
    let e = rows[i].sim_entity;
    lemma_plan_rows(rows, decided, table, player);
    lemma_plan_frame(rows, decided, table, player);
    assert(seen(rows).contains(e));
    law_seen_entity_has_dimension(rows, state.dims, state.queue, table, e);
    law_decided_dimension_stands(rows, first.dims, first.queue, table, e);
}

} // verus!
