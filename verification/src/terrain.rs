//! The terrain that clients see: which chunks changed, and around which point they see it.

use crate::ids::{default_dimension, DimensionId};
use crate::oracle::ChunkKey;
use vstd::prelude::*;

verus! {

/// Chunks that changed since the clients were last told.
pub struct PendingTerrain {
    pub upserted: Vec<ChunkKey>,
    pub removed: Vec<ChunkKey>,
}

/// What a tick of the simulation changed.
pub struct TerrainChanges {
    pub new_chunks: Vec<ChunkKey>,
    pub modified_chunks: Vec<ChunkKey>,
    pub removed_chunks: Vec<ChunkKey>,
}

/// How many ticks the simulation makes per second.
pub const SIM_TICK_HZ: u64 = 30;

/// The time between two ticks of the simulation, in nanoseconds.
pub const SIM_TICK_INTERVAL: u64 = 33_333_333;

/// What the bridge keeps of the simulation that it ticks: how often that went well, and which
/// chunks changed since the clients were last told.
pub struct SimServer {
    pub ticks: u64,
    pub pending_terrain: PendingTerrain,
}

fn append_chunks(list: &mut Vec<ChunkKey>, more: &Vec<ChunkKey>)
    ensures
        final(list)@ == old(list)@ + more@,
{
    let ghost start = list@;
    let mut i: usize = 0;
    assert(list@ =~= start + more@.take(0));
    while i < more.len()
        invariant
            i <= more.len(),
            list@ == start + more@.take(i as int),
        decreases more.len() - i,
    {
        list.push(more[i]);
        i += 1;
        assert(list@ =~= start + more@.take(i as int));
    }
    assert(more@.take(i as int) =~= more@);
}

/// What is pending once a tick's changes are added: its new chunks before its modified ones.
pub open spec fn upserted_after(pending: Seq<ChunkKey>, changes: TerrainChanges) -> Seq<ChunkKey> {
    pending + changes.new_chunks@ + changes.modified_chunks@
}

impl SimServer {
    /// A simulation that was not ticked yet.
    pub fn new() -> (sim: SimServer)
        ensures
            sim.ticks == 0,
            sim.pending_terrain.upserted@.len() == 0,
            sim.pending_terrain.removed@.len() == 0,
    {
        SimServer {
            ticks: 0,
            pending_terrain: PendingTerrain { upserted: Vec::new(), removed: Vec::new() },
        }
    }

    /// Hands out the chunks that changed; none is handed out twice.
    pub fn take_pending(&mut self) -> (pending: PendingTerrain)
        ensures
            pending.upserted@ == old(self).pending_terrain.upserted@,
            pending.removed@ == old(self).pending_terrain.removed@,
            final(self).pending_terrain.upserted@.len() == 0,
            final(self).pending_terrain.removed@.len() == 0,
            final(self).ticks == old(self).ticks,
    {
        let mut pending = PendingTerrain { upserted: Vec::new(), removed: Vec::new() };
        std::mem::swap(&mut pending, &mut self.pending_terrain);
        pending
    }
}

/// Takes in a tick of the simulation. `changes` is `None` where the tick failed, and then
/// nothing is counted; otherwise its chunks wait behind those of earlier ticks.
pub fn tick_sim(sim: &mut SimServer, changes: &Option<TerrainChanges>)
    requires
        changes is Some ==> old(sim).ticks < u64::MAX,
    ensures
        match changes {
            Some(changes) => {
                &&& final(sim).ticks == old(sim).ticks + 1
                &&& final(sim).pending_terrain.upserted@ == upserted_after(
                    old(sim).pending_terrain.upserted@,
                    *changes,
                )
                &&& final(sim).pending_terrain.removed@ == old(sim).pending_terrain.removed@
                    + changes.removed_chunks@
            },
            None => *final(sim) == *old(sim),
        },
{
    let changes = match changes {
        Some(changes) => changes,
        None => {
            return ;
        },
    };
    append_chunks(&mut sim.pending_terrain.upserted, &changes.new_chunks);
    append_chunks(&mut sim.pending_terrain.upserted, &changes.modified_chunks);
    append_chunks(&mut sim.pending_terrain.removed, &changes.removed_chunks);
    sim.ticks = sim.ticks + 1;
}

/// A tick that went well loses no chunk and makes none up: a chunk waits to be told exactly
/// where it waited before, is new, or was modified, and it waits once for each of these. What
/// waited before stays in front.
pub proof fn law_tick_tells_every_change(pending: Seq<ChunkKey>, changes: TerrainChanges, key: ChunkKey)
    ensures
        ({
            let after = upserted_after(pending, changes);
            &&& after.len() == pending.len() + changes.new_chunks@.len()
                + changes.modified_chunks@.len()
            &&& after.contains(key) <==> pending.contains(key) || changes.new_chunks@.contains(key)
                || changes.modified_chunks@.contains(key)
            &&& pending.is_prefix_of(after)
            &&& forall|i: int|
                0 <= i < changes.new_chunks@.len() ==> after[pending.len() + i]
                    == #[trigger] changes.new_chunks@[i]
            &&& forall|i: int|
                0 <= i < changes.modified_chunks@.len() ==> after[after.len()
                    - changes.modified_chunks@.len() + i] == #[trigger] changes.modified_chunks@[i]
        }),
{
    let after = upserted_after(pending, changes);
    let (new, modified) = (changes.new_chunks@, changes.modified_chunks@);
    if pending.contains(key) {
        assert(after[pending.index_of(key)] == key);
    }
    if new.contains(key) {
        assert(after[pending.len() + new.index_of(key)] == key);
    }
    if modified.contains(key) {
        assert(after[pending.len() + new.len() + modified.index_of(key)] == key);
    }
    if after.contains(key) {
        let i = after.index_of(key);
        if i < pending.len() {
            assert(pending[i] == key);
        } else if i < pending.len() + new.len() {
            assert(new[i - pending.len()] == key);
        } else {
            assert(modified[i - pending.len() - new.len()] == key);
        }
    }
    assert(pending =~= after.take(pending.len() as int));
}

/// What the clients are told of a chunk.
#[derive(Clone, Copy, Debug, PartialEq, Eq, Structural)]
pub enum TerrainMessage {
    /// The chunk as it is now.
    Chunk(ChunkKey),
    Remove(ChunkKey),
}

/// The chunks of a list that are loaded, in order.
pub open spec fn loaded_chunks(keys: Seq<ChunkKey>, loaded: Seq<bool>) -> Seq<TerrainMessage>
    decreases keys.len(),
{
    if keys.len() == 0 {
        Seq::empty()
    } else {
        let before = loaded_chunks(keys.drop_last(), loaded);
        if loaded[keys.len() - 1] {
            before.push(TerrainMessage::Chunk(keys.last()))
        } else {
            before
        }
    }
}

/// What the clients are told: the changed chunks that are still loaded, then the removed ones.
pub open spec fn terrain_messages(
    upserted: Seq<ChunkKey>,
    loaded: Seq<bool>,
    removed: Seq<ChunkKey>,
) -> Seq<TerrainMessage> {
    loaded_chunks(upserted, loaded) + removed.map_values(|key: ChunkKey| TerrainMessage::Remove(key))
}

/// What the clients are told of the chunks that changed; `loaded` says of each changed chunk
/// whether it is still there. One that is not is left out.
pub fn stream_terrain_changes(pending: &PendingTerrain, loaded: &Vec<bool>) -> (messages: Vec<
    TerrainMessage,
>)
    requires
        loaded@.len() == pending.upserted@.len(),
    ensures
        messages@ == terrain_messages(pending.upserted@, loaded@, pending.removed@),
{
    let mut messages: Vec<TerrainMessage> = Vec::new();
    let mut i: usize = 0;
    while i < pending.upserted.len()
        invariant
            i <= pending.upserted.len(),
            loaded@.len() == pending.upserted@.len(),
            messages@ == loaded_chunks(pending.upserted@.take(i as int), loaded@),
        decreases pending.upserted.len() - i,
    {
        proof {
            assert(pending.upserted@.take(i as int + 1).drop_last() =~= pending.upserted@.take(
                i as int,
            ));
        }
        if loaded[i] {
            messages.push(TerrainMessage::Chunk(pending.upserted[i]));
        }
        i += 1;
    }
    assert(pending.upserted@.take(i as int) =~= pending.upserted@);
    let ghost changed = messages@;
    let ghost remove = |key: ChunkKey| TerrainMessage::Remove(key);
    let mut k: usize = 0;
    assert(messages@ =~= changed + pending.removed@.take(0).map_values(remove));
    while k < pending.removed.len()
        invariant
            k <= pending.removed.len(),
            remove == (|key: ChunkKey| TerrainMessage::Remove(key)),
            messages@ == changed + pending.removed@.take(k as int).map_values(remove),
        decreases pending.removed.len() - k,
    {
        messages.push(TerrainMessage::Remove(pending.removed[k]));
        k += 1;
        assert(messages@ =~= changed + pending.removed@.take(k as int).map_values(remove));
    }
    assert(pending.removed@.take(k as int) =~= pending.removed@);
    messages
}

/// A changed chunk is told of if and only if it is still loaded, and every removed chunk is.
pub proof fn law_terrain_messages_tell_all(
    upserted: Seq<ChunkKey>,
    loaded: Seq<bool>,
    removed: Seq<ChunkKey>,
    key: ChunkKey,
)
    requires
        loaded.len() == upserted.len(),
    ensures
        terrain_messages(upserted, loaded, removed).contains(TerrainMessage::Chunk(key)) <==> (
        exists|i: int| 0 <= i < upserted.len() && #[trigger] upserted[i] == key && loaded[i]),
        terrain_messages(upserted, loaded, removed).contains(TerrainMessage::Remove(key))
            <==> removed.contains(key),
{
    lemma_loaded_chunks(upserted, loaded, key);
    let first = loaded_chunks(upserted, loaded);
    let second = removed.map_values(|key: ChunkKey| TerrainMessage::Remove(key));
    let all = terrain_messages(upserted, loaded, removed);
    assert(all == first + second);
    if first.contains(TerrainMessage::Chunk(key)) {
        let i = first.index_of(TerrainMessage::Chunk(key));
        assert(all[i] == TerrainMessage::Chunk(key));
    }
    if all.contains(TerrainMessage::Chunk(key)) {
        let i = all.index_of(TerrainMessage::Chunk(key));
        if i >= first.len() {
            assert(second[i - first.len()] == all[i]);
        }
        assert(first[i] == TerrainMessage::Chunk(key));
    }
    if removed.contains(key) {
        let i = removed.index_of(key);
        assert(all[first.len() + i] == second[i]);
    }
    if all.contains(TerrainMessage::Remove(key)) {
        let i = all.index_of(TerrainMessage::Remove(key));
        if i < first.len() {
            assert(first[i] == TerrainMessage::Remove(key));
        } else {
            assert(second[i - first.len()] == all[i]);
            assert(removed[i - first.len()] == key);
        }
    }
}

/// What `loaded_chunks` holds.
proof fn lemma_loaded_chunks(keys: Seq<ChunkKey>, loaded: Seq<bool>, key: ChunkKey)
    requires
        loaded.len() >= keys.len(),
    ensures
        loaded_chunks(keys, loaded).contains(TerrainMessage::Chunk(key)) <==> (exists|i: int|
            0 <= i < keys.len() && #[trigger] keys[i] == key && loaded[i]),
        !loaded_chunks(keys, loaded).contains(TerrainMessage::Remove(key)),
    decreases keys.len(),
{
    if keys.len() > 0 {
        let front = keys.drop_last();
        let before = loaded_chunks(front, loaded);
        lemma_loaded_chunks(front, loaded, key);
        let now = loaded_chunks(keys, loaded);
        if before.contains(TerrainMessage::Chunk(key)) {
            let i = choose|i: int| 0 <= i < front.len() && #[trigger] front[i] == key && loaded[i];
            assert(keys[i] == key);
            let j = before.index_of(TerrainMessage::Chunk(key));
            assert(now[j] == TerrainMessage::Chunk(key));
        }
        if loaded[keys.len() - 1] {
            assert(now[before.len() as int] == TerrainMessage::Chunk(keys.last()));
        }
        if now.contains(TerrainMessage::Chunk(key)) {
            let j = now.index_of(TerrainMessage::Chunk(key));
            if j < before.len() {
                assert(before[j] == TerrainMessage::Chunk(key));
            } else {
                assert(keys[keys.len() - 1] == key);
            }
        }
        if exists|i: int| 0 <= i < keys.len() && #[trigger] keys[i] == key && loaded[i] {
            let i = choose|i: int| 0 <= i < keys.len() && #[trigger] keys[i] == key && loaded[i];
            if i < front.len() {
                assert(front[i] == key);
            }
        }
        if now.contains(TerrainMessage::Remove(key)) {
            let j = now.index_of(TerrainMessage::Remove(key));
            if j < before.len() {
                assert(before[j] == TerrainMessage::Remove(key));
            }
        }
    }
}

/// A position, as bit patterns.
#[derive(Clone, Copy, Debug, PartialEq, Eq, Structural)]
pub struct WorldPos {
    pub x: u32,
    pub y: u32,
    pub z: u32,
}

/// What is known of the point that terrain is kept around when no player is there.
#[derive(Clone, Copy, Debug, PartialEq, Eq, Structural)]
pub struct TerrainAnchorState {
    pub anchored: bool,
    pub anchor_wpos: Option<WorldPos>,
    pub anchor_sent: bool,
}

impl TerrainAnchorState {
    /// Nothing is anchored yet.
    pub fn new() -> (state: TerrainAnchorState)
        ensures
            state == (TerrainAnchorState {
                anchored: false,
                anchor_wpos: None,
                anchor_sent: false,
            }),
    {
        TerrainAnchorState { anchored: false, anchor_wpos: None, anchor_sent: false }
    }

    /// The point that was broadcast.
    pub fn anchor_wpos(&self) -> (wpos: Option<WorldPos>)
        ensures
            wpos == self.anchor_wpos,
    {
        self.anchor_wpos
    }
}

/// What has to be done about the anchor.
#[derive(Clone, Copy, Debug, PartialEq, Eq, Structural)]
pub struct AnchorPlan {
    /// Something has to keep the terrain around the centre loaded.
    pub spawn_persister: bool,
    /// The point that is broadcast.
    pub broadcast: Option<WorldPos>,
}

/// What a pass does about the anchor. `centre` is `None` where there is no simulation yet,
/// `player_failed` where there is no local player.
pub open spec fn anchor_plan(
    state: TerrainAnchorState,
    centre: Option<WorldPos>,
    player_failed: Option<bool>,
) -> AnchorPlan {
    AnchorPlan {
        spawn_persister: centre is Some && !state.anchored && player_failed != Some(false),
        broadcast: if state.anchor_sent {
            None
        } else {
            centre
        },
    }
}

/// What is known of the anchor after a pass.
pub open spec fn anchor_after(
    state: TerrainAnchorState,
    centre: Option<WorldPos>,
    player_failed: Option<bool>,
) -> TerrainAnchorState {
    TerrainAnchorState {
        anchored: state.anchored || anchor_plan(state, centre, player_failed).spawn_persister,
        anchor_wpos: match anchor_plan(state, centre, player_failed).broadcast {
            Some(wpos) => Some(wpos),
            None => state.anchor_wpos,
        },
        anchor_sent: state.anchor_sent || centre is Some,
    }
}

/// Keeps terrain loaded where no player does: a player who is there, connecting or in game,
/// does unless they failed. The centre of the world is broadcast once, whoever keeps the
/// terrain loaded. Without a simulation (`centre` is `None`) nothing happens.
pub fn ensure_terrain_anchor(
    state: &mut TerrainAnchorState,
    centre: Option<WorldPos>,
    player_failed: Option<bool>,
) -> (plan: AnchorPlan)
    ensures
        plan == anchor_plan(*old(state), centre, player_failed),
        *final(state) == anchor_after(*old(state), centre, player_failed),
{
    let wpos = match centre {
        Some(wpos) => wpos,
        None => {
            return AnchorPlan { spawn_persister: false, broadcast: None };
        },
    };
    let player_covers_terrain = match player_failed {
        Some(failed) => !failed,
        None => false,
    };
    let mut spawn_persister = false;
    if !state.anchored && !player_covers_terrain {
        spawn_persister = true;
        state.anchored = true;
    }
    let mut broadcast: Option<WorldPos> = None;
    if !state.anchor_sent {
        state.anchor_wpos = Some(wpos);
        broadcast = Some(wpos);
        state.anchor_sent = true;
    }
    AnchorPlan { spawn_persister, broadcast }
}

/// The centre is broadcast once and terrain gets one keeper at most: what one pass did, no
/// later pass does again, and no pass takes back that it was done.
pub proof fn law_anchor_acts_once(
    state: TerrainAnchorState,
    centre: Option<WorldPos>,
    player_failed: Option<bool>,
    later: TerrainAnchorState,
    later_centre: Option<WorldPos>,
    later_failed: Option<bool>,
)
    requires
        anchor_after(state, centre, player_failed).anchored ==> later.anchored,
        anchor_after(state, centre, player_failed).anchor_sent ==> later.anchor_sent,
    ensures
        anchor_plan(state, centre, player_failed).spawn_persister ==> !anchor_plan(
            later,
            later_centre,
            later_failed,
        ).spawn_persister,
        anchor_plan(state, centre, player_failed).broadcast is Some ==> anchor_plan(
            later,
            later_centre,
            later_failed,
        ).broadcast is None,
        later.anchored ==> anchor_after(later, later_centre, later_failed).anchored,
        later.anchor_sent ==> anchor_after(later, later_centre, later_failed).anchor_sent,
{
}

/// A player who has not failed is the one who keeps the terrain loaded: nothing else is
/// spawned for it beside them.
pub proof fn law_player_keeps_the_terrain(state: TerrainAnchorState, centre: Option<WorldPos>)
    ensures
        !anchor_plan(state, centre, Some(false)).spawn_persister,
        !state.anchored && centre is Some ==> anchor_plan(
            state,
            centre,
            Some(true),
        ).spawn_persister && anchor_plan(state, centre, None).spawn_persister,
{
}

/// The edge of a chunk, in blocks.
pub const CHUNK_BLOCKS: u64 = 32;

/// The centre of a world of so many chunks, in blocks.
pub fn world_centre(chunks_x: u32, chunks_y: u32) -> (centre: (u64, u64))
    ensures
        centre.0 * 2 == chunks_x * CHUNK_BLOCKS,
        centre.1 * 2 == chunks_y * CHUNK_BLOCKS,
{
    (chunks_x as u64 * CHUNK_BLOCKS / 2, chunks_y as u64 * CHUNK_BLOCKS / 2)
}

/// Where a client that has no viewpoint yet looks from: at the anchor, in the default
/// dimension.
#[derive(Clone, Copy, Debug, PartialEq, Eq, Structural)]
pub struct DefaultViewpoint {
    pub client: u64,
    pub dimension: DimensionId,
    pub x: u32,
    pub y: u32,
    pub view_distance: u32,
}

/// The viewpoint of a client at the anchor.
pub open spec fn viewpoint_at(client: u64, anchor: WorldPos, view_distance: u32) -> DefaultViewpoint {
    DefaultViewpoint {
        client,
        dimension: default_dimension(),
        x: anchor.x,
        y: anchor.y,
        view_distance,
    }
}

/// Gives every client without a viewpoint one at the anchor, once there is an anchor.
pub fn apply_default_viewpoint_for_new_clients(
    state: &TerrainAnchorState,
    clients: &Vec<u64>,
    view_distance: u32,
) -> (viewpoints: Vec<DefaultViewpoint>)
    ensures
        viewpoints@ == match state.anchor_wpos {
            Some(anchor) => clients@.map_values(
                |client: u64| viewpoint_at(client, anchor, view_distance),
            ),
            None => Seq::empty(),
        },
{
    let mut viewpoints: Vec<DefaultViewpoint> = Vec::new();
    let anchor = match state.anchor_wpos() {
        Some(anchor) => anchor,
        None => {
            return viewpoints;
        },
    };
    let mut i: usize = 0;
    while i < clients.len()
        invariant
            i <= clients.len(),
            viewpoints@.len() == i,
            forall|j: int|
                0 <= j < i ==> #[trigger] viewpoints@[j] == viewpoint_at(
                    clients@[j],
                    anchor,
                    view_distance,
                ),
        decreases clients.len() - i,
    {
        viewpoints.push(
            DefaultViewpoint {
                client: clients[i],
                dimension: DimensionId::default_id(),
                x: anchor.x,
                y: anchor.y,
                view_distance,
            },
        );
        i += 1;
    }
    assert(viewpoints@ =~= clients@.map_values(
        |client: u64| viewpoint_at(client, anchor, view_distance),
    ));
    viewpoints
}

proof fn lemma_loaded_chunks_split(
    first: Seq<ChunkKey>,
    rest: Seq<ChunkKey>,
    first_loaded: Seq<bool>,
    rest_loaded: Seq<bool>,
)
    requires
        first_loaded.len() == first.len(),
        rest_loaded.len() >= rest.len(),
    ensures
        loaded_chunks(first + rest, first_loaded + rest_loaded) == loaded_chunks(
            first,
            first_loaded,
        ) + loaded_chunks(rest, rest_loaded),
    decreases first.len() + rest.len(),
{
    let loaded = first_loaded + rest_loaded;
    if rest.len() > 0 {
        lemma_loaded_chunks_split(first, rest.drop_last(), first_loaded, rest_loaded);
        assert((first + rest).drop_last() =~= first + rest.drop_last());
    } else {
        assert(first + rest =~= first);
        lemma_loaded_chunks_prefix(first, first_loaded, loaded);
    }
    assert(loaded_chunks(first + rest, loaded) =~= loaded_chunks(first, first_loaded)
        + loaded_chunks(rest, rest_loaded));
}

proof fn lemma_loaded_chunks_prefix(keys: Seq<ChunkKey>, loaded: Seq<bool>, more: Seq<bool>)
    requires
        loaded.len() >= keys.len(),
        more.len() >= keys.len(),
        forall|i: int| 0 <= i < keys.len() ==> #[trigger] loaded[i] == more[i],
    ensures
        loaded_chunks(keys, loaded) == loaded_chunks(keys, more),
    decreases keys.len(),
{
    if keys.len() > 0 {
        lemma_loaded_chunks_prefix(keys.drop_last(), loaded, more);
    }
}

/// The clients are told of the chunks in the order in which they changed, of each loaded one
/// once for every change, and of the removals behind them, all of them and in order.
pub proof fn law_terrain_is_told_in_order(
    first: Seq<ChunkKey>,
    rest: Seq<ChunkKey>,
    first_loaded: Seq<bool>,
    rest_loaded: Seq<bool>,
    removed: Seq<ChunkKey>,
    key: ChunkKey,
    is_loaded: bool,
)
    requires
        first_loaded.len() == first.len(),
        rest_loaded.len() == rest.len(),
    ensures
        terrain_messages(first + rest, first_loaded + rest_loaded, removed) == terrain_messages(
            first,
            first_loaded,
            Seq::empty(),
        ) + terrain_messages(rest, rest_loaded, removed),
        terrain_messages(seq![key], seq![is_loaded], Seq::empty()) == (if is_loaded {
            seq![TerrainMessage::Chunk(key)]
        } else {
            Seq::empty()
        }),
        ({
            let told = terrain_messages(Seq::empty(), Seq::empty(), removed);
            &&& told.len() == removed.len()
            &&& forall|i: int|
                0 <= i < removed.len() ==> told[i] == TerrainMessage::Remove(#[trigger] removed[i])
        }),
{
    lemma_loaded_chunks_split(first, rest, first_loaded, rest_loaded);
    assert(terrain_messages(first + rest, first_loaded + rest_loaded, removed)
        =~= terrain_messages(first, first_loaded, Seq::empty()) + terrain_messages(
        rest,
        rest_loaded,
        removed,
    ));
    let one = seq![key];
    assert(one.drop_last() =~= Seq::<ChunkKey>::empty());
    assert(loaded_chunks(one.drop_last(), seq![is_loaded]).len() == 0);
    assert(terrain_messages(one, seq![is_loaded], Seq::empty()) =~= (if is_loaded {
        seq![TerrainMessage::Chunk(key)]
    } else {
        Seq::empty()
    }));
}

/// What a world whose centre is known calls for. Its point is broadcast unless that was done
/// before, and something is spawned to keep its terrain loaded unless that was done before or
/// a player who has not failed does it. Either is remembered, and the point that was broadcast
/// last is the one that is known.
pub proof fn law_anchor_is_set_where_it_is_needed(
    state: TerrainAnchorState,
    centre: Option<WorldPos>,
    player_failed: Option<bool>,
)
    ensures
        ({
            let plan = anchor_plan(state, centre, player_failed);
            let after = anchor_after(state, centre, player_failed);
            &&& plan.spawn_persister <==> centre is Some && !state.anchored && (player_failed
                is None || player_failed->0)
            &&& plan.broadcast is Some <==> centre is Some && !state.anchor_sent
            &&& plan.broadcast is Some ==> plan.broadcast->0 == centre->0 && after.anchor_wpos
                == centre
            &&& plan.broadcast is None ==> after.anchor_wpos == state.anchor_wpos
            &&& after.anchored <==> state.anchored || plan.spawn_persister
            &&& after.anchor_sent <==> state.anchor_sent || plan.broadcast is Some
        }),
{
}

/// A client without a viewpoint looks from the anchor, in the default dimension, as far as it
/// is told to.
pub proof fn law_new_client_looks_from_the_anchor(client: u64, anchor: WorldPos, view_distance: u32)
    ensures
        ({
            let viewpoint = viewpoint_at(client, anchor, view_distance);
            &&& viewpoint.client == client
            &&& viewpoint.dimension.0 == 0
            &&& viewpoint.x == anchor.x
            &&& viewpoint.y == anchor.y
            &&& viewpoint.view_distance == view_distance
        }),
{
}

} // verus!
