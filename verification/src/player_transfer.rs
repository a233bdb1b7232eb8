//! Moving a mirrored player between dimensions, and back out of one that ends.

use crate::dimension_lifecycle::TaggedMirror;
use crate::ids::{admits, default_dimension, DimensionId, DimensionState, DimensionTable};
use crate::mirror::{dimension_for, dimension_of, SimEntityDimension, SimMirror};
use crate::session::PlayerDimensionSession;
use vstd::prelude::*;

verus! {

broadcast use vstd::std_specs::hash::group_hash_axioms;

/// A player's move to another dimension.
#[derive(Clone, Copy, Debug, PartialEq, Eq, Structural)]
pub struct TransferPlayerDimension {
    pub sim_entity: u64,
    pub target: DimensionId,
}

/// A move that can be tried: `entity` leaves the occupants of `current` and tries to join
/// those of `target`.
#[derive(Clone, Copy, Debug, PartialEq, Eq, Structural)]
pub struct TransferMove {
    pub sim_entity: u64,
    pub entity: u64,
    pub current: DimensionId,
    pub target: DimensionId,
    pub new_root: u64,
}

/// What a request for a move comes to.
#[derive(Clone, Copy, Debug, PartialEq, Eq, Structural)]
pub enum TransferStart {
    /// The entity is not mirrored.
    Unmirrored,
    /// The entity is in the target dimension already.
    AlreadyThere,
    /// The target dimension is not registered, or takes no new entrants.
    Refused,
    Move(TransferMove),
}

/// What a request for a move comes to.
pub open spec fn transfer_start(
    request: TransferPlayerDimension,
    mirror: Map<u64, u64>,
    dims: Map<u64, DimensionId>,
    table: Map<u64, DimensionState>,
) -> TransferStart {
    let current = dimension_of(dims, request.sim_entity);
    if !mirror.contains_key(request.sim_entity) {
        TransferStart::Unmirrored
    } else if current == request.target {
        TransferStart::AlreadyThere
    } else if !admits(table, request.target) {
        TransferStart::Refused
    } else {
        TransferStart::Move(
            TransferMove {
                sim_entity: request.sim_entity,
                entity: mirror[request.sim_entity],
                current,
                target: request.target,
                new_root: table[request.target.0].root,
            },
        )
    }
}

/// Checks a request for a move. Nothing is changed yet.
pub fn begin_player_dimension_transfer(
    request: TransferPlayerDimension,
    mirror: &SimMirror,
    dims: &SimEntityDimension,
    table: &DimensionTable,
) -> (start: TransferStart)
    ensures
        start == transfer_start(request, mirror.0@, dims.0@, table@),
{
    let entity: u64 = match mirror.0.get(&request.sim_entity) {
        Some(entity) => *entity,
        None => {
            return TransferStart::Unmirrored;
        },
    };
    let current = dimension_for(dims, request.sim_entity);
    if current == request.target {
        return TransferStart::AlreadyThere;
    }
    match table.get(request.target) {
        Some(state) => if state.accepts_new_entrants() {
            TransferStart::Move(
                TransferMove {
                    sim_entity: request.sim_entity,
                    entity,
                    current,
                    target: request.target,
                    new_root: state.root,
                },
            )
        } else {
            TransferStart::Refused
        },
        None => TransferStart::Refused,
    }
}

/// A client's session, with the entity that holds the client's viewpoint.
#[derive(Clone, Copy, Debug, PartialEq, Eq, Structural)]
pub struct ClientSession {
    pub client: u64,
    pub session: PlayerDimensionSession,
}

/// How a move ends.
#[derive(Clone, Copy, Debug, PartialEq, Eq, Structural)]
pub enum TransferEnd {
    /// The mirror `entity` is tagged with `dimension` and hung under `root`, and the viewpoint
    /// of `client`, if a session is linked to the player, follows.
    Committed { entity: u64, dimension: DimensionId, root: u64, client: Option<u64> },
    /// The target took the entity not after all: `entity` joins the occupants of `current`
    /// again, and keeps its tag.
    RolledBack { entity: u64, current: DimensionId },
}

/// The client of the first session, from place `from` on, that plays an entity.
pub open spec fn client_of(sessions: Seq<ClientSession>, sim_entity: u64, from: int) -> Option<u64>
    decreases sessions.len() - from,
{
    if from < 0 || from >= sessions.len() {
        None
    } else if sessions[from].session.0 == sim_entity {
        Some(sessions[from].client)
    } else {
        client_of(sessions, sim_entity, from + 1)
    }
}

/// How a move ends, by whether the target took the entity in.
pub open spec fn transfer_end(
    step: TransferMove,
    joined: bool,
    sessions: Seq<ClientSession>,
) -> TransferEnd {
    if joined {
        TransferEnd::Committed {
            entity: step.entity,
            dimension: step.target,
            root: step.new_root,
            client: client_of(sessions, step.sim_entity, 0),
        }
    } else {
        TransferEnd::RolledBack { entity: step.entity, current: step.current }
    }
}

fn find_client(sessions: &Vec<ClientSession>, sim_entity: u64) -> (client: Option<u64>)
    ensures
        client == client_of(sessions@, sim_entity, 0),
{
    let mut i: usize = 0;
    while i < sessions.len()
        invariant
            i <= sessions.len(),
            client_of(sessions@, sim_entity, 0) == client_of(sessions@, sim_entity, i as int),
        decreases sessions.len() - i,
    {
        if sessions[i].session.0 == sim_entity {
            return Some(sessions[i].client);
        }
        i += 1;
    }
    None
}

/// Ends a move: where the target took the entity in, its dimension is decided anew; where it
/// did not, everything stays as it was.
pub fn finish_player_dimension_transfer(
    step: TransferMove,
    joined: bool,
    dims: &mut SimEntityDimension,
    sessions: &Vec<ClientSession>,
) -> (end: TransferEnd)
    ensures
        end == transfer_end(step, joined, sessions@),
        final(dims).0@ == if joined {
            old(dims).0@.insert(step.sim_entity, step.target)
        } else {
            old(dims).0@
        },
{
    if !joined {
        return TransferEnd::RolledBack { entity: step.entity, current: step.current };
    }
    dims.0.insert(step.sim_entity, step.target);
    TransferEnd::Committed {
        entity: step.entity,
        dimension: step.target,
        root: step.new_root,
        client: find_client(sessions, step.sim_entity),
    }
}

/// What a move of a player is told.
#[derive(Clone, Copy, Debug, PartialEq, Eq, Structural)]
pub enum TransferEvent {
    /// The move is asked for.
    Requested(TransferPlayerDimension),
    /// The entity left the dimension that it was in, and was taken in by the target.
    Joined(TransferMove),
    /// The entity left the dimension that it was in, and the target did not take it in.
    Rejected(TransferMove),
}

/// What a move of a player calls for.
#[derive(Clone, Copy, Debug, PartialEq, Eq, Structural)]
pub enum TransferAction {
    Start(TransferStart),
    End(TransferEnd),
}

/// What becomes of a move: which dimensions are decided afterwards, and what is called for.
pub open spec fn transferred(
    event: TransferEvent,
    mirror: Map<u64, u64>,
    dims: Map<u64, DimensionId>,
    table: Map<u64, DimensionState>,
    sessions: Seq<ClientSession>,
) -> (Map<u64, DimensionId>, TransferAction) {
    match event {
        TransferEvent::Requested(request) => (
            dims,
            TransferAction::Start(transfer_start(request, mirror, dims, table)),
        ),
        TransferEvent::Joined(step) => (
            dims.insert(step.sim_entity, step.target),
            TransferAction::End(transfer_end(step, true, sessions)),
        ),
        TransferEvent::Rejected(step) => (
            dims,
            TransferAction::End(transfer_end(step, false, sessions)),
        ),
    }
}

/// Takes a move of a player one step further. Between the request and its end the host moves
/// the occupant from one dimension to the other, and says whether the target took it in.
pub fn apply_player_dimension_transfers(
    event: TransferEvent,
    mirror: &SimMirror,
    dims: &mut SimEntityDimension,
    table: &DimensionTable,
    sessions: &Vec<ClientSession>,
) -> (action: TransferAction)
    ensures
        (final(dims).0@, action) == transferred(
            event,
            mirror.0@,
            old(dims).0@,
            table@,
            sessions@,
        ),
{
    match event {
        TransferEvent::Requested(request) => TransferAction::Start(
            begin_player_dimension_transfer(request, mirror, dims, table),
        ),
        TransferEvent::Joined(step) => TransferAction::End(
            finish_player_dimension_transfer(step, true, dims, sessions),
        ),
        TransferEvent::Rejected(step) => TransferAction::End(
            finish_player_dimension_transfer(step, false, dims, sessions),
        ),
    }
}

proof fn lemma_client_of(sessions: Seq<ClientSession>, sim_entity: u64, from: int)
    requires
        0 <= from <= sessions.len(),
    ensures
        ({
            let client = client_of(sessions, sim_entity, from);
            &&& client is None <==> forall|i: int|
                from <= i < sessions.len() ==> (#[trigger] sessions[i]).session.0 != sim_entity
            &&& forall|i: int|
                from <= i < sessions.len() && (#[trigger] sessions[i]).session.0 == sim_entity && (
                forall|j: int| from <= j < i ==> (#[trigger] sessions[j]).session.0 != sim_entity)
                    ==> client == Some(sessions[i].client)
        }),
    decreases sessions.len() - from,
{
    if from < sessions.len() {
        lemma_client_of(sessions, sim_entity, from + 1);
        let client = client_of(sessions, sim_entity, from);
        assert(sessions[from].session.0 == sim_entity ==> client is Some);
    }
}

/// The viewpoint that follows a committed move is that of the first session that plays the
/// moved entity, wherever in the list it stands; no viewpoint follows where no session does.
/// The mirror is tagged and hung as the move says.
pub proof fn law_viewpoint_follows_its_player(
    step: TransferMove,
    mirror: Map<u64, u64>,
    dims: Map<u64, DimensionId>,
    table: Map<u64, DimensionState>,
    sessions: Seq<ClientSession>,
)
    ensures
        ({
            let after = transferred(TransferEvent::Joined(step), mirror, dims, table, sessions);
            match after.1 {
                TransferAction::End(
                    TransferEnd::Committed { entity, dimension, root, client },
                ) => {
                    &&& entity == step.entity
                    &&& dimension == step.target
                    &&& root == step.new_root
                    &&& client is Some <==> exists|i: int|
                        0 <= i < sessions.len() && (#[trigger] sessions[i]).session.0
                            == step.sim_entity
                    &&& forall|i: int|
                        0 <= i < sessions.len() && (#[trigger] sessions[i]).session.0
                            == step.sim_entity && (forall|j: int|
                            0 <= j < i ==> (#[trigger] sessions[j]).session.0 != step.sim_entity)
                            ==> client == Some(sessions[i].client)
                },
                _ => false,
            }
        }),
{
    lemma_client_of(sessions, step.sim_entity, 0);
}

/// What a request for a move comes to, by what is known of the entity and of the target: an
/// entity without a mirror is left alone, one that is in the target already stays, a target
/// that takes no one refuses it, and in every other case the move is tried, out of the
/// dimension that the entity is in and under the root of the one it asks for.
pub proof fn law_request_is_judged_once(
    request: TransferPlayerDimension,
    mirror: Map<u64, u64>,
    dims: Map<u64, DimensionId>,
    table: Map<u64, DimensionState>,
    sessions: Seq<ClientSession>,
)
    ensures
        ({
            let (dims_after, action) = transferred(
                TransferEvent::Requested(request),
                mirror,
                dims,
                table,
                sessions,
            );
            let mirrored = mirror.contains_key(request.sim_entity);
            let there = (dims.contains_key(request.sim_entity) && dims[request.sim_entity]
                == request.target) || (!dims.contains_key(request.sim_entity) && request.target.0
                == 0);
            let open = table.contains_key(request.target.0)
                && table[request.target.0].lifecycle is Active;
            &&& dims_after == dims
            &&& action is Start
            &&& action->Start_0 is Unmirrored <==> !mirrored
            &&& action->Start_0 is AlreadyThere <==> mirrored && there
            &&& action->Start_0 is Refused <==> mirrored && !there && !open
            &&& action->Start_0 is Move <==> mirrored && !there && open
            &&& action->Start_0 is Move ==> {
                let step = action->Start_0->Move_0;
                &&& step.sim_entity == request.sim_entity
                &&& step.entity == mirror[request.sim_entity]
                &&& step.target == request.target
                &&& step.new_root == table[request.target.0].root
                &&& if dims.contains_key(request.sim_entity) {
                    step.current == dims[request.sim_entity]
                } else {
                    step.current.0 == 0
                }
            }
        }),
{
}

/// A move that ends well leaves the decided dimension, the tag, the root and the viewpoint in
/// agreement: all of them are those of the target, which was active.
pub proof fn law_transfer_is_atomic(
    request: TransferPlayerDimension,
    mirror: Map<u64, u64>,
    dims: Map<u64, DimensionId>,
    table: Map<u64, DimensionState>,
    sessions: Seq<ClientSession>,
)
    requires
        transfer_start(request, mirror, dims, table) is Move,
    ensures
        ({
            let step = transfer_start(request, mirror, dims, table)->Move_0;
            let end = transfer_end(step, true, sessions);
            let after = dims.insert(step.sim_entity, step.target);
            &&& end is Committed
            &&& end->dimension == dimension_of(after, request.sim_entity)
            &&& end->dimension == request.target
            &&& end->Committed_entity == mirror[request.sim_entity]
            &&& admits(table, end->dimension)
            &&& end->root == table[end->dimension.0].root
            &&& transfer_start(request, mirror, after, table) is AlreadyThere
        }),
{
}

/// Who occupies each dimension.
pub type Occupants = Map<u64, Set<u64>>;

/// The occupants after an entity left a dimension.
pub open spec fn leave(occupants: Occupants, dimension: DimensionId, entity: u64) -> Occupants {
    if occupants.contains_key(dimension.0) {
        occupants.insert(dimension.0, occupants[dimension.0].remove(entity))
    } else {
        occupants
    }
}

/// The occupants after an entity joined a dimension.
pub open spec fn enter(occupants: Occupants, dimension: DimensionId, entity: u64) -> Occupants {
    if occupants.contains_key(dimension.0) {
        occupants.insert(dimension.0, occupants[dimension.0].insert(entity))
    } else {
        occupants
    }
}

/// The occupants after a move was tried.
pub open spec fn occupants_after(occupants: Occupants, step: TransferMove, joined: bool) -> Occupants {
    let left = leave(occupants, step.current, step.entity);
    if joined {
        enter(left, step.target, step.entity)
    } else {
        enter(left, step.current, step.entity)
    }
}

/// A move changes who occupies what by exactly the player that moves, and a move that is
/// taken back changes nothing at all where the player did occupy its dimension.
pub proof fn law_transfer_keeps_occupancy(occupants: Occupants, step: TransferMove)
    requires
        occupants.contains_key(step.current.0),
        occupants.contains_key(step.target.0),
        step.current != step.target,
    ensures
        ({
            let moved = occupants_after(occupants, step, true);
            &&& moved.dom() == occupants.dom()
            &&& moved[step.current.0] == occupants[step.current.0].remove(step.entity)
            &&& moved[step.target.0] == occupants[step.target.0].insert(step.entity)
            &&& forall|d: u64|
                d != step.current.0 && d != step.target.0 && occupants.contains_key(d)
                    ==> #[trigger] moved[d] == occupants[d]
        }),
        occupants[step.current.0].contains(step.entity) ==> occupants_after(occupants, step, false)
            == occupants,
{
    let moved = occupants_after(occupants, step, true);
    assert(moved.dom() =~= occupants.dom());
    if occupants[step.current.0].contains(step.entity) {
        let back = occupants_after(occupants, step, false);
        assert(back[step.current.0] =~= occupants[step.current.0]);
        assert(back =~= occupants);
    }
}

/// The move back from where a move went.
pub open spec fn reversed(step: TransferMove) -> TransferMove {
    TransferMove { current: step.target, target: step.current, ..step }
}

/// A player who occupies one dimension and not the other is counted once wherever they go:
/// the two dimensions have as many occupants together as before, and who goes there and comes
/// back leaves everything as it was.
pub proof fn law_transfer_round_trip(occupants: Occupants, step: TransferMove)
    requires
        occupants.contains_key(step.current.0),
        occupants.contains_key(step.target.0),
        step.current != step.target,
        occupants[step.current.0].contains(step.entity),
        !occupants[step.target.0].contains(step.entity),
        occupants[step.current.0].finite(),
        occupants[step.target.0].finite(),
    ensures
        ({
            let moved = occupants_after(occupants, step, true);
            &&& moved[step.current.0].len() + moved[step.target.0].len()
                == occupants[step.current.0].len() + occupants[step.target.0].len()
            &&& occupants_after(moved, reversed(step), true) == occupants
        }),
{
    let moved = occupants_after(occupants, step, true);
    let back = occupants_after(moved, reversed(step), true);
    assert(back[step.current.0] =~= occupants[step.current.0]);
    assert(back[step.target.0] =~= occupants[step.target.0]);
    assert(back =~= occupants);
}

/// Whether an entity is played by somebody: by the one local player, or by a session.
pub open spec fn is_player(entity: u64, local_players: Seq<u64>, sessions: Seq<u64>) -> bool {
    (local_players.len() == 1 && local_players[0] == entity) || sessions.contains(entity)
}

/// The moves that the request to drain `dimension` calls for: every player there goes back to
/// the default dimension.
pub open spec fn ejections_for(
    mirrors: Seq<TaggedMirror>,
    dimension: DimensionId,
    local_players: Seq<u64>,
    sessions: Seq<u64>,
) -> Seq<TransferPlayerDimension>
    decreases mirrors.len(),
{
    if mirrors.len() == 0 || dimension == default_dimension() {
        Seq::empty()
    } else {
        let before = ejections_for(mirrors.drop_last(), dimension, local_players, sessions);
        let last = mirrors.last();
        if last.dimension == dimension && is_player(last.sim_entity, local_players, sessions) {
            before.push(
                TransferPlayerDimension {
                    sim_entity: last.sim_entity,
                    target: default_dimension(),
                },
            )
        } else {
            before
        }
    }
}

/// The moves that a list of requests to drain calls for, in order.
pub open spec fn ejections(
    requests: Seq<DimensionId>,
    mirrors: Seq<TaggedMirror>,
    local_players: Seq<u64>,
    sessions: Seq<u64>,
) -> Seq<TransferPlayerDimension>
    decreases requests.len(),
{
    if requests.len() == 0 {
        Seq::empty()
    } else {
        ejections(requests.drop_last(), mirrors, local_players, sessions) + ejections_for(
            mirrors,
            requests.last(),
            local_players,
            sessions,
        )
    }
}

fn holds(entities: &Vec<u64>, entity: u64) -> (held: bool)
    ensures
        held == entities@.contains(entity),
{
    let mut i: usize = 0;
    while i < entities.len()
        invariant
            i <= entities.len(),
            forall|j: int| 0 <= j < i ==> entities@[j] != entity,
        decreases entities.len() - i,
    {
        if entities[i] == entity {
            return true;
        }
        i += 1;
    }
    false
}

/// Asks for every player in a draining dimension to be moved back to the default one, before
/// the dimension takes what is left in it along.
pub fn eject_players_before_dimension_teardown(
    requests: &Vec<DimensionId>,
    mirrors: &Vec<TaggedMirror>,
    local_players: &Vec<u64>,
    sessions: &Vec<u64>,
) -> (transfers: Vec<TransferPlayerDimension>)
    ensures
        transfers@ == ejections(requests@, mirrors@, local_players@, sessions@),
{
    let mut transfers: Vec<TransferPlayerDimension> = Vec::new();
    let mut i: usize = 0;
    while i < requests.len()
        invariant
            i <= requests.len(),
            transfers@ == ejections(
                requests@.take(i as int),
                mirrors@,
                local_players@,
                sessions@,
            ),
        decreases requests.len() - i,
    {
        let dimension = requests[i];
        let ghost before = transfers@;
        proof {
            assert(requests@.take(i as int + 1).drop_last() =~= requests@.take(i as int));
        }
        if dimension != DimensionId::default_id() {
            let mut j: usize = 0;
            assert(transfers@ =~= before + ejections_for(
                mirrors@.take(0),
                dimension,
                local_players@,
                sessions@,
            ));
            while j < mirrors.len()
                invariant
                    j <= mirrors.len(),
                    dimension != default_dimension(),
                    transfers@ == before + ejections_for(
                        mirrors@.take(j as int),
                        dimension,
                        local_players@,
                        sessions@,
                    ),
                decreases mirrors.len() - j,
            {
                proof {
                    assert(mirrors@.take(j as int + 1).drop_last() =~= mirrors@.take(j as int));
                }
                let mirror = mirrors[j];
                if mirror.dimension == dimension {
                    let local = local_players.len() == 1 && local_players[0] == mirror.sim_entity;
                    if local || holds(sessions, mirror.sim_entity) {
                        transfers.push(
                            TransferPlayerDimension {
                                sim_entity: mirror.sim_entity,
                                target: DimensionId::default_id(),
                            },
                        );
                    }
                }
                j += 1;
                assert(transfers@ =~= before + ejections_for(
                    mirrors@.take(j as int),
                    dimension,
                    local_players@,
                    sessions@,
                ));
            }
            assert(mirrors@.take(j as int) =~= mirrors@);
        } else {
            assert(transfers@ =~= before + ejections_for(
                mirrors@,
                dimension,
                local_players@,
                sessions@,
            ));
        }
        i += 1;
    }
    assert(requests@.take(i as int) =~= requests@);
    transfers
}

proof fn lemma_ejections_for(
    mirrors: Seq<TaggedMirror>,
    dimension: DimensionId,
    local_players: Seq<u64>,
    sessions: Seq<u64>,
    transfer: TransferPlayerDimension,
)
    ensures
        ejections_for(mirrors, dimension, local_players, sessions).contains(transfer) <==> {
            &&& dimension != default_dimension()
            &&& transfer.target == default_dimension()
            &&& is_player(transfer.sim_entity, local_players, sessions)
            &&& exists|m: TaggedMirror|
                #[trigger] mirrors.contains(m) && m.dimension == dimension && m.sim_entity
                    == transfer.sim_entity
        },
    decreases mirrors.len(),
{
    if mirrors.len() > 0 && dimension != default_dimension() {
        let init = mirrors.drop_last();
        let last = mirrors.last();
        lemma_ejections_for(init, dimension, local_players, sessions, transfer);
        let before = ejections_for(init, dimension, local_players, sessions);
        let added = TransferPlayerDimension {
            sim_entity: last.sim_entity,
            target: default_dimension(),
        };
        assert(before.push(added).contains(transfer) <==> before.contains(transfer) || transfer
            == added) by {
            if before.contains(transfer) {
                assert(before.push(added)[before.index_of(transfer)] == transfer);
            }
            assert(before.push(added)[before.len() as int] == added);
            if before.push(added).contains(transfer) && transfer != added {
                let k = before.push(added).index_of(transfer);
                assert(before[k] == transfer);
            }
        }
        assert forall|m: TaggedMirror| #[trigger] mirrors.contains(m) <==> init.contains(m) || m
            == last by {
            if init.contains(m) {
                assert(mirrors[init.index_of(m)] == m);
            }
            if mirrors.contains(m) && m != last {
                assert(init[mirrors.index_of(m)] == m);
            }
            assert(mirrors[mirrors.len() - 1] == last);
        }
        assert(mirrors.contains(last));
        if exists|m: TaggedMirror|
            #[trigger] init.contains(m) && m.dimension == dimension && m.sim_entity
                == transfer.sim_entity {
            let m = choose|m: TaggedMirror|
                #[trigger] init.contains(m) && m.dimension == dimension && m.sim_entity
                    == transfer.sim_entity;
            assert(mirrors.contains(m));
        }
    }
}

/// Exactly the players in a draining dimension are moved, and always to the default one:
/// whoever is no player stays, and nobody in the default dimension is moved.
pub proof fn law_ejects_exactly_the_players(
    requests: Seq<DimensionId>,
    mirrors: Seq<TaggedMirror>,
    local_players: Seq<u64>,
    sessions: Seq<u64>,
    transfer: TransferPlayerDimension,
)
    ensures
        ejections(requests, mirrors, local_players, sessions).contains(transfer) <==> {
            &&& transfer.target == default_dimension()
            &&& is_player(transfer.sim_entity, local_players, sessions)
            &&& exists|m: TaggedMirror|
                #[trigger] mirrors.contains(m) && m.dimension != default_dimension()
                    && requests.contains(m.dimension) && m.sim_entity == transfer.sim_entity
        },
    decreases requests.len(),
{
    if requests.len() > 0 {
        let init = requests.drop_last();
        let last = requests.last();
        law_ejects_exactly_the_players(init, mirrors, local_players, sessions, transfer);
        lemma_ejections_for(mirrors, last, local_players, sessions, transfer);
        let head = ejections(init, mirrors, local_players, sessions);
        let tail = ejections_for(mirrors, last, local_players, sessions);
        assert((head + tail).contains(transfer) <==> head.contains(transfer) || tail.contains(
            transfer,
        )) by {
            if head.contains(transfer) {
                assert((head + tail)[head.index_of(transfer)] == transfer);
            }
            if tail.contains(transfer) {
                assert((head + tail)[head.len() + tail.index_of(transfer)] == transfer);
            }
            if (head + tail).contains(transfer) {
                let k = (head + tail).index_of(transfer);
                if k < head.len() {
                    assert(head[k] == transfer);
                } else {
                    assert(tail[k - head.len()] == transfer);
                }
            }
        }
        assert forall|d: DimensionId| #[trigger] requests.contains(d) <==> init.contains(d) || d
            == last by {
            if init.contains(d) {
                assert(requests[init.index_of(d)] == d);
            }
            if requests.contains(d) && d != last {
                assert(init[requests.index_of(d)] == d);
            }
            assert(requests[requests.len() - 1] == last);
        }
    }
}

/// The end of a move decides the dimension of the moved entity, and of no other: the target
/// where it was taken in, and what was decided before where it was not. In that case the mirror
/// goes back to the dimension that it came from.
pub proof fn law_end_decides_the_dimension(
    step: TransferMove,
    mirror: Map<u64, u64>,
    dims: Map<u64, DimensionId>,
    table: Map<u64, DimensionState>,
    sessions: Seq<ClientSession>,
    other: u64,
)
    ensures
        ({
            let joined = transferred(TransferEvent::Joined(step), mirror, dims, table, sessions).0;
            let (kept, back) = transferred(
                TransferEvent::Rejected(step),
                mirror,
                dims,
                table,
                sessions,
            );
            &&& joined.contains_key(step.sim_entity)
            &&& joined[step.sim_entity] == step.target
            &&& other != step.sim_entity ==> (joined.contains_key(other) <==> dims.contains_key(
                other,
            )) && joined[other] == dims[other]
            &&& kept == dims
            &&& match back {
                TransferAction::End(TransferEnd::RolledBack { entity, current }) => entity
                    == step.entity && current == step.current,
                _ => false,
            }
        }),
{
}

/// Who counts as a player: the one local player, where there is exactly one, and everyone whom a
/// session plays.
pub proof fn law_players_are_local_or_in_session(
    entity: u64,
    local_players: Seq<u64>,
    sessions: Seq<u64>,
)
    ensures
        local_players.len() == 1 && local_players[0] == entity ==> is_player(
            entity,
            local_players,
            sessions,
        ),
        (exists|i: int| 0 <= i < sessions.len() && #[trigger] sessions[i] == entity) ==> is_player(
            entity,
            local_players,
            sessions,
        ),
        is_player(entity, local_players, sessions) ==> (local_players.len() == 1 && local_players[0]
            == entity) || exists|i: int| 0 <= i < sessions.len() && #[trigger] sessions[i] == entity,
{
    if is_player(entity, local_players, sessions) && !(local_players.len() == 1 && local_players[0]
        == entity) {
        assert(sessions[sessions.index_of(entity)] == entity);
    }
}

/// Players are ejected request by request, in the order of the mirrors, once for each mirror
/// that is tagged with the dimension in question; from the default dimension no one is.
pub proof fn law_ejections_follow_the_requests(
    first: Seq<DimensionId>,
    rest: Seq<DimensionId>,
    mirrors: Seq<TaggedMirror>,
    local_players: Seq<u64>,
    sessions: Seq<u64>,
    dimension: DimensionId,
)
    ensures
        ejections(first + rest, mirrors, local_players, sessions) == ejections(
            first,
            mirrors,
            local_players,
            sessions,
        ) + ejections(rest, mirrors, local_players, sessions),
        ({
            let ejected = ejections(seq![dimension], mirrors, local_players, sessions);
            let players = mirrors.filter(
                |mirror: TaggedMirror|
                    mirror.dimension == dimension && is_player(
                        mirror.sim_entity,
                        local_players,
                        sessions,
                    ),
            );
            &&& dimension.0 == 0 ==> ejected.len() == 0
            &&& dimension.0 != 0 ==> ejected.len() == players.len()
            &&& dimension.0 != 0 ==> forall|k: int|
                #![trigger ejected[k]]
                #![trigger players[k]]
                0 <= k < players.len() ==> ejected[k].sim_entity == players[k].sim_entity
                    && ejected[k].target.0 == 0
        }),
    decreases rest.len(),
{
    let one = seq![dimension];
    assert(one.drop_last() =~= Seq::<DimensionId>::empty());
    assert(ejections(one.drop_last(), mirrors, local_players, sessions).len() == 0);
    assert(ejections(one, mirrors, local_players, sessions) =~= ejections_for(
        mirrors,
        dimension,
        local_players,
        sessions,
    ));
    if dimension.0 != 0 {
        lemma_ejections_of_one(mirrors, dimension, local_players, sessions);
    }
    if rest.len() == 0 {
        assert(first + rest =~= first);
    } else {
        law_ejections_follow_the_requests(
            first,
            rest.drop_last(),
            mirrors,
            local_players,
            sessions,
            dimension,
        );
        assert((first + rest).drop_last() =~= first + rest.drop_last());
    }
    assert(ejections(first + rest, mirrors, local_players, sessions) =~= ejections(
        first,
        mirrors,
        local_players,
        sessions,
    ) + ejections(rest, mirrors, local_players, sessions));
}

proof fn lemma_ejections_of_one(
    mirrors: Seq<TaggedMirror>,
    dimension: DimensionId,
    local_players: Seq<u64>,
    sessions: Seq<u64>,
)
    requires
        dimension.0 != 0,
    ensures
        ({
            let ejected = ejections_for(mirrors, dimension, local_players, sessions);
            let players = mirrors.filter(
                |mirror: TaggedMirror|
                    mirror.dimension == dimension && is_player(
                        mirror.sim_entity,
                        local_players,
                        sessions,
                    ),
            );
            &&& ejected.len() == players.len()
            &&& forall|k: int|
                #![trigger ejected[k]]
                #![trigger players[k]]
                0 <= k < players.len() ==> ejected[k].sim_entity == players[k].sim_entity
                    && ejected[k].target.0 == 0
        }),
    decreases mirrors.len(),
{
    reveal(Seq::filter);
    if mirrors.len() > 0 {
        lemma_ejections_of_one(mirrors.drop_last(), dimension, local_players, sessions);
    }
}

} // verus!
