//! What becomes of players and of everybody else when a dimension ends.

use crate::dimension_lifecycle::{
    deletions, law_teardown_deletes_exactly_the_tagged, torn_down, TaggedMirror,
};
use crate::ids::{default_dimension, DimensionId, DimensionState};
use crate::player_transfer::{
    ejections, is_player, law_ejects_exactly_the_players, TransferPlayerDimension,
};
use vstd::prelude::*;

verus! {

/// Whether an entity is ejected.
pub open spec fn is_ejected(transfers: Seq<TransferPlayerDimension>, sim_entity: u64) -> bool {
    transfers.contains(TransferPlayerDimension { sim_entity, target: default_dimension() })
}

/// A mirror once the ejections were carried out.
pub open spec fn retagged(
    mirror: TaggedMirror,
    transfers: Seq<TransferPlayerDimension>,
) -> TaggedMirror {
    if is_ejected(transfers, mirror.sim_entity) {
        TaggedMirror { dimension: default_dimension(), ..mirror }
    } else {
        mirror
    }
}

/// The mirrors once the ejections were carried out.
pub open spec fn moved(
    mirrors: Seq<TaggedMirror>,
    transfers: Seq<TransferPlayerDimension>,
) -> Seq<TaggedMirror> {
    mirrors.map_values(|mirror: TaggedMirror| retagged(mirror, transfers))
}

/// A player outlives a dimension that is drained while they are in it: they are moved to the
/// default dimension, and what is deleted with the drained one does not hold them.
pub proof fn law_players_survive_the_end(
    requests: Seq<DimensionId>,
    mirrors: Seq<TaggedMirror>,
    local_players: Seq<u64>,
    sessions: Seq<u64>,
    ids: Seq<DimensionId>,
    table: Map<u64, DimensionState>,
    player: u64,
)
    requires
        is_player(player, local_players, sessions),
        forall|m: TaggedMirror|
            #[trigger] mirrors.contains(m) && m.sim_entity == player && torn_down(table, m.dimension)
                ==> requests.contains(m.dimension),
    ensures
        ({
            let transfers = ejections(requests, mirrors, local_players, sessions);
            !deletions(ids, moved(mirrors, transfers), table).contains(player)
        }),
{
    let transfers = ejections(requests, mirrors, local_players, sessions);
    let after = moved(mirrors, transfers);
    law_teardown_deletes_exactly_the_tagged(ids, after, table, player);
    assert forall|m: TaggedMirror| #[trigger] after.contains(m) && m.sim_entity == player implies !torn_down(
        table,
        m.dimension,
    ) by {
        let k = after.index_of(m);
        let before = mirrors[k];
        assert(after[k] == retagged(before, transfers));
        assert(mirrors.contains(before));
        law_ejects_exactly_the_players(
            requests,
            mirrors,
            local_players,
            sessions,
            TransferPlayerDimension { sim_entity: player, target: default_dimension() },
        );
        if torn_down(table, before.dimension) {
            assert(is_ejected(transfers, player));
        }
    }
}

/// Everybody else ends with the dimension: who is no player keeps their tag, and is deleted
/// where the dimension that they are tagged with is torn down.
pub proof fn law_everybody_else_ends_with_the_dimension(
    requests: Seq<DimensionId>,
    mirrors: Seq<TaggedMirror>,
    local_players: Seq<u64>,
    sessions: Seq<u64>,
    ids: Seq<DimensionId>,
    table: Map<u64, DimensionState>,
    mirror: TaggedMirror,
)
    requires
        mirrors.contains(mirror),
        !is_player(mirror.sim_entity, local_players, sessions),
        ids.contains(mirror.dimension),
        torn_down(table, mirror.dimension),
    ensures
        ({
            let transfers = ejections(requests, mirrors, local_players, sessions);
            &&& moved(mirrors, transfers).contains(mirror)
            &&& deletions(ids, moved(mirrors, transfers), table).contains(mirror.sim_entity)
        }),
{
    let transfers = ejections(requests, mirrors, local_players, sessions);
    let after = moved(mirrors, transfers);
    law_ejects_exactly_the_players(
        requests,
        mirrors,
        local_players,
        sessions,
        TransferPlayerDimension { sim_entity: mirror.sim_entity, target: default_dimension() },
    );
    let k = mirrors.index_of(mirror);
    assert(after[k] == mirror);
    law_teardown_deletes_exactly_the_tagged(ids, after, table, mirror.sim_entity);
}

} // verus!
