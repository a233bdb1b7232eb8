//! What the bridge does when a dimension appears, drains or is torn down.

use crate::ids::{default_dimension, DimensionId, DimensionLifecycle, DimensionState, DimensionTable};
use crate::mirror::SimMirror;
use vstd::prelude::*;

verus! {

broadcast use vstd::std_specs::hash::group_hash_axioms;

/// Whether the default dimension was seen in the registry or entered there.
#[derive(Clone, Copy, Debug, PartialEq, Eq, Structural)]
pub struct DefaultDimensionState {
    pub wrapped: bool,
}

/// What to do about the default dimension on this tick.
#[derive(Clone, Copy, Debug, PartialEq, Eq, Structural)]
pub enum WrapStep {
    Idle,
    /// Spawn a root and enter the default dimension under it.
    Wrap,
}

impl DefaultDimensionState {
    /// The state at start-up.
    pub fn new() -> (state: DefaultDimensionState)
        ensures
            !state.wrapped,
    {
        DefaultDimensionState { wrapped: false }
    }
}

/// Enters the default dimension once: where somebody else has registered it already, that
/// counts; without a simulation there is nothing to enter yet.
pub fn ensure_default_dimension(
    state: &mut DefaultDimensionState,
    registered: bool,
    sim_present: bool,
) -> (step: WrapStep)
    ensures
        final(state).wrapped == (old(state).wrapped || registered),
        step == (if !old(state).wrapped && !registered && sim_present {
            WrapStep::Wrap
        } else {
            WrapStep::Idle
        }),
{
    if state.wrapped {
        return WrapStep::Idle;
    }
    if registered {
        state.wrapped = true;
        return WrapStep::Idle;
    }
    if !sim_present {
        return WrapStep::Idle;
    }
    WrapStep::Wrap
}

/// Takes in whether the default dimension could be entered. Returns whether the root that
/// was spawned for it has to go again, which also leaves the attempt to a later tick.
pub fn finish_wrap(state: &mut DefaultDimensionState, entered: bool) -> (despawn_root: bool)
    ensures
        final(state).wrapped == (old(state).wrapped || entered),
        despawn_root == !entered,
{
    if entered {
        state.wrapped = true;
    }
    !entered
}

/// A mirror and the dimension that it is tagged with.
#[derive(Clone, Copy, Debug, PartialEq, Eq, Structural)]
pub struct TaggedMirror {
    pub sim_entity: u64,
    pub entity: u64,
    pub dimension: DimensionId,
}

/// An occupant that leaves a dimension.
#[derive(Clone, Copy, Debug, PartialEq, Eq, Structural)]
pub struct Release {
    pub dimension: DimensionId,
    pub entity: u64,
}

/// The mirrors that are tagged with `dimension`.
pub open spec fn tagged(mirrors: Seq<TaggedMirror>, dimension: DimensionId) -> Seq<TaggedMirror> {
    mirrors.filter(|mirror: TaggedMirror| mirror.dimension == dimension)
}

/// The releases that the request to drain `dimension` calls for; none for the default one.
pub open spec fn releases_for(mirrors: Seq<TaggedMirror>, dimension: DimensionId) -> Seq<Release> {
    if dimension == default_dimension() {
        Seq::empty()
    } else {
        tagged(mirrors, dimension).map_values(
            |mirror: TaggedMirror| Release { dimension, entity: mirror.entity },
        )
    }
}

/// The releases that a list of requests to drain calls for, in order.
pub open spec fn releases(requests: Seq<DimensionId>, mirrors: Seq<TaggedMirror>) -> Seq<Release>
    decreases requests.len(),
{
    if requests.len() == 0 {
        Seq::empty()
    } else {
        releases(requests.drop_last(), mirrors) + releases_for(mirrors, requests.last())
    }
}

proof fn lemma_tagged_step(mirrors: Seq<TaggedMirror>, dimension: DimensionId, n: int)
    requires
        0 <= n < mirrors.len(),
    ensures
        tagged(mirrors.take(n + 1), dimension) == if mirrors[n].dimension == dimension {
            tagged(mirrors.take(n), dimension).push(mirrors[n])
        } else {
            tagged(mirrors.take(n), dimension)
        },
{
    reveal(Seq::filter);
    assert(mirrors.take(n + 1).drop_last() =~= mirrors.take(n));
}

/// Lets go of everything that a draining dimension holds only because the bridge mirrors
/// something there: the default dimension is never drained this way.
pub fn release_dimension_occupants_on_drain_request(
    requests: &Vec<DimensionId>,
    mirrors: &Vec<TaggedMirror>,
) -> (released: Vec<Release>)
    ensures
        released@ == releases(requests@, mirrors@),
{
    let mut released: Vec<Release> = Vec::new();
    let mut i: usize = 0;
    while i < requests.len()
        invariant
            i <= requests.len(),
            released@ == releases(requests@.take(i as int), mirrors@),
        decreases requests.len() - i,
    {
        let dimension = requests[i];
        let ghost before = released@;
        proof {
            assert(requests@.take(i as int + 1).drop_last() =~= requests@.take(i as int));
        }
        if dimension != DimensionId::default_id() {
            let mut j: usize = 0;
            assert(releases_for(mirrors@.take(0), dimension) =~= Seq::empty()) by {
                reveal(Seq::filter);
            }
            assert(released@ =~= before + releases_for(mirrors@.take(0), dimension));
            while j < mirrors.len()
                invariant
                    j <= mirrors.len(),
                    dimension != default_dimension(),
                    released@ == before + releases_for(mirrors@.take(j as int), dimension),
                decreases mirrors.len() - j,
            {
                proof {
                    lemma_tagged_step(mirrors@, dimension, j as int);
                }
                if mirrors[j].dimension == dimension {
                    released.push(Release { dimension, entity: mirrors[j].entity });
                }
                j += 1;
                assert(released@ =~= before + releases_for(mirrors@.take(j as int), dimension));
            }
            assert(mirrors@.take(j as int) =~= mirrors@);
        } else {
            assert(released@ =~= before + releases_for(mirrors@, dimension));
        }
        i += 1;
    }
    assert(requests@.take(i as int) =~= requests@);
    released
}

/// Whether a dimension is about to be removed, and with it all that is mirrored there.
pub open spec fn torn_down(table: Map<u64, DimensionState>, id: DimensionId) -> bool {
    &&& id != default_dimension()
    &&& table.contains_key(id.0)
    &&& table[id.0].lifecycle == DimensionLifecycle::Teardown
}

/// The simulation entities that the dimension `id` takes with it.
pub open spec fn deletions_for(
    mirrors: Seq<TaggedMirror>,
    table: Map<u64, DimensionState>,
    id: DimensionId,
) -> Seq<u64> {
    if torn_down(table, id) {
        tagged(mirrors, id).map_values(|mirror: TaggedMirror| mirror.sim_entity)
    } else {
        Seq::empty()
    }
}

/// The simulation entities that go with the dimensions `ids`, in order.
pub open spec fn deletions(
    ids: Seq<DimensionId>,
    mirrors: Seq<TaggedMirror>,
    table: Map<u64, DimensionState>,
) -> Seq<u64>
    decreases ids.len(),
{
    if ids.len() == 0 {
        Seq::empty()
    } else {
        deletions(ids.drop_last(), mirrors, table) + deletions_for(mirrors, table, ids.last())
    }
}

/// Lists the simulation entities that have to be deleted because the dimension that they
/// are mirrored in is torn down, and drops them from the mirror.
pub fn delete_specs_entities_for_torn_down_dimensions(
    ids: &Vec<DimensionId>,
    table: &DimensionTable,
    mirrors: &Vec<TaggedMirror>,
    mirror: &mut SimMirror,
) -> (deleted: Vec<u64>)
    ensures
        deleted@ == deletions(ids@, mirrors@, table@),
        final(mirror).0@ == old(mirror).0@.remove_keys(deleted@.to_set()),
{
    let mut deleted: Vec<u64> = Vec::new();
    let ghost entered = mirror.0@;
    let mut i: usize = 0;
    assert(entered.remove_keys(deleted@.to_set()) =~= entered);
    while i < ids.len()
        invariant
            i <= ids.len(),
            deleted@ == deletions(ids@.take(i as int), mirrors@, table@),
            mirror.0@ == entered.remove_keys(deleted@.to_set()),
        decreases ids.len() - i,
    {
        let id = ids[i];
        let ghost before = deleted@;
        proof {
            assert(ids@.take(i as int + 1).drop_last() =~= ids@.take(i as int));
        }
        let teardown = match table.get(id) {
            Some(state) => state.lifecycle == DimensionLifecycle::Teardown,
            None => false,
        };
        if id != DimensionId::default_id() && teardown {
            let mut j: usize = 0;
            assert(deletions_for(mirrors@.take(0), table@, id) =~= Seq::empty()) by {
                reveal(Seq::filter);
            }
            assert(deleted@ =~= before + deletions_for(mirrors@.take(0), table@, id));
            while j < mirrors.len()
                invariant
                    j <= mirrors.len(),
                    torn_down(table@, id),
                    deleted@ == before + deletions_for(mirrors@.take(j as int), table@, id),
                    mirror.0@ == entered.remove_keys(deleted@.to_set()),
                decreases mirrors.len() - j,
            {
                proof {
                    lemma_tagged_step(mirrors@, id, j as int);
                }
                if mirrors[j].dimension == id {
                    let ghost listed = deleted@;
                    let sim_entity = mirrors[j].sim_entity;
                    deleted.push(sim_entity);
                    mirror.0.remove(&sim_entity);
                    proof {
                        lemma_push_removes(entered, listed, sim_entity);
                    }
                }
                j += 1;
                assert(deleted@ =~= before + deletions_for(mirrors@.take(j as int), table@, id));
            }
            assert(mirrors@.take(j as int) =~= mirrors@);
        } else {
            assert(deleted@ =~= before + deletions_for(mirrors@, table@, id));
        }
        i += 1;
    }
    assert(ids@.take(i as int) =~= ids@);
    deleted
}

proof fn lemma_push_removes(map: Map<u64, u64>, keys: Seq<u64>, key: u64)
    ensures
        map.remove_keys(keys.to_set()).remove(key) == map.remove_keys(keys.push(key).to_set()),
{
    assert forall|e: u64| keys.push(key).contains(e) <==> keys.contains(e) || e == key by {
        if keys.contains(e) {
            let k = keys.index_of(e);
            assert(keys.push(key)[k] == e);
        }
        assert(keys.push(key)[keys.len() as int] == key);
    }
    assert(map.remove_keys(keys.to_set()).remove(key) =~= map.remove_keys(
        keys.push(key).to_set(),
    ));
}

proof fn lemma_tagged_contains(mirrors: Seq<TaggedMirror>, dimension: DimensionId)
    ensures
        forall|m: TaggedMirror|
            #[trigger] tagged(mirrors, dimension).contains(m) <==> mirrors.contains(m) && m.dimension
                == dimension,
    decreases mirrors.len(),
{
    reveal(Seq::filter);
    if mirrors.len() > 0 {
        let init = mirrors.drop_last();
        let last = mirrors.last();
        lemma_tagged_contains(init, dimension);
        assert forall|m: TaggedMirror|
            #[trigger] tagged(mirrors, dimension).contains(m) <==> mirrors.contains(m)
                && m.dimension == dimension by {
            assert(mirrors.contains(m) <==> init.contains(m) || m == last) by {
                if init.contains(m) {
                    let k = init.index_of(m);
                    assert(mirrors[k] == m);
                }
                if mirrors.contains(m) && m != last {
                    let k = mirrors.index_of(m);
                    assert(init[k] == m);
                }
                assert(mirrors[mirrors.len() - 1] == last);
            }
            let kept = tagged(init, dimension);
            if last.dimension == dimension {
                assert(tagged(mirrors, dimension) == kept.push(last));
                if kept.contains(m) {
                    let k = kept.index_of(m);
                    assert(kept.push(last)[k] == m);
                }
                assert(kept.push(last)[kept.len() as int] == last);
                if kept.push(last).contains(m) && m != last {
                    let k = kept.push(last).index_of(m);
                    assert(kept[k] == m);
                }
            } else {
                assert(tagged(mirrors, dimension) == kept);
            }
        }
    }
}

/// Every release is of a mirror that is tagged with the dimension it leaves, which was asked
/// to drain and is not the default one, and every such mirror is released.
pub proof fn law_drain_releases_exactly_the_tagged(
    requests: Seq<DimensionId>,
    mirrors: Seq<TaggedMirror>,
    release: Release,
)
    ensures
        releases(requests, mirrors).contains(release) <==> {
            &&& requests.contains(release.dimension)
            &&& release.dimension != default_dimension()
            &&& exists|m: TaggedMirror|
                #[trigger] mirrors.contains(m) && m.dimension == release.dimension && m.entity
                    == release.entity
        },
    decreases requests.len(),
{
    if requests.len() > 0 {
        let init = requests.drop_last();
        let last = requests.last();
        law_drain_releases_exactly_the_tagged(init, mirrors, release);
        lemma_tagged_contains(mirrors, last);
        let head = releases(init, mirrors);
        let tail = releases_for(mirrors, last);
        assert((head + tail).contains(release) <==> head.contains(release) || tail.contains(
            release,
        )) by {
            if head.contains(release) {
                assert((head + tail)[head.index_of(release)] == release);
            }
            if tail.contains(release) {
                assert((head + tail)[head.len() + tail.index_of(release)] == release);
            }
            if (head + tail).contains(release) {
                let k = (head + tail).index_of(release);
                if k < head.len() {
                    assert(head[k] == release);
                } else {
                    assert(tail[k - head.len()] == release);
                }
            }
        }
        assert(requests.contains(release.dimension) <==> init.contains(release.dimension)
            || release.dimension == last) by {
            if init.contains(release.dimension) {
                assert(requests[init.index_of(release.dimension)] == release.dimension);
            }
            if requests.contains(release.dimension) && release.dimension != last {
                assert(init[requests.index_of(release.dimension)] == release.dimension);
            }
            assert(requests[requests.len() - 1] == last);
        }
        if last != default_dimension() {
            let kept = tagged(mirrors, last);
            if tail.contains(release) {
                let k = tail.index_of(release);
                assert(kept.contains(kept[k]));
                assert(mirrors.contains(kept[k]));
            }
            if release.dimension == last && exists|m: TaggedMirror|
                #[trigger] mirrors.contains(m) && m.dimension == release.dimension && m.entity
                    == release.entity {
                let m = choose|m: TaggedMirror|
                    #[trigger] mirrors.contains(m) && m.dimension == release.dimension && m.entity
                        == release.entity;
                assert(kept.contains(m));
                let k = kept.index_of(m);
                assert(tail[k] == release);
            }
        }
    }
}

/// A simulation entity is deleted if and only if it is mirrored in one of the listed
/// dimensions that are torn down; nothing that is mirrored in the default dimension goes.
pub proof fn law_teardown_deletes_exactly_the_tagged(
    ids: Seq<DimensionId>,
    mirrors: Seq<TaggedMirror>,
    table: Map<u64, DimensionState>,
    sim_entity: u64,
)
    ensures
        deletions(ids, mirrors, table).contains(sim_entity) <==> exists|m: TaggedMirror|
            #[trigger] mirrors.contains(m) && m.sim_entity == sim_entity && ids.contains(m.dimension)
                && torn_down(table, m.dimension),
    decreases ids.len(),
{
    if ids.len() > 0 {
        let init = ids.drop_last();
        let last = ids.last();
        law_teardown_deletes_exactly_the_tagged(init, mirrors, table, sim_entity);
        lemma_tagged_contains(mirrors, last);
        let head = deletions(init, mirrors, table);
        let tail = deletions_for(mirrors, table, last);
        assert((head + tail).contains(sim_entity) <==> head.contains(sim_entity) || tail.contains(
            sim_entity,
        )) by {
            if head.contains(sim_entity) {
                assert((head + tail)[head.index_of(sim_entity)] == sim_entity);
            }
            if tail.contains(sim_entity) {
                assert((head + tail)[head.len() + tail.index_of(sim_entity)] == sim_entity);
            }
            if (head + tail).contains(sim_entity) {
                let k = (head + tail).index_of(sim_entity);
                if k < head.len() {
                    assert(head[k] == sim_entity);
                } else {
                    assert(tail[k - head.len()] == sim_entity);
                }
            }
        }
        assert forall|d: DimensionId| #[trigger] ids.contains(d) <==> init.contains(d) || d == last by {
            if init.contains(d) {
                assert(ids[init.index_of(d)] == d);
            }
            if ids.contains(d) && d != last {
                assert(init[ids.index_of(d)] == d);
            }
            assert(ids[ids.len() - 1] == last);
        }
        let kept = tagged(mirrors, last);
        if tail.contains(sim_entity) {
            let k = tail.index_of(sim_entity);
            assert(kept.contains(kept[k]));
            assert(mirrors.contains(kept[k]));
        }
        if exists|m: TaggedMirror|
            #[trigger] mirrors.contains(m) && m.sim_entity == sim_entity && ids.contains(m.dimension)
                && torn_down(table, m.dimension) {
            let m = choose|m: TaggedMirror|
                #[trigger] mirrors.contains(m) && m.sim_entity == sim_entity && ids.contains(
                    m.dimension,
                ) && torn_down(table, m.dimension);
            if m.dimension == last {
                assert(kept.contains(m));
                assert(tail[kept.index_of(m)] == sim_entity);
            }
        }
    }
}

/// A dimension is at its end exactly where it is registered as torn down; the default dimension
/// never is.
pub proof fn law_default_dimension_never_ends(table: Map<u64, DimensionState>, id: DimensionId)
    ensures
        torn_down(table, id) <==> id.0 != 0 && table.contains_key(id.0) && table[id.0].lifecycle
            is Teardown,
{
}

/// Occupants are released request by request, in the order of the mirrors, once for each mirror
/// that is tagged with the dimension in question; from the default dimension none is.
pub proof fn law_releases_follow_the_requests(
    first: Seq<DimensionId>,
    rest: Seq<DimensionId>,
    mirrors: Seq<TaggedMirror>,
    dimension: DimensionId,
)
    ensures
        releases(first + rest, mirrors) == releases(first, mirrors) + releases(rest, mirrors),
        ({
            let released = releases(seq![dimension], mirrors);
            let there = mirrors.filter(|mirror: TaggedMirror| mirror.dimension == dimension);
            &&& dimension.0 == 0 ==> released.len() == 0
            &&& dimension.0 != 0 ==> released.len() == there.len() && forall|k: int|
                #![trigger released[k]]
                #![trigger there[k]]
                0 <= k < there.len() ==> released[k].dimension == dimension && released[k].entity
                    == there[k].entity
        }),
    decreases rest.len(),
{
    let one = seq![dimension];
    assert(one.drop_last() =~= Seq::<DimensionId>::empty());
    assert(releases(one.drop_last(), mirrors).len() == 0);
    assert(releases(one, mirrors) =~= releases_for(mirrors, dimension));
    if rest.len() == 0 {
        assert(first + rest =~= first);
    } else {
        law_releases_follow_the_requests(first, rest.drop_last(), mirrors, dimension);
        assert((first + rest).drop_last() =~= first + rest.drop_last());
    }
    assert(releases(first + rest, mirrors) =~= releases(first, mirrors) + releases(rest, mirrors));
}

/// Entities are deleted dimension by dimension, in the order of the mirrors, once for each
/// mirror that is tagged with a dimension at its end.
pub proof fn law_deletions_follow_the_dimensions(
    first: Seq<DimensionId>,
    rest: Seq<DimensionId>,
    mirrors: Seq<TaggedMirror>,
    table: Map<u64, DimensionState>,
    dimension: DimensionId,
)
    ensures
        deletions(first + rest, mirrors, table) == deletions(first, mirrors, table) + deletions(
            rest,
            mirrors,
            table,
        ),
        deletions(seq![dimension], mirrors, table) == (if dimension.0 != 0 && table.contains_key(
            dimension.0,
        ) && table[dimension.0].lifecycle is Teardown {
            mirrors.filter(|mirror: TaggedMirror| mirror.dimension == dimension).map_values(
                |mirror: TaggedMirror| mirror.sim_entity,
            )
        } else {
            Seq::empty()
        }),
    decreases rest.len(),
{
    let one = seq![dimension];
    assert(one.drop_last() =~= Seq::<DimensionId>::empty());
    assert(deletions(one.drop_last(), mirrors, table).len() == 0);
    assert(deletions(one, mirrors, table) =~= deletions_for(mirrors, table, dimension));
    if rest.len() == 0 {
        assert(first + rest =~= first);
    } else {
        law_deletions_follow_the_dimensions(first, rest.drop_last(), mirrors, table, dimension);
        assert((first + rest).drop_last() =~= first + rest.drop_last());
    }
    assert(deletions(first + rest, mirrors, table) =~= deletions(first, mirrors, table)
        + deletions(rest, mirrors, table));
}

} // verus!
