//! The event chain: from an event file to a dimension of its own, the characters in it, the
//! players who walk into it, and its end.

use crate::float_bits::{
    at_least_zero, below, chunks_over, float_at_least_zero, float_chunks_over,
    lemma_chunks_over_at_most, within_i32,
};
use crate::ids::{default_dimension, DimensionId, DimensionLifecycle, DimensionState, DimensionTable};
use crate::keys::keys_of;
use crate::mirror::{dimension_for, dimension_of, SimEntityDimension};
use crate::net_value::models;
use crate::once_list::{fresh, OnceList};
use crate::player_transfer::TransferPlayerDimension;
use crate::text::{copy_text, join, text_of};
use std::collections::HashMap;
use vstd::arithmetic::power2::{lemma2_to64, pow2};
use vstd::prelude::*;

verus! {

broadcast use vstd::std_specs::hash::group_hash_axioms;

/// The seed of the terrain of every event dimension.
pub const EVENT_BASE_SEED: u32 = 0;

/// The size of a world, as binary logarithms of its extents in chunks.
#[derive(Clone, Copy, Debug, PartialEq, Eq, Structural)]
pub struct GenOpts {
    pub x_lg: u32,
    pub y_lg: u32,
}

/// The size of an event dimension.
pub open spec fn event_opts() -> GenOpts {
    GenOpts { x_lg: 5, y_lg: 5 }
}

/// The size of an event dimension.
pub fn event_gen_opts() -> (opts: GenOpts)
    ensures
        opts == event_opts(),
{
    GenOpts { x_lg: 5, y_lg: 5 }
}

/// Where the template under an identifier is stored.
pub open spec fn template_path(id: Seq<char>) -> Seq<char> {
    "xindeler/entity_templates/"@ + id + ".entity_template.ron"@
}

/// Where the template under an identifier is stored.
pub fn entity_template_asset_path(id: &str) -> (path: String)
    ensures
        path@ == template_path(id@),
{
    let head = join("xindeler/entity_templates/", id);
    join(head.as_str(), ".entity_template.ron")
}

/// The identifier of the next event dimension.
#[derive(Clone, Copy, Debug, PartialEq, Eq, Structural)]
pub struct NextDimensionId(pub u64);

impl NextDimensionId {
    /// The first event dimension follows the default one.
    pub fn new() -> (next: NextDimensionId)
        ensures
            next.0 == 1,
    {
        NextDimensionId(1)
    }

    /// Hands out an identifier, which is never handed out again.
    pub fn allocate(&mut self) -> (id: DimensionId)
        requires
            old(self).0 < u64::MAX,
        ensures
            id == DimensionId(old(self).0),
            final(self).0 == old(self).0 + 1,
    {
        let id = DimensionId(self.0);
        self.0 = self.0 + 1;
        id
    }
}

/// How far an event has come.
#[derive(Clone, Copy, Debug, PartialEq, Eq, Structural)]
pub struct ActiveEvent {
    pub dimension: DimensionId,
    /// Its dimension has become active.
    pub active: bool,
    /// Its characters were spawned, or will not be.
    pub spawned: bool,
    pub retired: bool,
}

/// The events that are under way, by asset.
pub struct OracleEventRegistry(pub HashMap<u64, ActiveEvent>);

/// What happened to an asset.
#[derive(Clone, Copy, Debug, PartialEq, Eq, Structural)]
pub enum AssetNoticeKind {
    Added,
    Modified,
    Other,
}

/// A notice about an event's asset. `loaded` says whether the asset can be read.
pub struct EventNotice {
    pub kind: AssetNoticeKind,
    pub asset: u64,
    pub loaded: bool,
    pub on_enter_message: Option<String>,
}

/// An event that was taken in: its dimension has to be spun up, and its message, if it has
/// one, shown to whoever enters.
pub struct IngestedEvent {
    pub asset: u64,
    pub dimension: DimensionId,
    pub base_seed: u32,
    pub on_enter_message: Option<String>,
}

/// An [`IngestedEvent`] over text.
pub ghost struct IngestedModel {
    pub asset: u64,
    pub dimension: DimensionId,
    pub base_seed: u32,
    pub on_enter_message: Option<Seq<char>>,
}

impl View for IngestedEvent {
    type V = IngestedModel;

    open spec fn view(&self) -> IngestedModel {
        IngestedModel {
            asset: self.asset,
            dimension: self.dimension,
            base_seed: self.base_seed,
            on_enter_message: text_of(self.on_enter_message),
        }
    }
}

/// Whether a notice brings an event that is not under way yet.
pub open spec fn brings_event(notice: EventNotice, events: Map<u64, ActiveEvent>) -> bool {
    (notice.kind is Added || notice.kind is Modified) && !events.contains_key(notice.asset)
        && notice.loaded
}

/// A fresh event in a dimension.
pub open spec fn fresh_event(dimension: DimensionId) -> ActiveEvent {
    ActiveEvent { dimension, active: false, spawned: false, retired: false }
}

/// Takes in a list of notices, in order: the events then under way, the next free identifier,
/// and what was taken in.
pub open spec fn ingest(
    notices: Seq<EventNotice>,
    events: Map<u64, ActiveEvent>,
    next: int,
) -> (Map<u64, ActiveEvent>, int, Seq<IngestedModel>)
    decreases notices.len(),
{
    if notices.len() == 0 {
        (events, next, Seq::empty())
    } else {
        let before = ingest(notices.drop_last(), events, next);
        let notice = notices.last();
        if brings_event(notice, before.0) {
            let dimension = DimensionId(before.1 as u64);
            (
                before.0.insert(notice.asset, fresh_event(dimension)),
                before.1 + 1,
                before.2.push(
                    IngestedModel {
                        asset: notice.asset,
                        dimension,
                        base_seed: EVENT_BASE_SEED,
                        on_enter_message: text_of(notice.on_enter_message),
                    },
                ),
            )
        } else {
            before
        }
    }
}

proof fn lemma_ingest_grows(
    notices: Seq<EventNotice>,
    n: int,
    events: Map<u64, ActiveEvent>,
    next: int,
)
    requires
        0 <= n <= notices.len(),
    ensures
        next <= ingest(notices.take(n), events, next).1 <= ingest(notices, events, next).1,
    decreases notices.len(),
{
    if n == notices.len() {
        assert(notices.take(n) =~= notices);
        if n > 0 {
            lemma_ingest_grows(notices.drop_last(), n - 1, events, next);
            assert(notices.drop_last().take(n - 1) =~= notices.drop_last());
        }
    } else {
        assert(notices.drop_last().take(n) =~= notices.take(n));
        lemma_ingest_grows(notices.drop_last(), n, events, next);
    }
}

/// Takes in new events: each gets a dimension of its own. A notice about an event that is
/// under way changes nothing, and neither does one about an asset that cannot be read yet.
pub fn ingest_dm_events(
    notices: &Vec<EventNotice>,
    next_id: &mut NextDimensionId,
    registry: &mut OracleEventRegistry,
) -> (ingested: Vec<IngestedEvent>)
    requires
        ingest(notices@, old(registry).0@, old(next_id).0 as int).1 <= u64::MAX,
    ensures
        ({
            let taken = ingest(notices@, old(registry).0@, old(next_id).0 as int);
            &&& final(registry).0@ == taken.0
            &&& final(next_id).0 == taken.1
            &&& models(ingested@) == taken.2
        }),
{
    let ghost events = registry.0@;
    let ghost next = next_id.0 as int;
    let mut ingested: Vec<IngestedEvent> = Vec::new();
    let mut i: usize = 0;
    assert(models(ingested@) =~= Seq::<IngestedModel>::empty());
    while i < notices.len()
        invariant
            i <= notices.len(),
            ingest(notices@, events, next).1 <= u64::MAX,
            registry.0@ == ingest(notices@.take(i as int), events, next).0,
            next_id.0 == ingest(notices@.take(i as int), events, next).1,
            models(ingested@) == ingest(notices@.take(i as int), events, next).2,
        decreases notices.len() - i,
    {
        let ghost before = ingested@;
        proof {
            assert(notices@.take(i as int + 1).drop_last() =~= notices@.take(i as int));
            lemma_ingest_grows(notices@, i as int + 1, events, next);
        }
        let notice = &notices[i];
        let relevant = match notice.kind {
            AssetNoticeKind::Added => true,
            AssetNoticeKind::Modified => true,
            AssetNoticeKind::Other => false,
        };
        if relevant && !registry.0.contains_key(&notice.asset) && notice.loaded {
            let dimension = next_id.allocate();
            registry.0.insert(
                notice.asset,
                ActiveEvent { dimension, active: false, spawned: false, retired: false },
            );
            let event = IngestedEvent {
                asset: notice.asset,
                dimension,
                base_seed: EVENT_BASE_SEED,
                on_enter_message: copy_text(&notice.on_enter_message),
            };
            ingested.push(event);
            assert(models(ingested@) =~= models(before).push(event@));
        }
        i += 1;
    }
    assert(notices@.take(i as int) =~= notices@);
    ingested
}

/// No two events under way share a dimension, none is in the default one, and every one lies
/// below the next identifier.
pub open spec fn well_formed(events: Map<u64, ActiveEvent>, next: int) -> bool {
    &&& next >= 1
    &&& forall|a: u64|
        #[trigger] events.contains_key(a) ==> 1 <= events[a].dimension.0 < next
    &&& forall|a: u64, b: u64|
        #![trigger events[a], events[b]]
        events.contains_key(a) && events.contains_key(b) && a != b ==> events[a].dimension
            != events[b].dimension
}

/// Taking in events keeps their dimensions apart from each other and from the default one.
pub proof fn law_event_dimensions_are_fresh(
    notices: Seq<EventNotice>,
    events: Map<u64, ActiveEvent>,
    next: int,
)
    requires
        well_formed(events, next),
        ingest(notices, events, next).1 <= u64::MAX,
    ensures
        well_formed(ingest(notices, events, next).0, ingest(notices, events, next).1),
        forall|k: int|
            0 <= k < ingest(notices, events, next).2.len() ==> {
                let taken = (#[trigger] ingest(notices, events, next).2[k]);
                &&& taken.dimension != default_dimension()
                &&& next <= taken.dimension.0 < ingest(notices, events, next).1
            },
    decreases notices.len(),
{
    if notices.len() > 0 {
        let n = notices.len() - 1;
        lemma_ingest_grows(notices, n, events, next);
        assert(notices.take(n) =~= notices.drop_last());
        law_event_dimensions_are_fresh(notices.drop_last(), events, next);
    }
}

/// Dimensions are numbered in the order in which their events are taken in, without a gap.
pub proof fn law_event_dimensions_are_numbered_in_order(
    notices: Seq<EventNotice>,
    events: Map<u64, ActiveEvent>,
    next: int,
)
    requires
        0 <= next,
        ingest(notices, events, next).1 <= u64::MAX,
    ensures
        ingest(notices, events, next).1 == next + ingest(notices, events, next).2.len(),
        forall|k: int|
            0 <= k < ingest(notices, events, next).2.len() ==> (#[trigger] ingest(
                notices,
                events,
                next,
            ).2[k]).dimension == DimensionId((next + k) as u64) && next + k <= u64::MAX,
    decreases notices.len(),
{
    if notices.len() > 0 {
        let n = notices.len() - 1;
        lemma_ingest_grows(notices, n, events, next);
        assert(notices.take(n) =~= notices.drop_last());
        law_event_dimensions_are_numbered_in_order(notices.drop_last(), events, next);
    }
}

/// An event that is under way is never taken in a second time.
pub proof fn law_event_is_ingested_once(
    notices: Seq<EventNotice>,
    events: Map<u64, ActiveEvent>,
    next: int,
    asset: u64,
)
    requires
        events.contains_key(asset),
    ensures
        ingest(notices, events, next).0.contains_key(asset),
        ingest(notices, events, next).0[asset] == events[asset],
        forall|k: int|
            0 <= k < ingest(notices, events, next).2.len() ==> (#[trigger] ingest(
                notices,
                events,
                next,
            ).2[k]).asset != asset,
    decreases notices.len(),
{
    if notices.len() > 0 {
        law_event_is_ingested_once(notices.drop_last(), events, next, asset);
    }
}

/// The event after its dimension is or is not among those that became active.
pub open spec fn activated_event(event: ActiveEvent, activated: Seq<DimensionId>) -> ActiveEvent {
    ActiveEvent { active: event.active || activated.contains(event.dimension), ..event }
}

/// The events after some dimensions became active.
pub open spec fn activated_events(
    events: Map<u64, ActiveEvent>,
    activated: Seq<DimensionId>,
) -> Map<u64, ActiveEvent> {
    events.map_values(|event: ActiveEvent| activated_event(event, activated))
}

fn lists(dimensions: &Vec<DimensionId>, dimension: DimensionId) -> (listed: bool)
    ensures
        listed == dimensions@.contains(dimension),
{
    let mut i: usize = 0;
    while i < dimensions.len()
        invariant
            i <= dimensions.len(),
            forall|j: int| 0 <= j < i ==> dimensions@[j] != dimension,
        decreases dimensions.len() - i,
    {
        if dimensions[i] == dimension {
            return true;
        }
        i += 1;
    }
    false
}

/// Notes which events' dimensions became active.
pub fn mark_activated(registry: &mut OracleEventRegistry, activated: &Vec<DimensionId>)
    ensures
        final(registry).0@ == activated_events(old(registry).0@, activated@),
{
    let ghost events = registry.0@;
    let keys = keys_of(&registry.0);
    let mut i: usize = 0;
    while i < keys.len()
        invariant
            i <= keys.len(),
            keys@.no_duplicates(),
            keys@.to_set() == events.dom(),
            registry.0@.dom() == events.dom(),
            forall|j: int|
                0 <= j < i ==> registry.0@[#[trigger] keys@[j]] == activated_event(
                    events[keys@[j]],
                    activated@,
                ),
            forall|j: int| i <= j < keys@.len() ==> registry.0@[#[trigger] keys@[j]] == events[keys@[j]],
        decreases keys.len() - i,
    {
        let key: u64 = keys[i];
        assert(keys@.to_set().contains(key));
        let event = match registry.0.get(&key) {
            Some(event) => *event,
            None => {
                assert(false);
                return ;
            },
        };
        if lists(activated, event.dimension) {
            registry.0.insert(key, ActiveEvent { active: true, ..event });
            assert(registry.0@.dom() =~= events.dom());
        }
        i += 1;
    }
    proof {
        assert forall|key: u64| events.contains_key(key) implies registry.0@[key]
            == activated_event(events[key], activated@) by {
            assert(keys@.to_set().contains(key));
            let j = keys@.index_of(key);
            assert(keys@[j] == key);
        }
        assert(registry.0@ =~= activated_events(events, activated@));
    }
}

/// Whether an event waits for its characters.
pub open spec fn waits(event: ActiveEvent) -> bool {
    event.active && !event.spawned && !event.retired
}

/// The events that wait for their characters, each of them once, in no particular order.
pub fn pending_events(registry: &OracleEventRegistry) -> (pending: Vec<u64>)
    ensures
        pending@.no_duplicates(),
        forall|asset: u64|
            #[trigger] pending@.contains(asset) <==> registry.0@.contains_key(asset) && waits(
                registry.0@[asset],
            ),
{
    let keys = keys_of(&registry.0);
    let mut pending: Vec<u64> = Vec::new();
    let mut i: usize = 0;
    while i < keys.len()
        invariant
            i <= keys.len(),
            keys@.no_duplicates(),
            keys@.to_set() == registry.0@.dom(),
            pending@.no_duplicates(),
            forall|k: int|
                0 <= k < pending@.len() ==> keys@.take(i as int).contains(#[trigger] pending@[k]),
            forall|k: int|
                0 <= k < pending@.len() ==> registry.0@.contains_key(#[trigger] pending@[k]) && waits(
                    registry.0@[pending@[k]],
                ),
            forall|j: int|
                0 <= j < i && waits(registry.0@[#[trigger] keys@[j]]) ==> pending@.contains(keys@[j]),
        decreases keys.len() - i,
    {
        let key: u64 = keys[i];
        let ghost before = pending@;
        proof {
            assert(keys@.to_set().contains(key));
            if before.contains(key) {
                let k = before.index_of(key);
                let j = keys@.take(i as int).index_of(before[k]);
                assert(keys@[j] == keys@[i as int]);
            }
        }
        let wanted = match registry.0.get(&key) {
            Some(event) => event.active && !event.spawned && !event.retired,
            None => false,
        };
        if wanted {
            pending.push(key);
        }
        proof {
            assert forall|j: int|
                0 <= j < i + 1 && waits(registry.0@[#[trigger] keys@[j]]) implies pending@.contains(
                keys@[j],
            ) by {
                if j < i {
                    let k = before.index_of(keys@[j]);
                    assert(pending@[k] == keys@[j]);
                } else {
                    assert(pending@[before.len() as int] == key);
                }
            }
            assert forall|k: int| 0 <= k < pending@.len() implies keys@.take(
                i as int + 1,
            ).contains(#[trigger] pending@[k]) by {
                if k < before.len() {
                    let j = keys@.take(i as int).index_of(before[k]);
                    assert(keys@.take(i as int + 1)[j] == pending@[k]);
                } else {
                    assert(keys@.take(i as int + 1)[i as int] == pending@[k]);
                }
            }
        }
        i += 1;
    }
    proof {
        assert forall|asset: u64|
            #[trigger] pending@.contains(asset) <==> registry.0@.contains_key(asset) && waits(
                registry.0@[asset],
            ) by {
            if registry.0@.contains_key(asset) && waits(registry.0@[asset]) {
                assert(keys@.to_set().contains(asset));
                let j = keys@.index_of(asset);
                assert(keys@[j] == asset);
            }
        }
    }
    pending
}

/// What came of trying to spawn the characters of an event.
#[derive(Clone, Copy, Debug, PartialEq, Eq, Structural)]
pub enum SpawnStep {
    /// Nothing is done: something is missing still, and the next tick tries again, or the event
    /// does not wait for characters.
    Retry,
    /// The dimension is gone, or is active no longer: there is nothing to try any more.
    GiveUp,
    /// The characters are spawned into `dimension`, scattered by a generator with this seed.
    /// `in_world` says whether that is at the centre of a simulated world.
    Spawn { dimension: DimensionId, seed: u64, in_world: bool },
}

/// What an event's characters depend on.
#[derive(Clone, Copy, Debug, PartialEq, Eq, Structural)]
pub struct SpawnFacts {
    /// The event's asset can be read.
    pub asset_loaded: bool,
    /// All templates that it names can be read.
    pub templates_loaded: bool,
    /// Whether the terrain that characters may be scattered over is there; `None` without a
    /// simulation, where no terrain is needed.
    pub terrain_ready: Option<bool>,
}

/// Whether everything in a list is there.
pub open spec fn all_there(there: Seq<bool>) -> bool {
    forall|i: int| 0 <= i < there.len() ==> #[trigger] there[i]
}

fn every(there: &Vec<bool>) -> (yes: bool)
    ensures
        yes == all_there(there@),
{
    let mut i: usize = 0;
    while i < there.len()
        invariant
            i <= there.len(),
            forall|j: int| 0 <= j < i ==> #[trigger] there@[j],
        decreases there.len() - i,
    {
        if !there[i] {
            return false;
        }
        i += 1;
    }
    true
}

/// What an event's characters depend on, from whether each template that it names can be read
/// and whether each chunk of [`scatter_chunks`] is loaded. `chunks` is `None` without a
/// simulation.
pub fn spawn_facts(asset_loaded: bool, templates: &Vec<bool>, chunks: Option<&Vec<bool>>) -> (facts:
    SpawnFacts)
    ensures
        facts == (SpawnFacts {
            asset_loaded,
            templates_loaded: all_there(templates@),
            terrain_ready: match chunks {
                Some(chunks) => Some(all_there(chunks@)),
                None => None,
            },
        }),
{
    SpawnFacts {
        asset_loaded,
        templates_loaded: every(templates),
        terrain_ready: match chunks {
            Some(chunks) => Some(every(chunks)),
            None => None,
        },
    }
}

/// Whether a dimension is registered and active.
pub open spec fn is_active(table: Map<u64, DimensionState>, dimension: DimensionId) -> bool {
    table.contains_key(dimension.0) && table[dimension.0].lifecycle == DimensionLifecycle::Active
}

/// What comes of trying to spawn the characters of an event that waits for them.
pub open spec fn spawn_outcome(
    event: ActiveEvent,
    facts: SpawnFacts,
    table: Map<u64, DimensionState>,
) -> SpawnStep {
    if !facts.asset_loaded {
        SpawnStep::Retry
    } else if !is_active(table, event.dimension) {
        SpawnStep::GiveUp
    } else if !facts.templates_loaded || facts.terrain_ready == Some(false) {
        SpawnStep::Retry
    } else {
        SpawnStep::Spawn {
            dimension: event.dimension,
            seed: event.dimension.0,
            in_world: facts.terrain_ready is Some,
        }
    }
}

fn dimension_is_active(table: &DimensionTable, dimension: DimensionId) -> (active: bool)
    ensures
        active == is_active(table@, dimension),
{
    match table.get(dimension) {
        Some(state) => state.lifecycle == DimensionLifecycle::Active,
        None => false,
    }
}

/// What comes of trying to spawn the characters of an event, and the event afterwards. One
/// that does not wait for them is left alone.
pub open spec fn spawn_try(
    event: ActiveEvent,
    facts: SpawnFacts,
    table: Map<u64, DimensionState>,
) -> (SpawnStep, ActiveEvent) {
    let step = if waits(event) {
        spawn_outcome(event, facts, table)
    } else {
        SpawnStep::Retry
    };
    (
        step,
        if step is Retry {
            event
        } else {
            ActiveEvent { spawned: true, ..event }
        },
    )
}

fn event_waits(event: &ActiveEvent) -> (yes: bool)
    ensures
        yes == waits(*event),
{
    event.active && !event.spawned && !event.retired
}

/// Whether the templates of an event are worth asking for: only while the event waits for its
/// characters and its dimension is active.
pub fn wants_templates(
    registry: &OracleEventRegistry,
    asset: u64,
    asset_loaded: bool,
    table: &DimensionTable,
) -> (wanted: bool)
    ensures
        wanted == (asset_loaded && registry.0@.contains_key(asset) && waits(registry.0@[asset])
            && is_active(table@, registry.0@[asset].dimension)),
{
    match registry.0.get(&asset) {
        Some(event) => asset_loaded && event_waits(event) && dimension_is_active(
            table,
            event.dimension,
        ),
        None => false,
    }
}

/// Tries to spawn the characters of an event that waits for them. Once they are spawned, or
/// cannot be any more, the event waits no longer. For an event that does not wait, nothing
/// happens.
pub fn spawn_event_minions(
    registry: &mut OracleEventRegistry,
    asset: u64,
    facts: SpawnFacts,
    table: &DimensionTable,
) -> (step: SpawnStep)
    ensures
        old(registry).0@.contains_key(asset) ==> {
            let tried = spawn_try(old(registry).0@[asset], facts, table@);
            &&& step == tried.0
            &&& final(registry).0@ == old(registry).0@.insert(asset, tried.1)
        },
        !old(registry).0@.contains_key(asset) ==> step is Retry && final(registry).0@ == old(
            registry,
        ).0@,
{
    let event = match registry.0.get(&asset) {
        Some(event) => *event,
        None => {
            return SpawnStep::Retry;
        },
    };
    assert(registry.0@ =~= registry.0@.insert(asset, event));
    if !event_waits(&event) {
        return SpawnStep::Retry;
    }
    if !facts.asset_loaded {
        return SpawnStep::Retry;
    }
    if !dimension_is_active(table, event.dimension) {
        registry.0.insert(asset, ActiveEvent { spawned: true, ..event });
        return SpawnStep::GiveUp;
    }
    if !facts.templates_loaded {
        return SpawnStep::Retry;
    }
    let in_world = match facts.terrain_ready {
        Some(ready) => {
            if !ready {
                return SpawnStep::Retry;
            }
            true
        },
        None => false,
    };
    registry.0.insert(asset, ActiveEvent { spawned: true, ..event });
    SpawnStep::Spawn { dimension: event.dimension, seed: event.dimension.0, in_world }
}

/// What happens to an event that is under way: dimensions become active, or its characters
/// are tried to be spawned.
pub ghost enum Happening {
    Activated(Seq<DimensionId>),
    Tried { facts: SpawnFacts, table: Map<u64, DimensionState> },
}

/// What a happening comes to, and the event afterwards; an activation spawns nothing.
pub open spec fn happen(event: ActiveEvent, happening: Happening) -> (SpawnStep, ActiveEvent) {
    match happening {
        Happening::Activated(dimensions) => (SpawnStep::Retry, activated_event(event, dimensions)),
        Happening::Tried { facts, table } => spawn_try(event, facts, table),
    }
}

/// What a course of happenings comes to, one by one, and the event afterwards.
pub open spec fn course(event: ActiveEvent, happenings: Seq<Happening>) -> (
    Seq<SpawnStep>,
    ActiveEvent,
)
    decreases happenings.len(),
{
    if happenings.len() == 0 {
        (Seq::empty(), event)
    } else {
        let before = course(event, happenings.drop_last());
        let now = happen(before.1, happenings.last());
        (before.0.push(now.0), now.1)
    }
}

/// Whether the event's dimension became active before place `n`.
pub open spec fn was_activated(event: ActiveEvent, happenings: Seq<Happening>, n: int) -> bool {
    event.active || exists|k: int|
        0 <= k < n && (#[trigger] happenings[k] matches Happening::Activated(dimensions)
            && dimensions.contains(event.dimension))
}

/// Whether a happening is a try under which characters are spawned into a dimension: the
/// event's asset and all templates can be read, the terrain is there where any is needed, and
/// the dimension is active.
pub open spec fn all_is_ready(happening: Happening, dimension: DimensionId) -> bool {
    match happening {
        Happening::Tried { facts, table } => facts.asset_loaded && facts.templates_loaded
            && facts.terrain_ready != Some(false) && is_active(table, dimension),
        Happening::Activated(_) => false,
    }
}

/// Characters are spawned at most once for an event, whatever happens to it and however often
/// it is tried: where one try spawns them or gives up, no later one does anything.
pub proof fn law_minions_spawn_once(
    event: ActiveEvent,
    happenings: Seq<Happening>,
    i: int,
    j: int,
)
    requires
        0 <= i < j < happenings.len(),
    ensures
        course(event, happenings).0.len() == happenings.len(),
        course(event, happenings).0[i] is Retry || course(event, happenings).0[j] is Retry,
{
    lemma_course(event, happenings);
}

/// Characters are spawned only for an event whose dimension was activated, that is not retired
/// and has not spawned them yet, and only when all is ready for them.
pub proof fn law_minions_wait_until_all_is_ready(
    event: ActiveEvent,
    happenings: Seq<Happening>,
    i: int,
)
    requires
        0 <= i < happenings.len(),
        course(event, happenings).0[i] is Spawn,
    ensures
        was_activated(event, happenings, i),
        !event.retired,
        !event.spawned,
        all_is_ready(happenings[i], event.dimension),
{
    lemma_course(event, happenings);
}

proof fn lemma_course(event: ActiveEvent, happenings: Seq<Happening>)
    ensures
        ({
            let (steps, after) = course(event, happenings);
            &&& steps.len() == happenings.len()
            &&& after.dimension == event.dimension
            &&& after.retired == event.retired
            &&& event.spawned ==> after.spawned
            &&& after.active ==> was_activated(event, happenings, happenings.len() as int)
            &&& forall|k: int|
                0 <= k < steps.len() && !((#[trigger] steps[k]) is Retry) ==> after.spawned
                    && !event.spawned && !event.retired && was_activated(event, happenings, k)
            &&& forall|k: int|
                0 <= k < steps.len() && (#[trigger] steps[k]) is Spawn ==> all_is_ready(
                    happenings[k],
                    event.dimension,
                )
            &&& forall|k: int, m: int|
                #![trigger steps[k], steps[m]]
                0 <= k < m < steps.len() ==> steps[k] is Retry || steps[m] is Retry
        }),
    decreases happenings.len(),
{
    if happenings.len() > 0 {
        let init = happenings.drop_last();
        let n = init.len() as int;
        lemma_course(event, init);
        let (steps, after) = course(event, happenings);
        let before = course(event, init);
        assert forall|k: int| 0 <= k <= n && was_activated(event, init, k) implies was_activated(
            event,
            happenings,
            k,
        ) by {
            if !event.active {
                let m = choose|m: int|
                    0 <= m < k && (#[trigger] init[m] matches Happening::Activated(dimensions)
                        && dimensions.contains(event.dimension));
                assert(happenings[m] == init[m]);
            }
        }
        if after.active {
            if before.1.active {
                assert(was_activated(event, happenings, n));
                if !event.active {
                    let m = choose|m: int|
                        0 <= m < n && (#[trigger] happenings[m] matches Happening::Activated(
                            dimensions,
                        ) && dimensions.contains(event.dimension));
                    assert(0 <= m < n + 1);
                }
            } else {
                assert(happenings[n] is Activated);
            }
        }
        assert forall|k: int| 0 <= k < n implies steps[k] == before.0[k] && happenings[k]
            == init[k] by {}
    }
}

/// The scatter of an event's characters depends on its dimension alone.
pub proof fn law_scatter_seed_is_the_dimension(
    event: ActiveEvent,
    facts: SpawnFacts,
    table: Map<u64, DimensionState>,
)
    ensures
        spawn_outcome(event, facts, table) matches SpawnStep::Spawn { dimension, seed, .. } ==> seed
            == dimension.0 && dimension == event.dimension && is_active(table, dimension),
{
}

/// A position of the chunk grid.
#[derive(Clone, Copy, Debug, PartialEq, Eq, Structural)]
pub struct ChunkKey {
    pub x: i32,
    pub y: i32,
}

/// How many chunks around the centre have to be there before characters are scattered over
/// `radius` blocks: those that the radius reaches, and one more.
pub fn scatter_chunk_radius(radius: u32) -> (chunks: i32)
    requires
        chunks_over(radius) < i32::MAX,
    ensures
        chunks == within_i32(chunks_over(radius)) + 1,
{
    float_chunks_over(radius) + 1
}

/// Whether a chunk lies within `r` chunks of the centre of a world of this size, along both
/// axes.
pub open spec fn near_centre(key: ChunkKey, size_x: int, size_y: int, r: int) -> bool {
    -r <= key.x - size_x / 2 <= r && -r <= key.y - size_y / 2 <= r
}

/// The chunks that have to be there: all within `r` chunks of the centre, each of them once.
pub fn scatter_chunks(size_x: u32, size_y: u32, r: i32) -> (keys: Vec<ChunkKey>)
    requires
        size_x <= i32::MAX,
        size_y <= i32::MAX,
        size_x / 2 + r <= i32::MAX,
        size_y / 2 + r <= i32::MAX,
        r >= -i32::MAX,
    ensures
        keys@.no_duplicates(),
        forall|key: ChunkKey|
            #[trigger] keys@.contains(key) <==> near_centre(
                key,
                size_x as int,
                size_y as int,
                r as int,
            ),
{
    let cx: i64 = (size_x / 2) as i64;
    let cy: i64 = (size_y / 2) as i64;
    let mut keys: Vec<ChunkKey> = Vec::new();
    if r < 0 {
        return keys;
    }
    let reach: i64 = r as i64;
    let mut dx: i64 = -reach;
    while dx <= reach
        invariant
            0 <= r == reach,
            -r <= dx <= r + 1,
            cx == size_x / 2,
            cy == size_y / 2,
            cx + r <= i32::MAX,
            cy + r <= i32::MAX,
            0 <= cx,
            0 <= cy,
            keys@.no_duplicates(),
            forall|key: ChunkKey|
                #[trigger] keys@.contains(key) <==> near_centre(
                    key,
                    size_x as int,
                    size_y as int,
                    r as int,
                ) && key.x - cx < dx,
        decreases r + 1 - dx,
    {
        let mut dy: i64 = -reach;
        while dy <= reach
            invariant
                0 <= r == reach,
                -r <= dx <= r,
                -r <= dy <= r + 1,
                cx == size_x / 2,
                cy == size_y / 2,
                cx + r <= i32::MAX,
                cy + r <= i32::MAX,
                0 <= cx,
                0 <= cy,
                keys@.no_duplicates(),
                forall|key: ChunkKey|
                    #[trigger] keys@.contains(key) <==> near_centre(
                        key,
                        size_x as int,
                        size_y as int,
                        r as int,
                    ) && (key.x - cx < dx || (key.x - cx == dx && key.y - cy < dy)),
            decreases r + 1 - dy,
        {
            let ghost before = keys@;
            let added = ChunkKey { x: (cx + dx) as i32, y: (cy + dy) as i32 };
            assert(!before.contains(added));
            keys.push(added);
            proof {
                assert forall|key: ChunkKey| #[trigger] keys@.contains(key) <==> before.contains(key)
                    || key == added by {
                    if before.contains(key) {
                        assert(keys@[before.index_of(key)] == key);
                    }
                    assert(keys@[before.len() as int] == added);
                    if keys@.contains(key) && key != added {
                        assert(before[keys@.index_of(key)] == key);
                    }
                }
            }
            dy += 1;
        }
        dx += 1;
    }
    keys
}

/// Characters are spawned at the centre of a world only when every chunk there that they may be
/// scattered over is loaded: of `keys`, the chunks of [`scatter_chunks`], all of `loaded` hold.
pub proof fn law_ground_is_complete(
    event: ActiveEvent,
    facts: SpawnFacts,
    table: Map<u64, DimensionState>,
    size_x: int,
    size_y: int,
    r: int,
    keys: Seq<ChunkKey>,
    loaded: Seq<bool>,
    key: ChunkKey,
)
    requires
        forall|key: ChunkKey| #[trigger]
            keys.contains(key) <==> near_centre(key, size_x, size_y, r),
        loaded.len() == keys.len(),
        facts.terrain_ready == Some(all_there(loaded)),
        spawn_try(event, facts, table).0 is Spawn,
        near_centre(key, size_x, size_y, r),
    ensures
        exists|i: int| 0 <= i < keys.len() && #[trigger] keys[i] == key && loaded[i],
{
    let i = keys.index_of(key);
    assert(keys.contains(key));
    assert(loaded[i]);
}

/// The pattern of 400, the largest radius that an event may scatter its characters over.
pub const SPAWN_RADIUS_CEILING: u32 = 0x43c8_0000;

/// However far an event scatters its characters, every chunk that has to be there lies in the
/// world of the event, so that the characters do not wait for ground that never comes.
pub proof fn law_scatter_stays_in_the_world(radius: u32, key: ChunkKey)
    requires
        !below(SPAWN_RADIUS_CEILING, radius),
        ({
            let size_x = pow2(event_opts().x_lg as nat) as int;
            let size_y = pow2(event_opts().y_lg as nat) as int;
            near_centre(key, size_x, size_y, within_i32(chunks_over(radius)) + 1)
        }),
    ensures
        chunks_over(radius) < i32::MAX,
        0 <= key.x < pow2(event_opts().x_lg as nat),
        0 <= key.y < pow2(event_opts().y_lg as nat),
{
    lemma2_to64();
    lemma_chunks_over_at_most(radius);
}

/// A template that is asked for, with where it is stored.
pub struct TemplateRequest {
    pub id: String,
    pub path: String,
}

/// A [`TemplateRequest`] over text.
pub ghost struct TemplateRequestModel {
    pub id: Seq<char>,
    pub path: Seq<char>,
}

impl View for TemplateRequest {
    type V = TemplateRequestModel;

    open spec fn view(&self) -> TemplateRequestModel {
        TemplateRequestModel { id: self.id@, path: self.path@ }
    }
}

/// The templates that were asked for.
pub struct EntityTemplateHandles(pub OnceList);

/// Asks for the templates that an event names and that were not asked for before.
pub fn request_templates(handles: &mut EntityTemplateHandles, ids: &Vec<String>) -> (requests: Vec<
    TemplateRequest,
>)
    ensures
        models(requests@) == fresh(old(handles).0@, models(ids@)).map_values(
            |id: Seq<char>| TemplateRequestModel { id, path: template_path(id) },
        ),
        final(handles).0@ == old(handles).0@ + fresh(old(handles).0@, models(ids@)),
{
    let new = handles.0.note_all(ids);
    let ghost expected = models(new@).map_values(
        |id: Seq<char>| TemplateRequestModel { id, path: template_path(id) },
    );
    let mut requests: Vec<TemplateRequest> = Vec::new();
    let mut i: usize = 0;
    while i < new.len()
        invariant
            i <= new.len(),
            requests@.len() == i,
            forall|j: int|
                0 <= j < i ==> (#[trigger] requests@[j])@ == (TemplateRequestModel {
                    id: new@[j]@,
                    path: template_path(new@[j]@),
                }),
        decreases new.len() - i,
    {
        requests.push(
            TemplateRequest {
                id: new[i].clone(),
                path: entity_template_asset_path(new[i].as_str()),
            },
        );
        i += 1;
    }
    assert(models(requests@) =~= expected);
    requests
}

/// A circle of the ground, as bit patterns.
#[derive(Clone, Copy, Debug, PartialEq, Eq, Structural)]
pub struct TransferZone {
    pub origin_x: u32,
    pub origin_y: u32,
    pub radius: u32,
}

/// Where players cross into each event dimension.
pub struct EventTransferZones(pub HashMap<u64, TransferZone>);

/// Opens the zone of an event dimension; a negative radius counts as none.
pub fn open_zone(
    zones: &mut EventTransferZones,
    dimension: DimensionId,
    origin_x: u32,
    origin_y: u32,
    spawn_radius: u32,
)
    ensures
        final(zones).0@ == old(zones).0@.insert(
            dimension.0,
            (TransferZone { origin_x, origin_y, radius: at_least_zero(spawn_radius) }),
        ),
{
    zones.0.insert(
        dimension.0,
        TransferZone { origin_x, origin_y, radius: float_at_least_zero(spawn_radius) },
    );
}

/// Whether a player stands in the zone of a dimension.
#[derive(Clone, Copy, Debug, PartialEq, Eq, Structural)]
pub struct ZoneSighting {
    pub dimension: DimensionId,
    pub inside: bool,
}

/// A player's session: its entity, and where it stands in respect of all zones; `None` where
/// it has no position.
pub struct SessionSighting {
    pub sim_entity: u64,
    pub zones: Option<Vec<ZoneSighting>>,
}

/// Whether a zone can be entered where the player stands.
pub open spec fn enterable(zone: ZoneSighting, table: Map<u64, DimensionState>) -> bool {
    zone.inside && is_active(table, zone.dimension)
}

/// The first zone that can be entered, from place `from` on.
pub open spec fn first_zone(
    zones: Seq<ZoneSighting>,
    table: Map<u64, DimensionState>,
    from: int,
) -> Option<DimensionId>
    decreases zones.len() - from,
{
    if from < 0 || from >= zones.len() {
        None
    } else if enterable(zones[from], table) {
        Some(zones[from].dimension)
    } else {
        first_zone(zones, table, from + 1)
    }
}

/// Where a player crosses to. Only players in the default dimension cross, and to the first
/// active dimension in whose zone they stand.
pub open spec fn crossing(
    session: SessionSighting,
    dims: Map<u64, DimensionId>,
    table: Map<u64, DimensionState>,
) -> Option<DimensionId> {
    match session.zones {
        Some(zones) => if dimension_of(dims, session.sim_entity) == default_dimension() {
            first_zone(zones@, table, 0)
        } else {
            None
        },
        None => None,
    }
}

/// The crossings of all players, in order.
pub open spec fn crossings(
    sessions: Seq<SessionSighting>,
    dims: Map<u64, DimensionId>,
    table: Map<u64, DimensionState>,
) -> Seq<TransferPlayerDimension>
    decreases sessions.len(),
{
    if sessions.len() == 0 {
        Seq::empty()
    } else {
        let before = crossings(sessions.drop_last(), dims, table);
        match crossing(sessions.last(), dims, table) {
            Some(target) => before.push(
                TransferPlayerDimension { sim_entity: sessions.last().sim_entity, target },
            ),
            None => before,
        }
    }
}

fn find_zone(zones: &Vec<ZoneSighting>, table: &DimensionTable) -> (target: Option<DimensionId>)
    ensures
        target == first_zone(zones@, table@, 0),
{
    let mut i: usize = 0;
    while i < zones.len()
        invariant
            i <= zones.len(),
            first_zone(zones@, table@, 0) == first_zone(zones@, table@, i as int),
        decreases zones.len() - i,
    {
        if zones[i].inside && dimension_is_active(table, zones[i].dimension) {
            return Some(zones[i].dimension);
        }
        i += 1;
    }
    None
}

/// Finds the players who walk into an event dimension, each at most once.
pub fn detect_player_dimension_entry(
    sessions: &Vec<SessionSighting>,
    dims: &SimEntityDimension,
    table: &DimensionTable,
) -> (transfers: Vec<TransferPlayerDimension>)
    ensures
        transfers@ == crossings(sessions@, dims.0@, table@),
{
    let mut transfers: Vec<TransferPlayerDimension> = Vec::new();
    let mut i: usize = 0;
    while i < sessions.len()
        invariant
            i <= sessions.len(),
            transfers@ == crossings(sessions@.take(i as int), dims.0@, table@),
        decreases sessions.len() - i,
    {
        proof {
            assert(sessions@.take(i as int + 1).drop_last() =~= sessions@.take(i as int));
        }
        let session = &sessions[i];
        if let Some(zones) = &session.zones {
            if dimension_for(dims, session.sim_entity) == DimensionId::default_id() {
                if let Some(target) = find_zone(zones, table) {
                    transfers.push(
                        TransferPlayerDimension { sim_entity: session.sim_entity, target },
                    );
                }
            }
        }
        i += 1;
    }
    assert(sessions@.take(i as int) =~= sessions@);
    transfers
}

proof fn lemma_first_zone_active(
    zones: Seq<ZoneSighting>,
    table: Map<u64, DimensionState>,
    from: int,
)
    ensures
        first_zone(zones, table, from) is Some ==> is_active(
            table,
            first_zone(zones, table, from)->0,
        ),
    decreases zones.len() - from,
{
    if 0 <= from < zones.len() && !enterable(zones[from], table) {
        lemma_first_zone_active(zones, table, from + 1);
    }
}

/// Crossing goes one way and into active dimensions only: whoever crosses was in the default
/// dimension.
pub proof fn law_crossing_is_one_way(
    sessions: Seq<SessionSighting>,
    dims: Map<u64, DimensionId>,
    table: Map<u64, DimensionState>,
    k: int,
)
    requires
        0 <= k < crossings(sessions, dims, table).len(),
    ensures
        ({
            let transfer = crossings(sessions, dims, table)[k];
            &&& dimension_of(dims, transfer.sim_entity) == default_dimension()
            &&& is_active(table, transfer.target)
        }),
    decreases sessions.len(),
{
    let init = sessions.drop_last();
    if k < crossings(init, dims, table).len() {
        law_crossing_is_one_way(init, dims, table, k);
    } else {
        lemma_first_zone_active(sessions.last().zones->0@, table, 0);
    }
}

/// Whether the file of an event is still there.
#[derive(Clone, Copy, Debug, PartialEq, Eq, Structural)]
pub struct FileStatus {
    pub asset: u64,
    pub exists: bool,
}

/// An event that came to its end, with the dimension that has to be drained.
#[derive(Clone, Copy, Debug, PartialEq, Eq, Structural)]
pub struct RetiredEvent {
    pub asset: u64,
    pub dimension: DimensionId,
}

/// Ends the events whose files are gone, in order: the events then under way, and what ended.
/// Only an event with a known file comes to an end this way.
pub open spec fn retire(
    files: Seq<FileStatus>,
    events: Map<u64, ActiveEvent>,
) -> (Map<u64, ActiveEvent>, Seq<RetiredEvent>)
    decreases files.len(),
{
    if files.len() == 0 {
        (events, Seq::empty())
    } else {
        let before = retire(files.drop_last(), events);
        let file = files.last();
        if !file.exists && before.0.contains_key(file.asset) && !before.0[file.asset].retired {
            (
                before.0.remove(file.asset),
                before.1.push(
                    RetiredEvent {
                        asset: file.asset,
                        dimension: before.0[file.asset].dimension,
                    },
                ),
            )
        } else {
            before
        }
    }
}

/// Ends the events whose files are gone. A file that comes back later starts a new event.
pub fn retire_dm_events(
    files: &Vec<FileStatus>,
    registry: &mut OracleEventRegistry,
) -> (retired: Vec<RetiredEvent>)
    ensures
        (final(registry).0@, retired@) == retire(files@, old(registry).0@),
{
    let ghost events = registry.0@;
    let mut retired: Vec<RetiredEvent> = Vec::new();
    let mut i: usize = 0;
    while i < files.len()
        invariant
            i <= files.len(),
            (registry.0@, retired@) == retire(files@.take(i as int), events),
        decreases files.len() - i,
    {
        proof {
            assert(files@.take(i as int + 1).drop_last() =~= files@.take(i as int));
        }
        let file = files[i];
        if !file.exists {
            let event = match registry.0.get(&file.asset) {
                Some(event) => Some(*event),
                None => None,
            };
            if let Some(event) = event {
                if !event.retired {
                    registry.0.remove(&file.asset);
                    retired.push(RetiredEvent { asset: file.asset, dimension: event.dimension });
                }
            }
        }
        i += 1;
    }
    assert(files@.take(i as int) =~= files@);
    retired
}

/// An event that came to its end is forgotten, so that a notice about its asset starts a new
/// event in a new dimension.
pub proof fn law_retired_event_can_return(
    files: Seq<FileStatus>,
    events: Map<u64, ActiveEvent>,
    next: int,
    notice: EventNotice,
    k: int,
)
    requires
        0 <= k < retire(files, events).1.len(),
        notice.kind is Added,
        notice.loaded,
        notice.asset == retire(files, events).1[k].asset,
    ensures
        brings_event(notice, retire(files, events).0),
        ingest(seq![notice], retire(files, events).0, next).2.len() == 1,
    decreases files.len(),
{
    lemma_retired_is_gone(files, events, k);
    let one = seq![notice];
    let left = retire(files, events).0;
    assert(one.drop_last() =~= Seq::empty());
    assert(ingest(one.drop_last(), left, next) == (left, next, Seq::<IngestedModel>::empty()));
}

proof fn lemma_retired_is_gone(files: Seq<FileStatus>, events: Map<u64, ActiveEvent>, k: int)
    requires
        0 <= k < retire(files, events).1.len(),
    ensures
        !retire(files, events).0.contains_key(retire(files, events).1[k].asset),
    decreases files.len(),
{
    let before = retire(files.drop_last(), events);
    if k < before.1.len() {
        lemma_retired_is_gone(files.drop_last(), events, k);
    }
}

/// Whether some row finds the file of an event missing.
pub open spec fn found_missing(files: Seq<FileStatus>, asset: u64) -> bool {
    exists|i: int| 0 <= i < files.len() && (#[trigger] files[i]).asset == asset && !files[i].exists
}

proof fn lemma_found_missing(files: Seq<FileStatus>, asset: u64)
    requires
        files.len() > 0,
    ensures
        found_missing(files, asset) <==> found_missing(files.drop_last(), asset) || (
        files.last().asset == asset && !files.last().exists),
{
    let init = files.drop_last();
    if found_missing(init, asset) {
        let i = choose|i: int|
            0 <= i < init.len() && (#[trigger] init[i]).asset == asset && !init[i].exists;
        assert(files[i].asset == asset);
    }
    if files.last().asset == asset && !files.last().exists {
        assert(files[files.len() - 1].asset == asset);
    }
    if found_missing(files, asset) {
        let i = choose|i: int|
            0 <= i < files.len() && (#[trigger] files[i]).asset == asset && !files[i].exists;
        if i < init.len() {
            assert(init[i].asset == asset);
        }
    }
}

/// An event comes to its end exactly where it is under way, has not come to it before and
/// some row finds its file missing, however far it had got: whether its dimension was active
/// and whether its minions were spawned do not count. It is then listed with its own
/// dimension, once, and is no longer under way. Every other event stays as it is.
pub proof fn law_every_missing_file_retires(
    files: Seq<FileStatus>,
    events: Map<u64, ActiveEvent>,
    asset: u64,
)
    ensures
        ({
            let (left, ended) = retire(files, events);
            let ends = events.contains_key(asset) && !events[asset].retired && found_missing(
                files,
                asset,
            );
            &&& ends ==> ended.contains(
                RetiredEvent { asset, dimension: events[asset].dimension },
            )
            &&& ends <==> exists|k: int| 0 <= k < ended.len() && (#[trigger] ended[k]).asset == asset
            &&& left.contains_key(asset) <==> events.contains_key(asset) && !ends
            &&& left.contains_key(asset) ==> left[asset] == events[asset]
            &&& forall|j: int, k: int|
                0 <= j < k < ended.len() ==> (#[trigger] ended[j]).asset != (
                #[trigger] ended[k]).asset
        }),
    decreases files.len(),
{
    if files.len() > 0 {
        let init = files.drop_last();
        let last = files.last();
        let (left, ended) = retire(init, events);
        let after = retire(files, events);
        law_every_missing_file_retires(init, events, asset);
        law_every_missing_file_retires(init, events, last.asset);
        lemma_found_missing(files, asset);
        lemma_found_missing(files, last.asset);
        if after.1.len() > ended.len() {
            assert(after.1[ended.len() as int].asset == last.asset);
            assert forall|j: int| 0 <= j < ended.len() implies (#[trigger] ended[j]).asset
                != last.asset by {
                lemma_retired_is_gone(init, events, j);
            }
        }
        assert forall|j: int| 0 <= j < ended.len() implies after.1[j] == #[trigger] ended[j] by {}
        let gone = RetiredEvent { asset, dimension: events[asset].dimension };
        if ended.contains(gone) {
            assert(after.1[ended.index_of(gone)] == gone);
        }
        if exists|k: int| 0 <= k < ended.len() && (#[trigger] ended[k]).asset == asset {
            let k = choose|k: int| 0 <= k < ended.len() && (#[trigger] ended[k]).asset == asset;
            assert(after.1[k].asset == asset);
        }
        if exists|k: int| 0 <= k < after.1.len() && (#[trigger] after.1[k]).asset == asset {
            let k = choose|k: int| 0 <= k < after.1.len() && (#[trigger] after.1[k]).asset == asset;
            if k < ended.len() {
                assert(ended[k].asset == asset);
            }
        }
    }
}

/// Every event that came to its end was under way, its dimension is the one it had, and its
/// file was found missing.
pub proof fn law_only_missing_files_retire(
    files: Seq<FileStatus>,
    events: Map<u64, ActiveEvent>,
    k: int,
)
    requires
        0 <= k < retire(files, events).1.len(),
    ensures
        ({
            let ended = retire(files, events).1[k];
            &&& events.contains_key(ended.asset)
            &&& ended.dimension == events[ended.asset].dimension
            &&& files.contains(FileStatus { asset: ended.asset, exists: false })
        }),
    decreases files.len(),
{
    let init = files.drop_last();
    lemma_retire_shrinks(init, events);
    if k < retire(init, events).1.len() {
        law_only_missing_files_retire(init, events, k);
        let gone = FileStatus { asset: retire(init, events).1[k].asset, exists: false };
        assert(files[init.index_of(gone)] == gone);
    } else {
        assert(files[files.len() - 1] == files.last());
    }
}

proof fn lemma_retire_shrinks(files: Seq<FileStatus>, events: Map<u64, ActiveEvent>)
    ensures
        forall|a: u64|
            #[trigger] retire(files, events).0.contains_key(a) ==> events.contains_key(a) && retire(
                files,
                events,
            ).0[a] == events[a],
    decreases files.len(),
{
    if files.len() > 0 {
        lemma_retire_shrinks(files.drop_last(), events);
        let before = retire(files.drop_last(), events).0;
        assert forall|a: u64| #[trigger] retire(files, events).0.contains_key(a) implies events.contains_key(a)
            && retire(files, events).0[a] == events[a] by {
            assert(before.contains_key(a));
        }
    }
}

/// Ending events leaves the dimensions of the others apart from each other and from the
/// default one.
pub proof fn law_retiring_keeps_dimensions_apart(
    files: Seq<FileStatus>,
    events: Map<u64, ActiveEvent>,
    next: int,
)
    requires
        well_formed(events, next),
    ensures
        well_formed(retire(files, events).0, next),
{
    lemma_retire_shrinks(files, events);
    let left = retire(files, events).0;
    assert forall|a: u64, b: u64|
        #![trigger left[a], left[b]]
        left.contains_key(a) && left.contains_key(b) && a != b implies left[a].dimension
        != left[b].dimension by {
        assert(events[a].dimension != events[b].dimension);
    }
}

/// Closes the zones of dimensions that were torn down.
pub fn cleanup_dimension_side_tables_on_teardown(
    torn_down: &Vec<DimensionId>,
    zones: &mut EventTransferZones,
)
    ensures
        forall|d: u64|
            #[trigger] final(zones).0@.contains_key(d) <==> old(zones).0@.contains_key(d)
                && !torn_down@.contains(DimensionId(d)),
        forall|d: u64|
            final(zones).0@.contains_key(d) ==> #[trigger] final(zones).0@[d] == old(zones).0@[d],
{
    let ghost before = zones.0@;
    let mut i: usize = 0;
    while i < torn_down.len()
        invariant
            i <= torn_down.len(),
            forall|d: u64|
                #[trigger] zones.0@.contains_key(d) <==> before.contains_key(d) && !torn_down@.take(
                    i as int,
                ).contains(DimensionId(d)),
            forall|d: u64| zones.0@.contains_key(d) ==> #[trigger] zones.0@[d] == before[d],
        decreases torn_down.len() - i,
    {
        let ghost held = zones.0@;
        let id = torn_down[i];
        zones.0.remove(&id.0);
        proof {
            let done = torn_down@.take(i as int);
            let now = torn_down@.take(i as int + 1);
            assert forall|d: u64|
                #[trigger] zones.0@.contains_key(d) <==> before.contains_key(d) && !now.contains(
                    DimensionId(d),
                ) by {
                assert(held.contains_key(d) <==> before.contains_key(d) && !done.contains(
                    DimensionId(d),
                ));
                if done.contains(DimensionId(d)) {
                    assert(now[done.index_of(DimensionId(d))] == DimensionId(d));
                }
                assert(now[i as int] == id);
                if now.contains(DimensionId(d)) && d != id.0 {
                    let k = now.index_of(DimensionId(d));
                    assert(done[k] == DimensionId(d));
                }
            }
        }
        i += 1;
    }
    assert(torn_down@.take(i as int) =~= torn_down@);
}

/// A notice about the manifest's asset.
#[derive(Clone, Copy, Debug, PartialEq, Eq, Structural)]
pub struct ManifestNotice {
    pub kind: AssetNoticeKind,
    pub asset: u64,
}

/// Whether any notice says that the manifest can be read anew.
pub open spec fn manifest_changed(notices: Seq<ManifestNotice>, manifest: u64) -> bool {
    exists|i: int|
        0 <= i < notices.len() && (#[trigger] notices[i]).asset == manifest && (notices[i].kind
            is Added || notices[i].kind is Modified)
}

/// The event files that were asked for.
pub struct RequestedEvents(pub OnceList);

/// Where the event file of a name is found.
pub open spec fn event_path(filename: Seq<char>) -> Seq<char> {
    "oracle://"@ + filename
}

/// An event file that is asked for, with where it is found.
pub struct EventRequest {
    pub filename: String,
    pub path: String,
}

/// An [`EventRequest`] over text.
pub ghost struct EventRequestModel {
    pub filename: Seq<char>,
    pub path: Seq<char>,
}

impl View for EventRequest {
    type V = EventRequestModel;

    open spec fn view(&self) -> EventRequestModel {
        EventRequestModel { filename: self.filename@, path: self.path@ }
    }
}

fn has_changed(notices: &Vec<ManifestNotice>, manifest: u64) -> (changed: bool)
    ensures
        changed == manifest_changed(notices@, manifest),
{
    let mut i: usize = 0;
    while i < notices.len()
        invariant
            i <= notices.len(),
            forall|j: int|
                0 <= j < i ==> !((#[trigger] notices@[j]).asset == manifest && (notices@[j].kind
                    is Added || notices@[j].kind is Modified)),
        decreases notices.len() - i,
    {
        let fresh_kind = match notices[i].kind {
            AssetNoticeKind::Added => true,
            AssetNoticeKind::Modified => true,
            AssetNoticeKind::Other => false,
        };
        if notices[i].asset == manifest && fresh_kind {
            assert(notices@[i as int].asset == manifest);
            return true;
        }
        i += 1;
    }
    false
}

/// Asks for the event files that the manifest names, each of them once over the session,
/// whenever the manifest changed and can be read. `filenames` is `None` where it cannot.
pub fn request_well_known_events_from_manifest(
    notices: &Vec<ManifestNotice>,
    manifest: u64,
    filenames: &Option<Vec<String>>,
    requested: &mut RequestedEvents,
) -> (requests: Vec<EventRequest>)
    ensures
        ({
            let new = match filenames {
                Some(names) => if manifest_changed(notices@, manifest) {
                    fresh(old(requested).0@, models(names@))
                } else {
                    Seq::empty()
                },
                None => Seq::empty(),
            };
            &&& final(requested).0@ == old(requested).0@ + new
            &&& models(requests@) == new.map_values(
                |filename: Seq<char>| EventRequestModel { filename, path: event_path(filename) },
            )
        }),
{
    let mut requests: Vec<EventRequest> = Vec::new();
    let ghost shape = |filename: Seq<char>|
        EventRequestModel { filename, path: event_path(filename) };
    assert(requested.0@ + Seq::<Seq<char>>::empty() =~= requested.0@);
    assert(models(requests@) =~= Seq::<Seq<char>>::empty().map_values(shape));
    if !has_changed(notices, manifest) {
        return requests;
    }
    let names = match filenames {
        Some(names) => names,
        None => {
            return requests;
        },
    };
    let new = requested.0.note_all(names);
    let mut i: usize = 0;
    while i < new.len()
        invariant
            i <= new.len(),
            requests@.len() == i,
            forall|j: int|
                0 <= j < i ==> (#[trigger] requests@[j])@ == (EventRequestModel {
                    filename: new@[j]@,
                    path: event_path(new@[j]@),
                }),
        decreases new.len() - i,
    {
        requests.push(
            EventRequest { filename: new[i].clone(), path: join("oracle://", new[i].as_str()) },
        );
        i += 1;
    }
    assert(models(requests@) =~= models(new@).map_values(shape));
    requests
}

/// Whether a notice tells of the event of an asset: its file came or changed, and is loaded.
pub open spec fn tells_of(notice: EventNotice, asset: u64) -> bool {
    notice.asset == asset && notice.loaded && (notice.kind is Added || notice.kind is Modified)
}

/// An event that is not under way is taken in exactly where some notice tells of it, whatever
/// the other notices say: once, with the message of the first such notice, and with the
/// dimension that it is then under way in. It starts out neither active, nor spawned, nor
/// retired.
pub proof fn law_every_told_event_is_ingested(
    notices: Seq<EventNotice>,
    events: Map<u64, ActiveEvent>,
    next: int,
    asset: u64,
)
    ensures
        ({
            let (after, _, taken) = ingest(notices, events, next);
            let told = exists|i: int| 0 <= i < notices.len() && tells_of(#[trigger] notices[i], asset);
            &&& after.contains_key(asset) <==> events.contains_key(asset) || told
            &&& !events.contains_key(asset) && told ==> {
                &&& !after[asset].active
                &&& !after[asset].spawned
                &&& !after[asset].retired
            }
            &&& (exists|k: int| 0 <= k < taken.len() && (#[trigger] taken[k]).asset == asset)
                <==> !events.contains_key(asset) && told
            &&& forall|k: int|
                0 <= k < taken.len() && (#[trigger] taken[k]).asset == asset ==> taken[k].dimension
                    == after[asset].dimension && taken[k].base_seed == EVENT_BASE_SEED
            &&& forall|i: int, k: int|
                0 <= i < notices.len() && tells_of(#[trigger] notices[i], asset) && (forall|j: int|
                    0 <= j < i ==> !tells_of(#[trigger] notices[j], asset)) && 0 <= k < taken.len()
                    && (#[trigger] taken[k]).asset == asset ==> (match notices[i].on_enter_message {
                    Some(message) => taken[k].on_enter_message == Some(message@),
                    None => taken[k].on_enter_message is None,
                })
            &&& forall|j: int, k: int|
                0 <= j < k < taken.len() && (#[trigger] taken[j]).asset == asset ==> (
                #[trigger] taken[k]).asset != asset
        }),
    decreases notices.len(),
{
    if notices.len() > 0 {
        let init = notices.drop_last();
        let last = notices.last();
        let n = init.len() as int;
        law_every_told_event_is_ingested(init, events, next, asset);
        let (before, _, had) = ingest(init, events, next);
        let (after, _, taken) = ingest(notices, events, next);
        assert(notices[n] == last);
        assert forall|i: int| 0 <= i < n implies #[trigger] notices[i] == init[i] by {}
        assert forall|k: int| 0 <= k < had.len() implies taken[k] == #[trigger] had[k] by {}
        let was_told = exists|i: int| 0 <= i < n && tells_of(#[trigger] init[i], asset);
        let told = exists|i: int| 0 <= i < notices.len() && tells_of(#[trigger] notices[i], asset);
        if was_told {
            let i = choose|i: int| 0 <= i < n && tells_of(#[trigger] init[i], asset);
            assert(tells_of(notices[i], asset));
        }
        if tells_of(last, asset) {
            assert(tells_of(notices[n], asset));
        }
        if told {
            let i = choose|i: int| 0 <= i < notices.len() && tells_of(#[trigger] notices[i], asset);
            if i < n {
                assert(tells_of(init[i], asset));
            }
        }
        assert(told <==> was_told || tells_of(last, asset));
        let fresh_now = brings_event(last, before) && last.asset == asset;
        if fresh_now {
            assert(taken[had.len() as int].asset == asset);
            assert(!before.contains_key(asset));
            assert forall|k: int| 0 <= k < had.len() implies (#[trigger] had[k]).asset != asset by {}
        }
        if exists|k: int| 0 <= k < had.len() && (#[trigger] had[k]).asset == asset {
            let k = choose|k: int| 0 <= k < had.len() && (#[trigger] had[k]).asset == asset;
            assert(taken[k].asset == asset);
        }
        if exists|k: int| 0 <= k < taken.len() && (#[trigger] taken[k]).asset == asset {
            let k = choose|k: int| 0 <= k < taken.len() && (#[trigger] taken[k]).asset == asset;
            if k < had.len() {
                assert(had[k].asset == asset);
            }
        }
        assert forall|i: int, k: int|
            0 <= i < notices.len() && tells_of(#[trigger] notices[i], asset) && (forall|j: int|
                0 <= j < i ==> !tells_of(#[trigger] notices[j], asset)) && 0 <= k < taken.len() && (
            #[trigger] taken[k]).asset == asset implies (match notices[i].on_enter_message {
            Some(message) => taken[k].on_enter_message == Some(message@),
            None => taken[k].on_enter_message is None,
        }) by {
            if i < n {
                assert(tells_of(init[i], asset));
                assert forall|j: int| 0 <= j < i implies !tells_of(#[trigger] init[j], asset) by {
                    assert(!tells_of(notices[j], asset));
                }
                assert(k < had.len());
                assert(had[k].asset == asset);
            } else {
                assert(!was_told) by {
                    if was_told {
                        let j = choose|j: int| 0 <= j < n && tells_of(#[trigger] init[j], asset);
                        assert(tells_of(notices[j], asset));
                    }
                }
                assert(k == had.len());
            }
        }
    }
}

/// An event becomes active with its dimension and stays so; nothing else about it changes, and
/// no event comes or goes.
pub proof fn law_activation_reaches_its_events(
    events: Map<u64, ActiveEvent>,
    activated: Seq<DimensionId>,
    asset: u64,
)
    ensures
        ({
            let after = activated_events(events, activated);
            &&& after.contains_key(asset) <==> events.contains_key(asset)
            &&& events.contains_key(asset) ==> {
                &&& after[asset].active <==> events[asset].active || exists|i: int|
                    0 <= i < activated.len() && #[trigger] activated[i] == events[asset].dimension
                &&& after[asset].dimension == events[asset].dimension
                &&& after[asset].spawned == events[asset].spawned
                &&& after[asset].retired == events[asset].retired
            }
        }),
{
}

/// What a try to spawn the minions of an event comes to. Where the event has its turn still to
/// come and its file is loaded, it is given up if its dimension is not active, it spawns once
/// its templates and the ground are there, in the world exactly where there is ground to stand
/// on, and in every other case it is tried again later. Only a try that is not repeated marks
/// the event, and marks it as spawned.
pub proof fn law_spawn_try_is_decided(
    event: ActiveEvent,
    facts: SpawnFacts,
    table: Map<u64, DimensionState>,
)
    ensures
        ({
            let (step, after) = spawn_try(event, facts, table);
            let turn = event.active && !event.spawned && !event.retired && facts.asset_loaded;
            let open = table.contains_key(event.dimension.0)
                && table[event.dimension.0].lifecycle is Active;
            let ready = facts.templates_loaded && (facts.terrain_ready is None
                || facts.terrain_ready->0);
            &&& step is GiveUp <==> turn && !open
            &&& step is Spawn <==> turn && open && ready
            &&& step is Retry <==> !turn || (open && !ready)
            &&& step matches SpawnStep::Spawn { dimension, seed, in_world } ==> dimension
                == event.dimension && seed == event.dimension.0 && (in_world
                <==> facts.terrain_ready is Some)
            &&& after.spawned <==> event.spawned || !(step is Retry)
            &&& after.dimension == event.dimension
            &&& after.active == event.active
            &&& after.retired == event.retired
        }),
{
}

/// Whether a player who is sighted there may enter a zone: they stand in it, and its dimension
/// is active.
pub open spec fn may_enter(zone: ZoneSighting, table: Map<u64, DimensionState>) -> bool {
    zone.inside && table.contains_key(zone.dimension.0) && table[zone.dimension.0].lifecycle
        is Active
}

proof fn lemma_first_zone(zones: Seq<ZoneSighting>, table: Map<u64, DimensionState>, from: int)
    requires
        0 <= from <= zones.len(),
    ensures
        first_zone(zones, table, from) is None <==> forall|i: int|
            from <= i < zones.len() ==> !may_enter(#[trigger] zones[i], table),
        forall|i: int|
            from <= i < zones.len() && may_enter(#[trigger] zones[i], table) && (forall|j: int|
                from <= j < i ==> !may_enter(#[trigger] zones[j], table)) ==> first_zone(
                zones,
                table,
                from,
            ) == Some(zones[i].dimension),
    decreases zones.len() - from,
{
    if from < zones.len() {
        lemma_first_zone(zones, table, from + 1);
        assert(may_enter(zones[from], table) ==> first_zone(zones, table, from) is Some);
    }
}

/// A player crosses exactly where they are in the default dimension, their position is known,
/// and they stand in a zone that may be entered, and crosses into the first such zone.
pub proof fn law_player_crosses_where_they_stand(
    session: SessionSighting,
    dims: Map<u64, DimensionId>,
    table: Map<u64, DimensionState>,
)
    ensures
        ({
            let target = crossing(session, dims, table);
            let home = dims.contains_key(session.sim_entity) ==> dims[session.sim_entity].0 == 0;
            &&& target is Some <==> home && session.zones is Some && exists|i: int|
                0 <= i < session.zones->0@.len() && may_enter(
                    #[trigger] session.zones->0@[i],
                    table,
                )
            &&& target is Some ==> forall|i: int|
                0 <= i < session.zones->0@.len() && may_enter(
                    #[trigger] session.zones->0@[i],
                    table,
                ) && (forall|j: int|
                    0 <= j < i ==> !may_enter(#[trigger] session.zones->0@[j], table)) ==> target->0
                    == session.zones->0@[i].dimension
        }),
{
    if let Some(zones) = session.zones {
        lemma_first_zone(zones@, table, 0);
    }
}

/// Every player who crosses is transferred, once and in the order of the sessions, and no one
/// else is.
pub proof fn law_every_crossing_is_a_transfer(
    sessions: Seq<SessionSighting>,
    dims: Map<u64, DimensionId>,
    table: Map<u64, DimensionState>,
)
    ensures
        ({
            let transfers = crossings(sessions, dims, table);
            let crossers = sessions.filter(
                |session: SessionSighting| crossing(session, dims, table) is Some,
            );
            &&& transfers.len() == crossers.len()
            &&& forall|k: int|
                #![trigger transfers[k]]
                #![trigger crossers[k]]
                0 <= k < transfers.len() ==> transfers[k].sim_entity == crossers[k].sim_entity
                    && Some(transfers[k].target) == crossing(crossers[k], dims, table)
        }),
    decreases sessions.len(),
{
    reveal(Seq::filter);
    if sessions.len() > 0 {
        law_every_crossing_is_a_transfer(sessions.drop_last(), dims, table);
    }
}

/// The chunks near the centre are those no more than so many away from it along either side.
pub proof fn law_near_the_centre_is_a_square(key: ChunkKey, size_x: int, size_y: int, r: int)
    ensures
        near_centre(key, size_x, size_y, r) <==> size_x / 2 - r <= key.x <= size_x / 2 + r && size_y
            / 2 - r <= key.y <= size_y / 2 + r,
{
}

/// Every template and every event is looked for under its own name.
pub proof fn law_paths_hold_their_names(name: Seq<char>)
    ensures
        ({
            let path = template_path(name);
            let (before, after) = ("xindeler/entity_templates/"@, ".entity_template.ron"@);
            &&& before.is_prefix_of(path)
            &&& after.is_suffix_of(path)
            &&& path.subrange(before.len() as int, path.len() - after.len()) == name
        }),
        "oracle://"@.is_prefix_of(event_path(name)),
        event_path(name).skip("oracle://"@.len() as int) == name,
{
    let path = template_path(name);
    let (before, after) = ("xindeler/entity_templates/"@, ".entity_template.ron"@);
    assert(before =~= path.take(before.len() as int));
    assert(after =~= path.subrange(path.len() - after.len(), path.len() as int));
    assert(path.subrange(before.len() as int, path.len() - after.len()) =~= name);
    let head = "oracle://"@;
    assert(head =~= event_path(name).take(head.len() as int));
    assert(event_path(name).skip(head.len() as int) =~= name);
}

/// The manifest changed where a notice says that it came or changed, whatever else the notices
/// tell, and not where every notice about it says something else.
pub proof fn law_manifest_change_is_noticed(notices: Seq<ManifestNotice>, manifest: u64, i: int)
    requires
        0 <= i < notices.len(),
    ensures
        notices[i].asset == manifest && (notices[i].kind is Added || notices[i].kind is Modified)
            ==> manifest_changed(notices, manifest),
        (forall|j: int|
            0 <= j < notices.len() && (#[trigger] notices[j]).asset == manifest ==> !(
            notices[j].kind is Added) && !(notices[j].kind is Modified)) ==> !manifest_changed(
            notices,
            manifest,
        ),
{
}

/// Rows about files are taken in turn: what a list ends is what its first part ends and then, of
/// the events that this leaves, what the rest does.
pub proof fn law_retiring_splits(
    first: Seq<FileStatus>,
    rest: Seq<FileStatus>,
    events: Map<u64, ActiveEvent>,
)
    ensures
        ({
            let half = retire(first, events);
            let other = retire(rest, half.0);
            retire(first + rest, events) == (other.0, half.1 + other.1)
        }),
    decreases rest.len(),
{
    let half = retire(first, events);
    if rest.len() == 0 {
        assert(first + rest =~= first);
        assert(half.1 + Seq::<RetiredEvent>::empty() =~= half.1);
    } else {
        law_retiring_splits(first, rest.drop_last(), events);
        assert((first + rest).drop_last() =~= first + rest.drop_last());
        let other = retire(rest.drop_last(), half.0);
        assert(retire(first + rest, events).1 =~= half.1 + retire(rest, half.0).1);
    }
}

/// Notices are taken in turn: what a list brings is what its first part brings and then, with
/// those events under way, what the rest does.
pub proof fn law_ingesting_splits(
    first: Seq<EventNotice>,
    rest: Seq<EventNotice>,
    events: Map<u64, ActiveEvent>,
    next: int,
)
    ensures
        ({
            let half = ingest(first, events, next);
            let other = ingest(rest, half.0, half.1);
            ingest(first + rest, events, next) == (other.0, other.1, half.2 + other.2)
        }),
    decreases rest.len(),
{
    let half = ingest(first, events, next);
    if rest.len() == 0 {
        assert(first + rest =~= first);
        assert(half.2 + Seq::<IngestedModel>::empty() =~= half.2);
    } else {
        law_ingesting_splits(first, rest.drop_last(), events, next);
        assert((first + rest).drop_last() =~= first + rest.drop_last());
        let other = ingest(rest.drop_last(), half.0, half.1);
        assert(ingest(first + rest, events, next).2 =~= half.2 + ingest(rest, half.0, half.1).2);
    }
}

} // verus!
