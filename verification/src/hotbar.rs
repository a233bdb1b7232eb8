//! The ability bar: what is bound to its slots, what is cooling down, and the requests to
//! bind something else.

use crate::float_bits::{below, float_lt, law_numbers_are_ordered};
use crate::mirror::SimMirror;
use crate::net_value::{offer_all, offered, DedupCache, NetValue, Write};
use crate::session::{resolve_client_entity, routed, ClientId, PlayerDimensionSession, RoutedRequest, Sessions};
use crate::text::{
    copy_text, lemma_text_le_antisymmetric, lemma_text_le_total, lemma_text_le_transitive,
    same_text, text_before, text_le, text_of,
};
use vstd::prelude::*;

verus! {

/// An ability that can be bound to a slot, by its place in the set that it comes from.
#[derive(Clone, Copy, Debug, PartialEq, Eq, Structural)]
pub enum AuxiliaryAbility {
    MainWeapon(usize),
    OffWeapon(usize),
    Glider(usize),
    Innate(usize),
    Empty,
}

/// An [`AuxiliaryAbility`] as it is replicated.
#[derive(Clone, Copy, Debug, PartialEq, Eq, Structural)]
pub enum NetAuxiliaryAbility {
    MainWeapon(u32),
    OffWeapon(u32),
    Glider(u32),
    Innate(u32),
    Empty,
}

/// The replicated form of an ability; places are cut to 32 bits.
pub open spec fn net_aux(ability: AuxiliaryAbility) -> NetAuxiliaryAbility {
    match ability {
        AuxiliaryAbility::MainWeapon(i) => NetAuxiliaryAbility::MainWeapon(i as u32),
        AuxiliaryAbility::OffWeapon(i) => NetAuxiliaryAbility::OffWeapon(i as u32),
        AuxiliaryAbility::Glider(i) => NetAuxiliaryAbility::Glider(i as u32),
        AuxiliaryAbility::Innate(i) => NetAuxiliaryAbility::Innate(i as u32),
        AuxiliaryAbility::Empty => NetAuxiliaryAbility::Empty,
    }
}

/// The ability that a replicated form stands for.
pub open spec fn sim_aux(ability: NetAuxiliaryAbility) -> AuxiliaryAbility {
    match ability {
        NetAuxiliaryAbility::MainWeapon(i) => AuxiliaryAbility::MainWeapon(i as usize),
        NetAuxiliaryAbility::OffWeapon(i) => AuxiliaryAbility::OffWeapon(i as usize),
        NetAuxiliaryAbility::Glider(i) => AuxiliaryAbility::Glider(i as usize),
        NetAuxiliaryAbility::Innate(i) => AuxiliaryAbility::Innate(i as usize),
        NetAuxiliaryAbility::Empty => AuxiliaryAbility::Empty,
    }
}

/// Whether the place of an ability fits the replicated form.
pub open spec fn fits(ability: AuxiliaryAbility) -> bool {
    match ability {
        AuxiliaryAbility::MainWeapon(i) => i <= u32::MAX,
        AuxiliaryAbility::OffWeapon(i) => i <= u32::MAX,
        AuxiliaryAbility::Glider(i) => i <= u32::MAX,
        AuxiliaryAbility::Innate(i) => i <= u32::MAX,
        AuxiliaryAbility::Empty => true,
    }
}

/// The replicated form of an ability.
pub fn to_net_aux(ability: AuxiliaryAbility) -> (net: NetAuxiliaryAbility)
    ensures
        net == net_aux(ability),
{
    match ability {
        AuxiliaryAbility::MainWeapon(i) => NetAuxiliaryAbility::MainWeapon(i as u32),
        AuxiliaryAbility::OffWeapon(i) => NetAuxiliaryAbility::OffWeapon(i as u32),
        AuxiliaryAbility::Glider(i) => NetAuxiliaryAbility::Glider(i as u32),
        AuxiliaryAbility::Innate(i) => NetAuxiliaryAbility::Innate(i as u32),
        AuxiliaryAbility::Empty => NetAuxiliaryAbility::Empty,
    }
}

/// The ability that a replicated form stands for.
pub fn from_net_aux(ability: NetAuxiliaryAbility) -> (sim: AuxiliaryAbility)
    ensures
        sim == sim_aux(ability),
{
    match ability {
        NetAuxiliaryAbility::MainWeapon(i) => AuxiliaryAbility::MainWeapon(i as usize),
        NetAuxiliaryAbility::OffWeapon(i) => AuxiliaryAbility::OffWeapon(i as usize),
        NetAuxiliaryAbility::Glider(i) => AuxiliaryAbility::Glider(i as usize),
        NetAuxiliaryAbility::Innate(i) => AuxiliaryAbility::Innate(i as usize),
        NetAuxiliaryAbility::Empty => AuxiliaryAbility::Empty,
    }
}

/// An ability whose place fits 32 bits comes back from its replicated form.
pub proof fn law_aux_round_trip(ability: AuxiliaryAbility)
    requires
        fits(ability),
    ensures
        sim_aux(net_aux(ability)) == ability,
{
}

/// Every replicated form comes back from the ability that it stands for.
pub proof fn law_net_aux_round_trip(ability: NetAuxiliaryAbility)
    ensures
        net_aux(sim_aux(ability)) == ability,
        fits(sim_aux(ability)),
{
}

/// A slot of the ability bar.
pub struct NetHotbarSlot {
    pub aux: NetAuxiliaryAbility,
    pub ability_id: Option<String>,
}

/// What the ability bar is bound to.
pub struct NetAbilities {
    pub primary: Option<String>,
    pub secondary: Option<String>,
    pub slots: Vec<NetHotbarSlot>,
}

/// A [`NetHotbarSlot`] over text.
pub ghost struct SlotModel {
    pub aux: NetAuxiliaryAbility,
    pub ability_id: Option<Seq<char>>,
}

/// A [`NetAbilities`] over text.
pub ghost struct AbilitiesModel {
    pub primary: Option<Seq<char>>,
    pub secondary: Option<Seq<char>>,
    pub slots: Seq<SlotModel>,
}

impl View for NetHotbarSlot {
    type V = SlotModel;

    open spec fn view(&self) -> SlotModel {
        SlotModel { aux: self.aux, ability_id: text_of(self.ability_id) }
    }
}

impl View for NetAbilities {
    type V = AbilitiesModel;

    open spec fn view(&self) -> AbilitiesModel {
        AbilitiesModel {
            primary: text_of(self.primary),
            secondary: text_of(self.secondary),
            slots: self.slots@.map_values(|slot: NetHotbarSlot| slot@),
        }
    }
}

fn same_slots(a: &Vec<NetHotbarSlot>, b: &Vec<NetHotbarSlot>) -> (same: bool)
    ensures
        same == (a@.map_values(|slot: NetHotbarSlot| slot@) == b@.map_values(
            |slot: NetHotbarSlot| slot@,
        )),
{
    let ghost xs = a@.map_values(|slot: NetHotbarSlot| slot@);
    let ghost ys = b@.map_values(|slot: NetHotbarSlot| slot@);
    if a.len() != b.len() {
        assert(xs.len() != ys.len());
        return false;
    }
    let mut i: usize = 0;
    while i < a.len()
        invariant
            i <= a.len(),
            a.len() == b.len(),
            xs == a@.map_values(|slot: NetHotbarSlot| slot@),
            ys == b@.map_values(|slot: NetHotbarSlot| slot@),
            forall|j: int| 0 <= j < i ==> xs[j] == ys[j],
        decreases a.len() - i,
    {
        if a[i].aux != b[i].aux || !same_text(&a[i].ability_id, &b[i].ability_id) {
            assert(xs[i as int] != ys[i as int]);
            return false;
        }
        i += 1;
    }
    assert(xs =~= ys);
    true
}

impl NetValue for NetAbilities {
    open spec fn alike(a: AbilitiesModel, b: AbilitiesModel) -> bool {
        a == b
    }

    fn same(&self, other: &Self) -> (same: bool) {
        same_text(&self.primary, &other.primary) && same_text(&self.secondary, &other.secondary)
            && same_slots(&self.slots, &other.slots)
    }

    fn duplicate(&self) -> (copy: Self) {
        let mut slots: Vec<NetHotbarSlot> = Vec::new();
        let mut i: usize = 0;
        while i < self.slots.len()
            invariant
                i <= self.slots.len(),
                slots@ == self.slots@.take(i as int),
            decreases self.slots.len() - i,
        {
            slots.push(
                NetHotbarSlot {
                    aux: self.slots[i].aux,
                    ability_id: copy_text(&self.slots[i].ability_id),
                },
            );
            i += 1;
            assert(slots@ =~= self.slots@.take(i as int));
        }
        assert(slots@ =~= self.slots@);
        NetAbilities {
            primary: copy_text(&self.primary),
            secondary: copy_text(&self.secondary),
            slots,
        }
    }
}

/// A slot of the simulation's ability bar, with the identifier that it resolves to.
pub struct BoundSlot {
    pub aux: AuxiliaryAbility,
    pub ability_id: Option<String>,
}

/// The simulation's ability bar, with the identifiers that its abilities resolve to.
pub struct BoundAbilities {
    pub primary: Option<String>,
    pub secondary: Option<String>,
    pub slots: Vec<BoundSlot>,
}

/// The replicated form of the simulation's ability bar.
pub open spec fn bound_model(bound: BoundAbilities) -> AbilitiesModel {
    AbilitiesModel {
        primary: text_of(bound.primary),
        secondary: text_of(bound.secondary),
        slots: bound.slots@.map_values(
            |slot: BoundSlot| SlotModel {
                aux: net_aux(slot.aux),
                ability_id: text_of(slot.ability_id),
            },
        ),
    }
}

/// Projects the simulation's ability bar.
pub fn project_abilities(bound: &BoundAbilities) -> (net: NetAbilities)
    ensures
        net@ == bound_model(*bound),
{
    let mut slots: Vec<NetHotbarSlot> = Vec::new();
    let mut i: usize = 0;
    while i < bound.slots.len()
        invariant
            i <= bound.slots.len(),
            slots@.len() == i,
            forall|j: int|
                0 <= j < i ==> (#[trigger] slots@[j])@ == (SlotModel {
                    aux: net_aux(bound.slots@[j].aux),
                    ability_id: text_of(bound.slots@[j].ability_id),
                }),
        decreases bound.slots.len() - i,
    {
        slots.push(
            NetHotbarSlot {
                aux: to_net_aux(bound.slots[i].aux),
                ability_id: copy_text(&bound.slots[i].ability_id),
            },
        );
        i += 1;
    }
    let net = NetAbilities {
        primary: copy_text(&bound.primary),
        secondary: copy_text(&bound.secondary),
        slots,
    };
    assert(net@.slots =~= bound_model(*bound).slots);
    net
}

/// An ability that is cooling down. The remaining seconds are a bit pattern.
pub struct NetCooldownEntry {
    pub ability_id: String,
    pub remaining_secs: u32,
}

/// A [`NetCooldownEntry`] over text.
pub ghost struct CooldownModel {
    pub ability_id: Seq<char>,
    pub remaining_secs: u32,
}

impl View for NetCooldownEntry {
    type V = CooldownModel;

    open spec fn view(&self) -> CooldownModel {
        CooldownModel { ability_id: self.ability_id@, remaining_secs: self.remaining_secs }
    }
}

/// The models of a list of entries.
pub open spec fn cooldowns_of(entries: Seq<NetCooldownEntry>) -> Seq<CooldownModel> {
    entries.map_values(|entry: NetCooldownEntry| entry@)
}

/// The entries that are still cooling down, in order.
pub open spec fn cooling(entries: Seq<NetCooldownEntry>) -> Seq<CooldownModel>
    decreases entries.len(),
{
    if entries.len() == 0 {
        Seq::empty()
    } else if below(0, entries.last().remaining_secs) {
        cooling(entries.drop_last()).push(entries.last()@)
    } else {
        cooling(entries.drop_last())
    }
}

/// Whether entries are ordered by their identifiers.
pub open spec fn ordered(entries: Seq<CooldownModel>) -> bool {
    forall|i: int, j: int|
        #![trigger entries[i], entries[j]]
        0 <= i < j < entries.len() ==> text_le(entries[i].ability_id, entries[j].ability_id)
}

proof fn lemma_insert_multiset(entries: Seq<CooldownModel>, at: int, entry: CooldownModel)
    requires
        0 <= at <= entries.len(),
    ensures
        entries.insert(at, entry).to_multiset() == entries.to_multiset().insert(entry),
{
    broadcast use vstd::seq_lib::group_to_multiset_ensures;

    let after = entries.insert(at, entry);
    assert(after.remove(at) =~= entries);
    assert(after[at] == entry);
    assert(after.contains(entry));
    assert(after.to_multiset() =~= after.to_multiset().remove(entry).insert(entry));
}

/// Enters an entry in its place.
fn insert_ordered(entries: &mut Vec<NetCooldownEntry>, entry: NetCooldownEntry)
    requires
        ordered(cooldowns_of(old(entries)@)),
    ensures
        ordered(cooldowns_of(final(entries)@)),
        cooldowns_of(final(entries)@).to_multiset() == cooldowns_of(
            old(entries)@,
        ).to_multiset().insert(entry@),
{
    let ghost before = cooldowns_of(entries@);
    let mut at: usize = 0;
    while at < entries.len() && text_before(&entries[at].ability_id, &entry.ability_id)
        invariant
            at <= entries.len(),
            before == cooldowns_of(entries@),
            forall|j: int|
                0 <= j < at ==> text_le((#[trigger] before[j]).ability_id, entry@.ability_id),
        decreases entries.len() - at,
    {
        assert(before[at as int].ability_id == entries@[at as int].ability_id@);
        at += 1;
    }
    proof {
        assert forall|j: int| at <= j < before.len() implies text_le(
            entry@.ability_id,
            (#[trigger] before[j]).ability_id,
        ) by {
            lemma_text_le_total(entry@.ability_id, before[at as int].ability_id);
            assert(before[at as int].ability_id == entries@[at as int].ability_id@);
            if at < j {
                lemma_text_le_transitive(
                    entry@.ability_id,
                    before[at as int].ability_id,
                    before[j].ability_id,
                );
            }
        }
        lemma_insert_multiset(before, at as int, entry@);
    }
    let ghost model = entry@;
    entries.insert(at, entry);
    assert(cooldowns_of(entries@) =~= before.insert(at as int, model));
}

/// The abilities that are still cooling down, ordered by their identifiers.
pub fn project_cooldowns(rows: &Vec<NetCooldownEntry>) -> (entries: Vec<NetCooldownEntry>)
    ensures
        ordered(cooldowns_of(entries@)),
        cooldowns_of(entries@).to_multiset() == cooling(rows@).to_multiset(),
{
    let mut entries: Vec<NetCooldownEntry> = Vec::new();
    let mut i: usize = 0;
    assert(cooldowns_of(entries@) =~= Seq::<CooldownModel>::empty());
    while i < rows.len()
        invariant
            i <= rows.len(),
            ordered(cooldowns_of(entries@)),
            cooldowns_of(entries@).to_multiset() == cooling(rows@.take(i as int)).to_multiset(),
        decreases rows.len() - i,
    {
        proof {
            broadcast use vstd::seq_lib::group_to_multiset_ensures;

            assert(rows@.take(i as int + 1).drop_last() =~= rows@.take(i as int));
        }
        let row = &rows[i];
        if float_lt(0, row.remaining_secs) {
            insert_ordered(
                &mut entries,
                NetCooldownEntry {
                    ability_id: row.ability_id.clone(),
                    remaining_secs: row.remaining_secs,
                },
            );
        }
        i += 1;
    }
    assert(rows@.take(i as int) =~= rows@);
    entries
}

/// Whether every ability is there once.
pub open spec fn distinct_abilities(entries: Seq<CooldownModel>) -> bool {
    forall|i: int, j: int|
        #![trigger entries[i], entries[j]]
        0 <= i < j < entries.len() ==> entries[i].ability_id != entries[j].ability_id
}

/// Where every ability cools down once, its place is fixed: there is one list of the same
/// entries in that order.
pub proof fn law_cooldown_order_is_unique(a: Seq<CooldownModel>, b: Seq<CooldownModel>)
    requires
        ordered(a),
        ordered(b),
        distinct_abilities(a),
        a.to_multiset() == b.to_multiset(),
    ensures
        a == b,
    decreases a.len(),
{
    broadcast use vstd::seq_lib::group_to_multiset_ensures;

    assert(a.len() == a.to_multiset().len());
    assert(b.len() == b.to_multiset().len());
    if a.len() == 0 {
        assert(a =~= b);
    } else {
        let first = a[0];
        let other = b[0];
        assert(a.to_multiset().count(first) > 0) by {
            assert(a.contains(first));
        }
        assert(b.to_multiset().count(other) > 0) by {
            assert(b.contains(other));
        }
        assert(b.contains(first));
        assert(a.contains(other));
        let k = b.index_of(first);
        let n = a.index_of(other);
        assert(text_le(other.ability_id, first.ability_id)) by {
            if k > 0 {
                assert(text_le(b[0].ability_id, b[k].ability_id));
            } else {
                lemma_text_le_total(first.ability_id, first.ability_id);
            }
        }
        assert(text_le(first.ability_id, other.ability_id)) by {
            if n > 0 {
                assert(text_le(a[0].ability_id, a[n].ability_id));
            } else {
                lemma_text_le_total(first.ability_id, first.ability_id);
            }
        }
        lemma_text_le_antisymmetric(first.ability_id, other.ability_id);
        assert(n == 0) by {
            if n > 0 {
                assert(a[0].ability_id != a[n].ability_id);
            }
        }
        let rest_a = a.remove(0);
        let rest_b = b.remove(0);
        assert(rest_a.to_multiset() =~= a.to_multiset().remove(first));
        assert(rest_b.to_multiset() =~= b.to_multiset().remove(other));
        assert forall|i: int, j: int|
            #![trigger rest_a[i], rest_a[j]]
            0 <= i < j < rest_a.len() implies text_le(rest_a[i].ability_id, rest_a[j].ability_id)
            && rest_a[i].ability_id != rest_a[j].ability_id by {
            assert(rest_a[i] == a[i + 1] && rest_a[j] == a[j + 1]);
        }
        assert forall|i: int, j: int|
            #![trigger rest_b[i], rest_b[j]]
            0 <= i < j < rest_b.len() implies text_le(
            rest_b[i].ability_id,
            rest_b[j].ability_id,
        ) by {
            assert(rest_b[i] == b[i + 1] && rest_b[j] == b[j + 1]);
        }
        law_cooldown_order_is_unique(rest_a, rest_b);
        assert forall|i: int| 0 <= i < a.len() implies a[i] == b[i] by {
            if i > 0 {
                assert(a[i] == rest_a[i - 1] && b[i] == rest_b[i - 1]);
            }
        }
        assert(a =~= b);
    }
}

/// What a pass reads of one mirrored entity. `abilities` and `cooldowns` are `None` where the
/// entity has no such component.
pub struct HotbarRow {
    pub sim_entity: u64,
    pub entity: u64,
    pub abilities: Option<BoundAbilities>,
    pub cooldowns: Option<Vec<NetCooldownEntry>>,
}

/// What is written to one mirror.
pub struct HotbarPlan {
    pub entity: u64,
    pub abilities: Write<NetAbilities>,
    pub cooldowns: Write<Vec<NetCooldownEntry>>,
}

/// The bindings that were last written for each simulation entity.
pub struct HotbarMirrorCache(DedupCache<NetAbilities>);

impl View for HotbarMirrorCache {
    type V = Map<u64, AbilitiesModel>;

    closed spec fn view(&self) -> Map<u64, AbilitiesModel> {
        self.0@
    }
}

/// The bindings of a row.
pub open spec fn row_abilities(row: HotbarRow) -> Option<AbilitiesModel> {
    match row.abilities {
        Some(bound) => Some(bound_model(bound)),
        None => None,
    }
}

/// The cooldowns of a row are written on every pass while it has any entry, even where all of
/// them have run out; without an entry the component goes.
pub open spec fn cooldowns_written(row: HotbarRow, write: Write<Vec<NetCooldownEntry>>) -> bool {
    match row.cooldowns {
        Some(rows) if rows@.len() > 0 => {
            &&& write is Put
            &&& ordered(cooldowns_of(write->Put_0@))
            &&& cooldowns_of(write->Put_0@).to_multiset() == cooling(rows@).to_multiset()
        },
        _ => write is Remove,
    }
}

/// The items that a pass offers to its cache.
pub open spec fn ability_items(rows: Seq<HotbarRow>) -> Seq<(u64, Option<AbilitiesModel>)> {
    rows.map_values(|row: HotbarRow| (row.sim_entity, row_abilities(row)))
}

impl HotbarMirrorCache {
    /// A cache that holds nothing.
    pub fn new() -> (cache: HotbarMirrorCache)
        ensures
            cache@ == Map::<u64, AbilitiesModel>::empty(),
    {
        HotbarMirrorCache(DedupCache::new())
    }

    /// Plans what is written to one mirror.
    pub fn plan(&mut self, row: &HotbarRow) -> (plan: HotbarPlan)
        ensures
            plan.entity == row.entity,
            (final(self)@, plan.abilities@) == offered::<NetAbilities>(
                old(self)@,
                row.sim_entity,
                row_abilities(*row),
            ),
            cooldowns_written(*row, plan.cooldowns),
    {
        let abilities = match &row.abilities {
            Some(bound) => Some(project_abilities(bound)),
            None => None,
        };
        let cooldowns = match &row.cooldowns {
            Some(rows) => if rows.len() > 0 {
                Write::Put(project_cooldowns(rows))
            } else {
                Write::Remove
            },
            None => Write::Remove,
        };
        HotbarPlan {
            entity: row.entity,
            abilities: self.0.offer(row.sim_entity, abilities),
            cooldowns,
        }
    }
}

/// One pass over all mirrored entities: forgets those that are mirrored no longer, and plans
/// what is written to each of the others.
pub fn mirror_hotbar_state(
    rows: &Vec<HotbarRow>,
    mirror: &SimMirror,
    cache: &mut HotbarMirrorCache,
) -> (plans: Vec<HotbarPlan>)
    ensures
        ({
            let pass = offer_all::<NetAbilities>(
                old(cache)@.restrict(mirror.0@.dom()),
                ability_items(rows@),
            );
            &&& final(cache)@ == pass.0
            &&& plans@.len() == rows@.len()
            &&& pass.1.len() == rows@.len()
            &&& forall|i: int|
                0 <= i < rows@.len() ==> {
                    &&& (#[trigger] plans@[i]).entity == rows@[i].entity
                    &&& plans@[i].abilities@ == pass.1[i]
                    &&& cooldowns_written(rows@[i], plans@[i].cooldowns)
                }
        }),
{
    cache.0.retain(&mirror.0);
    let ghost start = cache@;
    let mut plans: Vec<HotbarPlan> = Vec::new();
    let mut i: usize = 0;
    while i < rows.len()
        invariant
            i <= rows.len(),
            plans@.len() == i,
            cache@ == offer_all::<NetAbilities>(start, ability_items(rows@.take(i as int))).0,
            offer_all::<NetAbilities>(start, ability_items(rows@.take(i as int))).1.len() == i,
            forall|j: int|
                0 <= j < i ==> {
                    &&& (#[trigger] plans@[j]).entity == rows@[j].entity
                    &&& plans@[j].abilities@ == offer_all::<NetAbilities>(
                        start,
                        ability_items(rows@.take(i as int)),
                    ).1[j]
                    &&& cooldowns_written(rows@[j], plans@[j].cooldowns)
                },
        decreases rows.len() - i,
    {
        proof {
            let items = ability_items(rows@.take(i as int + 1));
            assert(items.drop_last() =~= ability_items(rows@.take(i as int)));
            assert(items.last() == (rows@[i as int].sim_entity, row_abilities(rows@[i as int])));
        }
        let plan = cache.plan(&rows[i]);
        plans.push(plan);
        i += 1;
    }
    assert(rows@.take(i as int) =~= rows@);
    plans
}

/// A request to bind an ability to a slot.
#[derive(Clone, Copy, Debug, PartialEq, Eq, Structural)]
pub struct AssignHotbarSlot {
    pub slot: u32,
    pub ability: NetAuxiliaryAbility,
}

/// A change of what is bound to a slot of an entity's ability bar.
#[derive(Clone, Copy, Debug, PartialEq, Eq, Structural)]
pub struct AbilityChange {
    pub entity: u64,
    pub slot: usize,
    pub new_ability: AuxiliaryAbility,
}

/// The change that a request calls for on the entity that it acts for.
pub open spec fn change_for(entity: u64, message: AssignHotbarSlot) -> AbilityChange {
    AbilityChange { entity, slot: message.slot as usize, new_ability: sim_aux(message.ability) }
}

/// The changes that a list of requests calls for, in order. A request that acts for no entity
/// calls for none.
pub open spec fn changes(
    clients: Seq<ClientId>,
    messages: Seq<AssignHotbarSlot>,
    player: Option<u64>,
    sessions: Map<u64, PlayerDimensionSession>,
) -> Seq<AbilityChange> {
    routed(clients, player, sessions).map_values(
        |route: RoutedRequest| change_for(route.entity, messages[route.request as int]),
    )
}

/// Turns requests to bind abilities into changes of the entities that they act for. Without a
/// simulation all requests are dropped.
pub fn apply_hotbar_assignment_requests(
    sim_present: bool,
    requests: &Vec<(ClientId, AssignHotbarSlot)>,
    player: Option<u64>,
    sessions: &Sessions,
) -> (made: Vec<AbilityChange>)
    ensures
        made@ == if sim_present {
            changes(
                requests@.map_values(|request: (ClientId, AssignHotbarSlot)| request.0),
                requests@.map_values(|request: (ClientId, AssignHotbarSlot)| request.1),
                player,
                sessions@,
            )
        } else {
            Seq::empty()
        },
{
    let ghost clients = requests@.map_values(|request: (ClientId, AssignHotbarSlot)| request.0);
    let ghost messages = requests@.map_values(|request: (ClientId, AssignHotbarSlot)| request.1);
    let mut made: Vec<AbilityChange> = Vec::new();
    if !sim_present {
        return made;
    }
    let mut i: usize = 0;
    assert(made@ =~= changes(clients.take(0), messages, player, sessions@));
    while i < requests.len()
        invariant
            i <= requests.len(),
            clients == requests@.map_values(|request: (ClientId, AssignHotbarSlot)| request.0),
            messages == requests@.map_values(|request: (ClientId, AssignHotbarSlot)| request.1),
            made@ == changes(clients.take(i as int), messages, player, sessions@),
        decreases requests.len() - i,
    {
        let ghost before = made@;
        proof {
            assert(clients.take(i as int + 1).drop_last() =~= clients.take(i as int));
        }
        if let Some(entity) = resolve_client_entity(requests[i].0, player, sessions) {
            made.push(
                AbilityChange {
                    entity,
                    slot: requests[i].1.slot as usize,
                    new_ability: from_net_aux(requests[i].1.ability),
                },
            );
            assert(made@ =~= changes(clients.take(i as int + 1), messages, player, sessions@));
        } else {
            assert(made@ =~= changes(clients.take(i as int + 1), messages, player, sessions@));
        }
        i += 1;
    }
    assert(clients.take(i as int) =~= clients);
    made
}

/// The replicated form of an ability comes from the same set as the ability, at the same place
/// where that fits, and the way back keeps both.
pub proof fn law_aux_keeps_set_and_place(ability: AuxiliaryAbility, net: NetAuxiliaryAbility)
    ensures
        match net_aux(ability) {
            NetAuxiliaryAbility::MainWeapon(at) => ability is MainWeapon && (
            ability->MainWeapon_0 <= u32::MAX ==> at == ability->MainWeapon_0),
            NetAuxiliaryAbility::OffWeapon(at) => ability is OffWeapon && (ability->OffWeapon_0
                <= u32::MAX ==> at == ability->OffWeapon_0),
            NetAuxiliaryAbility::Glider(at) => ability is Glider && (ability->Glider_0 <= u32::MAX
                ==> at == ability->Glider_0),
            NetAuxiliaryAbility::Innate(at) => ability is Innate && (ability->Innate_0 <= u32::MAX
                ==> at == ability->Innate_0),
            NetAuxiliaryAbility::Empty => ability is Empty,
        },
        match sim_aux(net) {
            AuxiliaryAbility::MainWeapon(at) => net is MainWeapon && at == net->MainWeapon_0,
            AuxiliaryAbility::OffWeapon(at) => net is OffWeapon && at == net->OffWeapon_0,
            AuxiliaryAbility::Glider(at) => net is Glider && at == net->Glider_0,
            AuxiliaryAbility::Innate(at) => net is Innate && at == net->Innate_0,
            AuxiliaryAbility::Empty => net is Empty,
        },
{
}

/// The bar of a row shows what is bound: its primary and secondary ability, and every slot in
/// its place with its own ability and that ability's own identifier.
pub proof fn law_bar_shows_what_is_bound(rows: Seq<HotbarRow>, i: int)
    requires
        0 <= i < rows.len(),
    ensures
        ({
            let (entity, shown) = ability_items(rows)[i];
            &&& ability_items(rows).len() == rows.len()
            &&& entity == rows[i].sim_entity
            &&& shown is Some <==> rows[i].abilities is Some
            &&& shown is Some ==> {
                let bound = rows[i].abilities->0;
                &&& shown->0.primary == (match bound.primary {
                    Some(id) => Some(id@),
                    None => None,
                })
                &&& shown->0.secondary == (match bound.secondary {
                    Some(id) => Some(id@),
                    None => None,
                })
                &&& shown->0.slots.len() == bound.slots@.len()
                &&& forall|k: int|
                    0 <= k < bound.slots@.len() ==> {
                        let slot = #[trigger] shown->0.slots[k];
                        &&& slot.aux == net_aux(bound.slots@[k].aux)
                        &&& slot.ability_id == (match bound.slots@[k].ability_id {
                            Some(id) => Some(id@),
                            None => None,
                        })
                    }
            }
        }),
{
}

proof fn lemma_cooling(entries: Seq<NetCooldownEntry>)
    ensures
        cooling(entries) == entries.filter(
            |entry: NetCooldownEntry| 0 < entry.remaining_secs <= 0x7f80_0000,
        ).map_values(|entry: NetCooldownEntry| entry@),
    decreases entries.len(),
{
    reveal(Seq::filter);
    if entries.len() > 0 {
        lemma_cooling(entries.drop_last());
        law_numbers_are_ordered(0, entries.last().remaining_secs);
        let kept = entries.drop_last().filter(
            |entry: NetCooldownEntry| 0 < entry.remaining_secs <= 0x7f80_0000,
        );
        assert(kept.push(entries.last()).map_values(|entry: NetCooldownEntry| entry@)
            =~= kept.map_values(|entry: NetCooldownEntry| entry@).push(entries.last()@));
    }
    assert(cooling(entries) =~= entries.filter(
        |entry: NetCooldownEntry| 0 < entry.remaining_secs <= 0x7f80_0000,
    ).map_values(|entry: NetCooldownEntry| entry@));
}

/// The cooldowns that are written for a row are those with time left, each with its own time,
/// as many as there are, in the order of the abilities' identifiers. They are taken away
/// exactly where the row has none at all, and written otherwise, if only as an empty list.
pub proof fn law_cooldowns_have_time_left(row: HotbarRow, write: Write<Vec<NetCooldownEntry>>)
    requires
        cooldowns_written(row, write),
    ensures
        write is Remove <==> row.cooldowns is None || row.cooldowns->0@.len() == 0,
        write is Put <==> row.cooldowns is Some && row.cooldowns->0@.len() > 0,
        write is Put ==> {
            let told = cooldowns_of(write->Put_0@);
            let left = row.cooldowns->0@.filter(
                |entry: NetCooldownEntry| 0 < entry.remaining_secs <= 0x7f80_0000,
            ).map_values(|entry: NetCooldownEntry| entry@);
            &&& told.len() == left.len()
            &&& told.to_multiset() == left.to_multiset()
            &&& forall|k: int|
                0 <= k < told.len() ==> told[k].ability_id == (
                #[trigger] write->Put_0@[k]).ability_id@ && told[k].remaining_secs
                    == write->Put_0@[k].remaining_secs
            &&& forall|j: int, k: int|
                0 <= j < k < told.len() ==> text_le(
                    (#[trigger] told[j]).ability_id,
                    (#[trigger] told[k]).ability_id,
                )
        },
{
    if let Some(rows) = row.cooldowns {
        lemma_cooling(rows@);
        if let Write::Put(told) = write {
            let left = cooling(rows@);
            cooldowns_of(told@).to_multiset_ensures();
            left.to_multiset_ensures();
        }
    }
}

/// Every request of a client that plays an entity becomes one change, in the order of arrival,
/// of that entity's own bar, in the slot and to the ability that the message names.
pub proof fn law_assignment_changes_what_it_names(
    clients: Seq<ClientId>,
    messages: Seq<AssignHotbarSlot>,
    player: Option<u64>,
    sessions: Map<u64, PlayerDimensionSession>,
)
    requires
        messages.len() == clients.len(),
        clients.len() <= usize::MAX,
    ensures
        ({
            let routes = routed(clients, player, sessions);
            let made = changes(clients, messages, player, sessions);
            &&& made.len() == routes.len()
            &&& forall|k: int|
                0 <= k < made.len() ==> {
                    let message = messages[routes[k].request as int];
                    &&& (#[trigger] made[k]).entity == routes[k].entity
                    &&& made[k].slot == message.slot
                    &&& match made[k].new_ability {
                        AuxiliaryAbility::MainWeapon(at) => message.ability
                            == NetAuxiliaryAbility::MainWeapon(at as u32),
                        AuxiliaryAbility::OffWeapon(at) => message.ability
                            == NetAuxiliaryAbility::OffWeapon(at as u32),
                        AuxiliaryAbility::Glider(at) => message.ability
                            == NetAuxiliaryAbility::Glider(at as u32),
                        AuxiliaryAbility::Innate(at) => message.ability
                            == NetAuxiliaryAbility::Innate(at as u32),
                        AuxiliaryAbility::Empty => message.ability is Empty,
                    }
                }
        }),
{
}

/// The bar of an entity is written exactly where it is not, in all its parts, what was written
/// last for that entity, and is then what was written last. It is removed where the entity has
/// none.
pub proof fn law_bar_is_written_where_it_changed(
    cache: Map<u64, AbilitiesModel>,
    entity: u64,
    shown: Option<AbilitiesModel>,
)
    ensures
        ({
            let (after, write) = offered::<NetAbilities>(cache, entity, shown);
            &&& shown is None ==> write is Remove && !after.contains_key(entity)
            &&& shown is Some ==> after.contains_key(entity) && after[entity] == shown->0
            &&& write is Keep <==> shown is Some && cache.contains_key(entity)
                && cache[entity].primary == shown->0.primary && cache[entity].secondary
                == shown->0.secondary && cache[entity].slots == shown->0.slots
            &&& shown is Some && !(write is Keep) ==> write == Write::Put(shown->0)
        }),
{
}

} // verus!
