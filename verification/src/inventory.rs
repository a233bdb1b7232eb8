//! The inventory that only its owner sees, and the requests to change it.

use crate::loadout::Hands;
use crate::mirror::SimMirror;
use crate::net_value::{
    alike_all, duplicate_all, lemma_alike_all_is_equality, models, offered, same_all, DedupCache,
    NetValue, Write,
};
use crate::plain_list::{copy_list, same_list, Plain};
use crate::session::{routed, route_requests, ClientId, RoutedRequest, Sessions};
use vstd::prelude::*;

verus! {

/// The number of a place where an item can be equipped.
#[derive(Clone, Copy, Debug, PartialEq, Eq, Structural)]
pub struct EquipSlot(pub u32);

/// The number of a place in the bag.
#[derive(Clone, Copy, Debug, PartialEq, Eq, Structural)]
pub struct InvSlot(pub u32);

/// Whether a place can hold an item.
#[derive(Clone, Copy, Debug, PartialEq, Eq, Structural)]
pub struct SlotFit {
    pub slot: EquipSlot,
    pub can_hold: bool,
}

/// What is read of an item.
pub struct ItemFacts {
    pub item_id: String,
    pub name: String,
    pub amount: u32,
    pub quality: u32,
    /// The hands that it takes, where it is a tool.
    pub tool_hands: Option<Hands>,
    /// Of every place where items can be equipped, whether it can hold this one.
    pub fits: Vec<SlotFit>,
}

/// An item as it is replicated.
pub struct NetItemStack {
    pub item_id: String,
    pub name: String,
    pub amount: u32,
    pub quality: u32,
    pub is_two_handed: bool,
    pub equippable_slots: Vec<EquipSlot>,
}

/// A [`NetItemStack`] over text.
pub ghost struct ItemModel {
    pub item_id: Seq<char>,
    pub name: Seq<char>,
    pub amount: u32,
    pub quality: u32,
    pub is_two_handed: bool,
    pub equippable_slots: Seq<EquipSlot>,
}

impl View for NetItemStack {
    type V = ItemModel;

    open spec fn view(&self) -> ItemModel {
        ItemModel {
            item_id: self.item_id@,
            name: self.name@,
            amount: self.amount,
            quality: self.quality,
            is_two_handed: self.is_two_handed,
            equippable_slots: self.equippable_slots@,
        }
    }
}

/// The model of an optional item.
pub open spec fn item_of(item: Option<NetItemStack>) -> Option<ItemModel> {
    match item {
        Some(item) => Some(item@),
        None => None,
    }
}

impl Plain for EquipSlot {
    fn is(&self, other: &Self) -> (same: bool) {
        *self == *other
    }
}

fn same_item(a: &Option<NetItemStack>, b: &Option<NetItemStack>) -> (same: bool)
    ensures
        same == (item_of(*a) == item_of(*b)),
{
    match (a, b) {
        (Some(a), Some(b)) => a.item_id == b.item_id && a.name == b.name && a.amount == b.amount
            && a.quality == b.quality && a.is_two_handed == b.is_two_handed && same_list(
            &a.equippable_slots,
            &b.equippable_slots,
        ),
        (None, None) => true,
        _ => false,
    }
}

fn copy_item(item: &Option<NetItemStack>) -> (copy: Option<NetItemStack>)
    ensures
        item_of(copy) == item_of(*item),
{
    match item {
        Some(item) => Some(
            NetItemStack {
                item_id: item.item_id.clone(),
                name: item.name.clone(),
                amount: item.amount,
                quality: item.quality,
                is_two_handed: item.is_two_handed,
                equippable_slots: copy_list(&item.equippable_slots),
            },
        ),
        None => None,
    }
}

/// A place in the bag, occupied or not.
pub struct NetInventorySlot {
    pub slot: InvSlot,
    pub item: Option<NetItemStack>,
}

/// A place where an item can be equipped, occupied or not.
pub struct NetEquippedSlot {
    pub slot: EquipSlot,
    pub item: Option<NetItemStack>,
}

impl View for NetInventorySlot {
    type V = (InvSlot, Option<ItemModel>);

    open spec fn view(&self) -> (InvSlot, Option<ItemModel>) {
        (self.slot, item_of(self.item))
    }
}

impl View for NetEquippedSlot {
    type V = (EquipSlot, Option<ItemModel>);

    open spec fn view(&self) -> (EquipSlot, Option<ItemModel>) {
        (self.slot, item_of(self.item))
    }
}

impl NetValue for NetInventorySlot {
    open spec fn alike(a: (InvSlot, Option<ItemModel>), b: (InvSlot, Option<ItemModel>)) -> bool {
        a == b
    }

    fn same(&self, other: &Self) -> (same: bool) {
        self.slot == other.slot && same_item(&self.item, &other.item)
    }

    fn duplicate(&self) -> (copy: Self) {
        NetInventorySlot { slot: self.slot, item: copy_item(&self.item) }
    }
}

impl NetValue for NetEquippedSlot {
    open spec fn alike(
        a: (EquipSlot, Option<ItemModel>),
        b: (EquipSlot, Option<ItemModel>),
    ) -> bool {
        a == b
    }

    fn same(&self, other: &Self) -> (same: bool) {
        self.slot == other.slot && same_item(&self.item, &other.item)
    }

    fn duplicate(&self) -> (copy: Self) {
        NetEquippedSlot { slot: self.slot, item: copy_item(&self.item) }
    }
}

/// The replicated inventory: every place of the bag, every place where items can be equipped.
pub struct NetInventory {
    pub slots: Vec<NetInventorySlot>,
    pub equipped: Vec<NetEquippedSlot>,
    pub capacity: u32,
}

/// A [`NetInventory`] over models.
pub ghost struct InventoryModel {
    pub slots: Seq<(InvSlot, Option<ItemModel>)>,
    pub equipped: Seq<(EquipSlot, Option<ItemModel>)>,
    pub capacity: u32,
}

impl View for NetInventory {
    type V = InventoryModel;

    open spec fn view(&self) -> InventoryModel {
        InventoryModel {
            slots: models(self.slots@),
            equipped: models(self.equipped@),
            capacity: self.capacity,
        }
    }
}

impl NetValue for NetInventory {
    open spec fn alike(a: InventoryModel, b: InventoryModel) -> bool {
        a == b
    }

    fn same(&self, other: &Self) -> (same: bool) {
        proof {
            lemma_alike_all_is_equality::<NetInventorySlot>();
            lemma_alike_all_is_equality::<NetEquippedSlot>();
            assert(alike_all::<NetInventorySlot>(models(self.slots@), models(other.slots@)) == (
            self@.slots == other@.slots));
            assert(alike_all::<NetEquippedSlot>(models(self.equipped@), models(other.equipped@))
                == (self@.equipped == other@.equipped));
        }
        same_all(&self.slots, &other.slots) && same_all(&self.equipped, &other.equipped)
            && self.capacity == other.capacity
    }

    fn duplicate(&self) -> (copy: Self) {
        NetInventory {
            slots: duplicate_all(&self.slots),
            equipped: duplicate_all(&self.equipped),
            capacity: self.capacity,
        }
    }
}

/// The places that can hold an item, in the order in which they were asked.
pub open spec fn fitting(fits: Seq<SlotFit>) -> Seq<EquipSlot>
    decreases fits.len(),
{
    if fits.len() == 0 {
        Seq::empty()
    } else if fits.last().can_hold {
        fitting(fits.drop_last()).push(fits.last().slot)
    } else {
        fitting(fits.drop_last())
    }
}

/// The replicated form of an item.
pub open spec fn stack_of(item: ItemFacts) -> ItemModel {
    ItemModel {
        item_id: item.item_id@,
        name: item.name@,
        amount: item.amount,
        quality: item.quality,
        is_two_handed: item.tool_hands == Some(Hands::Two),
        equippable_slots: fitting(item.fits@),
    }
}

/// The replicated form of what is in a place.
pub open spec fn stack_in(item: Option<ItemFacts>) -> Option<ItemModel> {
    match item {
        Some(item) => Some(stack_of(item)),
        None => None,
    }
}

/// Whether an item is a tool that takes both hands.
pub fn item_is_two_handed(item: &ItemFacts) -> (two_handed: bool)
    ensures
        two_handed == (item.tool_hands == Some(Hands::Two)),
{
    match item.tool_hands {
        Some(hands) => hands == Hands::Two,
        None => false,
    }
}

/// The places where an item can be equipped.
pub fn item_equippable_slots(item: &ItemFacts) -> (slots: Vec<EquipSlot>)
    ensures
        slots@ == fitting(item.fits@),
{
    let mut slots: Vec<EquipSlot> = Vec::new();
    let mut i: usize = 0;
    while i < item.fits.len()
        invariant
            i <= item.fits.len(),
            slots@ == fitting(item.fits@.take(i as int)),
        decreases item.fits.len() - i,
    {
        proof {
            assert(item.fits@.take(i as int + 1).drop_last() =~= item.fits@.take(i as int));
        }
        if item.fits[i].can_hold {
            slots.push(item.fits[i].slot);
        }
        i += 1;
    }
    assert(item.fits@.take(i as int) =~= item.fits@);
    slots
}

/// Projects what is in a place.
pub fn project_item(item: &Option<ItemFacts>) -> (stack: Option<NetItemStack>)
    ensures
        item_of(stack) == stack_in(*item),
{
    match item {
        Some(item) => Some(
            NetItemStack {
                item_id: item.item_id.clone(),
                name: item.name.clone(),
                amount: item.amount,
                quality: item.quality,
                is_two_handed: item_is_two_handed(item),
                equippable_slots: item_equippable_slots(item),
            },
        ),
        None => None,
    }
}

/// A place in the bag with what is in it.
pub struct BagSlot {
    pub slot: InvSlot,
    pub item: Option<ItemFacts>,
}

/// A place where items can be equipped with what is in it.
pub struct WornSlot {
    pub slot: EquipSlot,
    pub item: Option<ItemFacts>,
}

/// What is read of an inventory: all places, occupied or not.
pub struct InventoryFacts {
    pub slots: Vec<BagSlot>,
    pub equipped: Vec<WornSlot>,
    pub capacity: usize,
}

/// The replicated form of an inventory.
pub open spec fn inventory_of(inventory: InventoryFacts) -> InventoryModel {
    InventoryModel {
        slots: inventory.slots@.map_values(|slot: BagSlot| (slot.slot, stack_in(slot.item))),
        equipped: inventory.equipped@.map_values(
            |slot: WornSlot| (slot.slot, stack_in(slot.item)),
        ),
        capacity: inventory.capacity as u32,
    }
}

/// Projects an inventory.
pub fn project_inventory(inventory: &InventoryFacts) -> (net: NetInventory)
    ensures
        net@ == inventory_of(*inventory),
{
    let mut slots: Vec<NetInventorySlot> = Vec::new();
    let mut i: usize = 0;
    while i < inventory.slots.len()
        invariant
            i <= inventory.slots.len(),
            slots@.len() == i,
            forall|j: int|
                0 <= j < i ==> (#[trigger] slots@[j])@ == (
                    inventory.slots@[j].slot,
                    stack_in(inventory.slots@[j].item),
                ),
        decreases inventory.slots.len() - i,
    {
        slots.push(
            NetInventorySlot {
                slot: inventory.slots[i].slot,
                item: project_item(&inventory.slots[i].item),
            },
        );
        i += 1;
    }
    let mut equipped: Vec<NetEquippedSlot> = Vec::new();
    let mut k: usize = 0;
    while k < inventory.equipped.len()
        invariant
            k <= inventory.equipped.len(),
            equipped@.len() == k,
            forall|j: int|
                0 <= j < k ==> (#[trigger] equipped@[j])@ == (
                    inventory.equipped@[j].slot,
                    stack_in(inventory.equipped@[j].item),
                ),
        decreases inventory.equipped.len() - k,
    {
        equipped.push(
            NetEquippedSlot {
                slot: inventory.equipped[k].slot,
                item: project_item(&inventory.equipped[k].item),
            },
        );
        k += 1;
    }
    let net = NetInventory { slots, equipped, capacity: inventory.capacity as u32 };
    assert(net@.slots =~= inventory_of(*inventory).slots);
    assert(net@.equipped =~= inventory_of(*inventory).equipped);
    net
}

/// The mark that ties what only its owner may see to that owner.
#[derive(Clone, Copy, Debug, PartialEq, Eq, Structural)]
pub struct NetOwnerOnly(pub u64);

impl View for NetOwnerOnly {
    type V = NetOwnerOnly;

    open spec fn view(&self) -> NetOwnerOnly {
        *self
    }
}

impl NetValue for NetOwnerOnly {
    open spec fn alike(a: NetOwnerOnly, b: NetOwnerOnly) -> bool {
        a == b
    }

    fn same(&self, other: &Self) -> (same: bool) {
        *self == *other
    }

    fn duplicate(&self) -> (copy: Self) {
        *self
    }
}

/// What a pass reads of one mirrored entity.
pub struct InventoryRow {
    pub sim_entity: u64,
    pub entity: u64,
    pub uid: Option<u64>,
    pub inventory: Option<InventoryFacts>,
}

/// What is written to one mirror.
pub struct InventoryPlan {
    pub entity: u64,
    pub owner: Write<NetOwnerOnly>,
    pub inventory: Write<NetInventory>,
}

/// An [`InventoryPlan`] over models.
pub ghost struct InventoryPlanModel {
    pub entity: u64,
    pub owner: Write<NetOwnerOnly>,
    pub inventory: Write<InventoryModel>,
}

impl View for InventoryPlan {
    type V = InventoryPlanModel;

    open spec fn view(&self) -> InventoryPlanModel {
        InventoryPlanModel {
            entity: self.entity,
            owner: self.owner@,
            inventory: self.inventory@,
        }
    }
}

/// The inventories and owners that were last written for each simulation entity.
pub struct InventoryMirrorCache {
    inventory: DedupCache<NetInventory>,
    owner: DedupCache<NetOwnerOnly>,
}

/// An [`InventoryMirrorCache`] over models.
pub ghost struct InventoryCacheModel {
    pub inventory: Map<u64, InventoryModel>,
    pub owner: Map<u64, NetOwnerOnly>,
}

impl View for InventoryMirrorCache {
    type V = InventoryCacheModel;

    closed spec fn view(&self) -> InventoryCacheModel {
        InventoryCacheModel { inventory: self.inventory@, owner: self.owner@ }
    }
}

/// The cache of a pass that finds `live` mirrored.
pub open spec fn pruned(cache: InventoryCacheModel, live: Set<u64>) -> InventoryCacheModel {
    InventoryCacheModel {
        inventory: cache.inventory.restrict(live),
        owner: cache.owner.restrict(live),
    }
}

/// The inventory of a row.
pub open spec fn row_inventory(row: InventoryRow) -> Option<InventoryModel> {
    match row.inventory {
        Some(inventory) => Some(inventory_of(inventory)),
        None => None,
    }
}

/// What is written for one row, and the cache after it. An entity without an identifier has
/// no owner and is left alone altogether.
pub open spec fn inventory_step(cache: InventoryCacheModel, row: InventoryRow) -> (
    InventoryCacheModel,
    Option<InventoryPlanModel>,
) {
    match row.uid {
        Some(uid) => {
            let owner = offered::<NetOwnerOnly>(
                cache.owner,
                row.sim_entity,
                Some(NetOwnerOnly(uid)),
            );
            let inventory = offered::<NetInventory>(
                cache.inventory,
                row.sim_entity,
                row_inventory(row),
            );
            (
                InventoryCacheModel { inventory: inventory.0, owner: owner.0 },
                Some(
                    InventoryPlanModel {
                        entity: row.entity,
                        owner: owner.1,
                        inventory: inventory.1,
                    },
                ),
            )
        },
        None => (cache, None),
    }
}

/// What is written for all rows, in order, and the cache after them.
pub open spec fn inventory_pass(cache: InventoryCacheModel, rows: Seq<InventoryRow>) -> (
    InventoryCacheModel,
    Seq<InventoryPlanModel>,
)
    decreases rows.len(),
{
    if rows.len() == 0 {
        (cache, Seq::empty())
    } else {
        let before = inventory_pass(cache, rows.drop_last());
        let step = inventory_step(before.0, rows.last());
        (
            step.0,
            match step.1 {
                Some(plan) => before.1.push(plan),
                None => before.1,
            },
        )
    }
}

impl InventoryMirrorCache {
    /// A cache that holds nothing.
    pub fn new() -> (cache: InventoryMirrorCache)
        ensures
            cache@ == (InventoryCacheModel { inventory: Map::empty(), owner: Map::empty() }),
    {
        InventoryMirrorCache { inventory: DedupCache::new(), owner: DedupCache::new() }
    }

    /// Plans what is written to one mirror.
    pub fn plan(&mut self, row: &InventoryRow) -> (plan: Option<InventoryPlan>)
        ensures
            final(self)@ == inventory_step(old(self)@, *row).0,
            plan is Some <==> inventory_step(old(self)@, *row).1 is Some,
            plan is Some ==> plan->0@ == inventory_step(old(self)@, *row).1->0,
    {
        let uid: u64 = match row.uid {
            Some(uid) => uid,
            None => {
                return None;
            },
        };
        let inventory = match &row.inventory {
            Some(inventory) => Some(project_inventory(inventory)),
            None => None,
        };
        Some(
            InventoryPlan {
                entity: row.entity,
                owner: self.owner.offer(row.sim_entity, Some(NetOwnerOnly(uid))),
                inventory: self.inventory.offer(row.sim_entity, inventory),
            },
        )
    }
}

/// One pass over all mirrored entities: forgets those that are mirrored no longer, and plans
/// what is written to each of the others.
pub fn mirror_inventory_state(
    rows: &Vec<InventoryRow>,
    mirror: &SimMirror,
    cache: &mut InventoryMirrorCache,
) -> (plans: Vec<InventoryPlan>)
    ensures
        (final(cache)@, models(plans@)) == inventory_pass(
            pruned(old(cache)@, mirror.0@.dom()),
            rows@,
        ),
{
    cache.inventory.retain(&mirror.0);
    cache.owner.retain(&mirror.0);
    let ghost start = cache@;
    let mut plans: Vec<InventoryPlan> = Vec::new();
    let mut i: usize = 0;
    assert(models(plans@) =~= Seq::<InventoryPlanModel>::empty());
    while i < rows.len()
        invariant
            i <= rows.len(),
            (cache@, models(plans@)) == inventory_pass(start, rows@.take(i as int)),
        decreases rows.len() - i,
    {
        let ghost before = plans@;
        proof {
            assert(rows@.take(i as int + 1).drop_last() =~= rows@.take(i as int));
        }
        if let Some(plan) = cache.plan(&rows[i]) {
            plans.push(plan);
            assert(models(plans@) =~= models(before).push(plan@));
        }
        i += 1;
    }
    assert(rows@.take(i as int) =~= rows@);
    plans
}

/// Finds the entity whose inventory each request changes. Without a simulation all requests
/// are dropped.
pub fn apply_inventory_action_requests(
    sim_present: bool,
    clients: &Vec<ClientId>,
    player: Option<u64>,
    sessions: &Sessions,
) -> (routes: Vec<RoutedRequest>)
    ensures
        routes@ == if sim_present {
            routed(clients@, player, sessions@)
        } else {
            Seq::empty()
        },
{
    route_requests(sim_present, clients, player, sessions)
}

/// Whether every inventory that a cache remembers has an owner there.
pub open spec fn owned(cache: InventoryCacheModel) -> bool {
    cache.inventory.dom().subset_of(cache.owner.dom())
}

/// No two rows are of one entity.
pub open spec fn distinct(rows: Seq<InventoryRow>) -> bool {
    forall|i: int, j: int|
        #![trigger rows[i], rows[j]]
        0 <= i < j < rows.len() ==> rows[i].sim_entity != rows[j].sim_entity
}

/// No inventory is ever written without the mark of its owner: where every remembered
/// inventory has an owner, that stays so through a pass, and an entity that has an identifier
/// has it as the owner afterwards.
pub proof fn law_inventory_never_without_owner(cache: InventoryCacheModel, rows: Seq<InventoryRow>)
    requires
        owned(cache),
    ensures
        owned(inventory_pass(cache, rows).0),
        forall|live: Set<u64>| owned(#[trigger] pruned(cache, live)),
        distinct(rows) ==> forall|i: int|
            0 <= i < rows.len() && (#[trigger] rows[i]).uid is Some ==> {
                let owner = inventory_pass(cache, rows).0.owner;
                &&& owner.contains_key(rows[i].sim_entity)
                &&& owner[rows[i].sim_entity] == NetOwnerOnly(rows[i].uid->0)
            },
    decreases rows.len(),
{
    if rows.len() > 0 {
        let init = rows.drop_last();
        law_inventory_never_without_owner(cache, init);
        if distinct(rows) {
            assert forall|i: int, j: int|
                #![trigger init[i], init[j]]
                0 <= i < j < init.len() implies init[i].sim_entity != init[j].sim_entity by {
                assert(rows[i].sim_entity != rows[j].sim_entity);
            }
            assert forall|i: int|
                0 <= i < rows.len() && (#[trigger] rows[i]).uid is Some implies {
                let owner = inventory_pass(cache, rows).0.owner;
                &&& owner.contains_key(rows[i].sim_entity)
                &&& owner[rows[i].sim_entity] == NetOwnerOnly(rows[i].uid->0)
            } by {
                if i < init.len() {
                    assert(init[i] == rows[i]);
                    assert(rows[i].sim_entity != rows[rows.len() - 1].sim_entity);
                }
            }
        }
    }
}

/// The row of an entity that has an identifier leaves that identifier as its remembered
/// owner; the mark itself is written or kept, and never removed.
pub proof fn law_owner_mark_is_never_removed(cache: InventoryCacheModel, row: InventoryRow)
    requires
        row.uid is Some,
    ensures
        ({
            let step = inventory_step(cache, row);
            &&& step.0.owner.contains_key(row.sim_entity)
            &&& step.0.owner[row.sim_entity] == NetOwnerOnly(row.uid->0)
            &&& step.1 is Some
            &&& !(step.1->0.owner is Remove)
        }),
{
}

/// Whether what a client is shown in a place is the item that lies there: its own identifier,
/// name, amount and quality, whether it takes both hands, and the places that can hold it, in
/// order. An empty place shows nothing.
pub open spec fn shows_item(shown: Option<ItemModel>, item: Option<ItemFacts>) -> bool {
    &&& shown is Some <==> item is Some
    &&& item is Some ==> {
        &&& shown->0.item_id == item->0.item_id@
        &&& shown->0.name == item->0.name@
        &&& shown->0.amount == item->0.amount
        &&& shown->0.quality == item->0.quality
        &&& shown->0.is_two_handed <==> (item->0.tool_hands matches Some(hands) && hands is Two)
        &&& shown->0.equippable_slots == item->0.fits@.filter(
            |fit: SlotFit| fit.can_hold,
        ).map_values(|fit: SlotFit| fit.slot)
    }
}

proof fn lemma_fitting(fits: Seq<SlotFit>)
    ensures
        fitting(fits) == fits.filter(|fit: SlotFit| fit.can_hold).map_values(
            |fit: SlotFit| fit.slot,
        ),
    decreases fits.len(),
{
    reveal(Seq::filter);
    if fits.len() > 0 {
        lemma_fitting(fits.drop_last());
    }
    assert(fitting(fits) =~= fits.filter(|fit: SlotFit| fit.can_hold).map_values(
        |fit: SlotFit| fit.slot,
    ));
}

/// Every place of the bag and every place where items can be equipped shows the item that lies
/// in it, and the number of places is told as it is.
pub proof fn law_inventory_shows_its_items(inventory: InventoryFacts)
    ensures
        ({
            let shown = inventory_of(inventory);
            &&& shown.slots.len() == inventory.slots@.len()
            &&& forall|i: int|
                #![trigger shown.slots[i]]
                #![trigger inventory.slots@[i]]
                0 <= i < shown.slots.len() ==> shown.slots[i].0 == inventory.slots@[i].slot
                    && shows_item(shown.slots[i].1, inventory.slots@[i].item)
            &&& shown.equipped.len() == inventory.equipped@.len()
            &&& forall|i: int|
                #![trigger shown.equipped[i]]
                #![trigger inventory.equipped@[i]]
                0 <= i < shown.equipped.len() ==> shown.equipped[i].0
                    == inventory.equipped@[i].slot && shows_item(
                    shown.equipped[i].1,
                    inventory.equipped@[i].item,
                )
            &&& inventory.capacity <= u32::MAX ==> shown.capacity == inventory.capacity
        }),
{
    let shown = inventory_of(inventory);
    assert forall|i: int| 0 <= i < shown.slots.len() implies shows_item(
        (#[trigger] shown.slots[i]).1,
        inventory.slots@[i].item,
    ) by {
        if let Some(item) = inventory.slots@[i].item {
            lemma_fitting(item.fits@);
        }
    }
    assert forall|i: int| 0 <= i < shown.equipped.len() implies shows_item(
        (#[trigger] shown.equipped[i]).1,
        inventory.equipped@[i].item,
    ) by {
        if let Some(item) = inventory.equipped@[i].item {
            lemma_fitting(item.fits@);
        }
    }
}

/// The row of an entity that has an identifier leaves the client with that identifier as the
/// owner and with the inventory of the row: each is written where something else, or nothing,
/// was written last, and left alone where just that was. Without an inventory the replicated
/// one is removed. The row of an entity that has no identifier changes nothing, and no row
/// touches what is remembered of another entity.
pub proof fn law_inventory_row_is_written_once(cache: InventoryCacheModel, row: InventoryRow)
    ensures
        ({
            let (after, plan) = inventory_step(cache, row);
            let e = row.sim_entity;
            &&& plan is Some <==> row.uid is Some
            &&& row.uid is None ==> after == cache
            &&& forall|other: u64|
                other != e ==> {
                    &&& #[trigger] after.inventory.contains_key(other)
                        == cache.inventory.contains_key(other)
                    &&& after.inventory[other] == cache.inventory[other]
                    &&& #[trigger] after.owner.contains_key(other) == cache.owner.contains_key(other)
                    &&& after.owner[other] == cache.owner[other]
                }
            &&& row.uid is Some ==> {
                let held = cache.inventory.contains_key(e);
                let owner_held = cache.owner.contains_key(e) && cache.owner[e].0 == row.uid->0;
                &&& plan->0.entity == row.entity
                &&& plan->0.owner == (if owner_held {
                    Write::Keep
                } else {
                    Write::Put(NetOwnerOnly(row.uid->0))
                })
                &&& row.inventory is None ==> plan->0.inventory is Remove
                    && !after.inventory.contains_key(e)
                &&& row.inventory is Some ==> {
                    let shown = inventory_of(row.inventory->0);
                    &&& after.inventory.contains_key(e)
                    &&& after.inventory[e] == shown
                    &&& plan->0.inventory == (if held && cache.inventory[e] == shown {
                        Write::Keep
                    } else {
                        Write::Put(shown)
                    })
                }
            }
        }),
{
}

/// A pass calls for something for every row of an entity that has an identifier, in the order
/// of the rows, and for no other.
pub proof fn law_inventory_pass_serves_every_row(
    cache: InventoryCacheModel,
    rows: Seq<InventoryRow>,
)
    ensures
        inventory_pass(cache, rows).1.map_values(|plan: InventoryPlanModel| plan.entity)
            == rows.filter(|row: InventoryRow| row.uid is Some).map_values(
            |row: InventoryRow| row.entity,
        ),
    decreases rows.len(),
{
    reveal(Seq::filter);
    if rows.len() > 0 {
        law_inventory_pass_serves_every_row(cache, rows.drop_last());
        let before = inventory_pass(cache, rows.drop_last());
        let served = rows.drop_last().filter(|row: InventoryRow| row.uid is Some);
        if let Some(plan) = inventory_step(before.0, rows.last()).1 {
            assert(before.1.push(plan).map_values(|plan: InventoryPlanModel| plan.entity)
                =~= before.1.map_values(|plan: InventoryPlanModel| plan.entity).push(plan.entity));
            assert(served.push(rows.last()).map_values(|row: InventoryRow| row.entity)
                =~= served.map_values(|row: InventoryRow| row.entity).push(rows.last().entity));
        }
    }
    assert(inventory_pass(cache, rows).1.map_values(|plan: InventoryPlanModel| plan.entity)
        =~= rows.filter(|row: InventoryRow| row.uid is Some).map_values(
        |row: InventoryRow| row.entity,
    ));
}

/// Every place of the bag and every place where items can be equipped has an entry, occupied
/// or not.
pub proof fn law_every_place_has_an_entry(inventory: InventoryFacts)
    ensures
        inventory_of(inventory).slots.len() == inventory.slots@.len(),
        inventory_of(inventory).equipped.len() == inventory.equipped@.len(),
{
}

/// Rows are taken one after the other: a pass over a list is a pass over its first part and
/// then, with what that left remembered, over the rest.
pub proof fn law_inventory_pass_splits(
    cache: InventoryCacheModel,
    first: Seq<InventoryRow>,
    rest: Seq<InventoryRow>,
)
    ensures
        ({
            let half = inventory_pass(cache, first);
            let other = inventory_pass(half.0, rest);
            inventory_pass(cache, first + rest) == (other.0, half.1 + other.1)
        }),
        forall|row: InventoryRow| #[trigger]
            inventory_pass(cache, seq![row]) == (inventory_step(cache, row).0, match inventory_step(cache, row).1 {
                Some(plan) => seq![plan],
                None => Seq::empty(),
            }),
    decreases rest.len(),
{
    assert forall|row: InventoryRow| #[trigger]
        inventory_pass(cache, seq![row]) == (inventory_step(cache, row).0, match inventory_step(cache, row).1 {
            Some(plan) => seq![plan],
            None => Seq::empty(),
        }) by {
        assert(seq![row].drop_last() =~= Seq::<InventoryRow>::empty());
        assert(inventory_pass(cache, seq![row].drop_last()) == (cache, Seq::<InventoryPlanModel>::empty()));
        if let Some(plan) = inventory_step(cache, row).1 {
            assert(Seq::<InventoryPlanModel>::empty().push(plan) =~= seq![plan]);
        }
    }
    if rest.len() == 0 {
        assert(first + rest =~= first);
        let half = inventory_pass(cache, first);
        assert(half.1 + Seq::<InventoryPlanModel>::empty() =~= half.1);
    } else {
        law_inventory_pass_splits(cache, first, rest.drop_last());
        assert((first + rest).drop_last() =~= first + rest.drop_last());
        let half = inventory_pass(cache, first);
        let other = inventory_pass(half.0, rest.drop_last());
        if let Some(plan) = inventory_step(other.0, rest.last()).1 {
            assert((half.1 + other.1).push(plan) =~= half.1 + other.1.push(plan));
        }
    }
}

/// Before a pass exactly the entities that are no longer mirrored are forgotten.
pub proof fn law_unmirrored_owners_are_forgotten(
    cache: InventoryCacheModel,
    live: Set<u64>,
    e: u64,
)
    ensures
        ({
            let kept = pruned(cache, live);
            &&& kept.inventory.contains_key(e) <==> cache.inventory.contains_key(e)
                && live.contains(e)
            &&& kept.owner.contains_key(e) <==> cache.owner.contains_key(e) && live.contains(e)
            &&& kept.inventory.contains_key(e) ==> kept.inventory[e] == cache.inventory[e]
            &&& kept.owner.contains_key(e) ==> kept.owner[e] == cache.owner[e]
        }),
{
}

} // verus!
