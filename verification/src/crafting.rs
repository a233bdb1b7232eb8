//! What an owner can craft, salvage, forge and repair.

use crate::inventory::{EquipSlot, InvSlot, NetOwnerOnly};
use crate::loadout::ToolKind;
use crate::mirror::SimMirror;
use crate::net_value::{
    alike_all, duplicate_all, lemma_alike_all_is_equality, models, offered, same_all, DedupCache,
    NetValue, Write,
};
use crate::plain_list::{copy_list, same_list, Plain};
use vstd::prelude::*;

verus! {

/// What a recipe asks for.
pub enum RecipeInput {
    /// The item of this name.
    Item(String),
    /// Items with this tag.
    Tag(String),
    /// Items with this tag, all of them the same.
    TagSameItem(String),
    /// One of the items of these names.
    ListSameItem(Vec<String>),
}

/// An item in the bag, against one input of a recipe.
#[derive(Clone, Copy, Debug, PartialEq, Eq, Structural)]
pub struct InputMatch {
    pub amount: u32,
    pub matches: bool,
}

/// An input of a recipe, with the items in the bag held against it.
pub struct InputFacts {
    pub input: RecipeInput,
    pub required: u32,
    pub bag: Vec<InputMatch>,
}

/// The place that an ingredient is taken from.
#[derive(Clone, Copy, Debug, PartialEq, Eq, Structural)]
pub struct IngredientSlot {
    pub input: u32,
    pub slot: InvSlot,
}

/// What is read of a known recipe. `ingredients` holds the places of all ingredients, where
/// the bag holds them.
pub struct RecipeFacts {
    pub key: String,
    pub output_id: String,
    pub output_name: String,
    pub output_amount: u32,
    pub output_quality: u32,
    pub inputs: Vec<InputFacts>,
    pub ingredients: Option<Vec<IngredientSlot>>,
    pub craft_sprite: Option<u32>,
}

/// A part of a modular tool.
#[derive(Clone, Copy, Debug, PartialEq, Eq, Structural)]
pub enum ModularComponent {
    ToolPrimaryComponent { toolkind: ToolKind },
    ToolSecondaryComponent { toolkind: ToolKind },
}

/// What is read of an item in the bag.
#[derive(Clone, Copy, Debug, PartialEq, Eq, Structural)]
pub struct CraftItem {
    pub salvageable: bool,
    pub component: Option<ModularComponent>,
    /// What it has lost of its durability, where it has any to lose.
    pub durability_lost: Option<u32>,
}

/// A place in the bag.
#[derive(Clone, Copy, Debug, PartialEq, Eq, Structural)]
pub struct CraftBagSlot {
    pub slot: InvSlot,
    pub item: Option<CraftItem>,
}

/// A place where an item is equipped, with what that item has lost of its durability; `None`
/// where nothing is equipped or there is nothing to lose.
#[derive(Clone, Copy, Debug, PartialEq, Eq, Structural)]
pub struct CraftWornSlot {
    pub slot: EquipSlot,
    pub durability_lost: Option<u32>,
}

/// What is read of an inventory.
pub struct CraftingFacts {
    pub recipes: Vec<RecipeFacts>,
    pub bag: Vec<CraftBagSlot>,
    pub worn: Vec<CraftWornSlot>,
    pub max_durability: u32,
}

/// An input of a recipe as it is shown.
pub struct NetRecipeInput {
    pub name: String,
    pub required: u32,
    pub available: u32,
}

/// A recipe as it is shown.
pub struct NetRecipe {
    pub key: String,
    pub output_id: String,
    pub output_name: String,
    pub output_amount: u32,
    pub output_quality: u32,
    pub inputs: Vec<NetRecipeInput>,
    pub craftable: bool,
    pub craft_sprite: Option<u32>,
    pub craft_slots: Vec<IngredientSlot>,
}

/// A part of a modular tool in the bag.
#[derive(Clone, Copy, Debug, PartialEq, Eq, Structural)]
pub struct NetModularComponentSlot {
    pub slot: InvSlot,
    pub is_primary: bool,
    pub is_secondary: bool,
    pub toolkind: ToolKind,
}

/// A place of an inventory.
#[derive(Clone, Copy, Debug, PartialEq, Eq, Structural)]
pub enum Slot {
    Inventory(InvSlot),
    Equip(EquipSlot),
}

/// A damaged item.
#[derive(Clone, Copy, Debug, PartialEq, Eq, Structural)]
pub struct NetRepairableSlot {
    pub slot: Slot,
    pub durability_lost: u32,
    pub max_durability: u32,
}

/// Everything that an owner can do at a crafting station.
pub struct NetCrafting {
    pub recipes: Vec<NetRecipe>,
    pub salvageable: Vec<InvSlot>,
    pub components: Vec<NetModularComponentSlot>,
    pub repairable: Vec<NetRepairableSlot>,
}

/// A [`NetRecipeInput`] over text.
pub ghost struct RecipeInputModel {
    pub name: Seq<char>,
    pub required: u32,
    pub available: u32,
}

/// A [`NetRecipe`] over text.
pub ghost struct RecipeModel {
    pub key: Seq<char>,
    pub output_id: Seq<char>,
    pub output_name: Seq<char>,
    pub output_amount: u32,
    pub output_quality: u32,
    pub inputs: Seq<RecipeInputModel>,
    pub craftable: bool,
    pub craft_sprite: Option<u32>,
    pub craft_slots: Seq<IngredientSlot>,
}

/// A [`NetCrafting`] over models.
pub ghost struct CraftingModel {
    pub recipes: Seq<RecipeModel>,
    pub salvageable: Seq<InvSlot>,
    pub components: Seq<NetModularComponentSlot>,
    pub repairable: Seq<NetRepairableSlot>,
}

impl View for NetRecipeInput {
    type V = RecipeInputModel;

    open spec fn view(&self) -> RecipeInputModel {
        RecipeInputModel {
            name: self.name@,
            required: self.required,
            available: self.available,
        }
    }
}

impl View for NetRecipe {
    type V = RecipeModel;

    open spec fn view(&self) -> RecipeModel {
        RecipeModel {
            key: self.key@,
            output_id: self.output_id@,
            output_name: self.output_name@,
            output_amount: self.output_amount,
            output_quality: self.output_quality,
            inputs: models(self.inputs@),
            craftable: self.craftable,
            craft_sprite: self.craft_sprite,
            craft_slots: self.craft_slots@,
        }
    }
}

impl View for NetCrafting {
    type V = CraftingModel;

    open spec fn view(&self) -> CraftingModel {
        CraftingModel {
            recipes: models(self.recipes@),
            salvageable: self.salvageable@,
            components: self.components@,
            repairable: self.repairable@,
        }
    }
}

impl Plain for InvSlot {
    fn is(&self, other: &Self) -> (same: bool) {
        *self == *other
    }
}

impl Plain for IngredientSlot {
    fn is(&self, other: &Self) -> (same: bool) {
        *self == *other
    }
}

impl Plain for NetModularComponentSlot {
    fn is(&self, other: &Self) -> (same: bool) {
        *self == *other
    }
}

impl Plain for NetRepairableSlot {
    fn is(&self, other: &Self) -> (same: bool) {
        *self == *other
    }
}

impl NetValue for NetRecipeInput {
    open spec fn alike(a: RecipeInputModel, b: RecipeInputModel) -> bool {
        a == b
    }

    fn same(&self, other: &Self) -> (same: bool) {
        self.name == other.name && self.required == other.required && self.available
            == other.available
    }

    fn duplicate(&self) -> (copy: Self) {
        NetRecipeInput {
            name: self.name.clone(),
            required: self.required,
            available: self.available,
        }
    }
}

fn same_sprite(a: Option<u32>, b: Option<u32>) -> (same: bool)
    ensures
        same == (a == b),
{
    match (a, b) {
        (Some(a), Some(b)) => a == b,
        (None, None) => true,
        _ => false,
    }
}

impl NetValue for NetRecipe {
    open spec fn alike(a: RecipeModel, b: RecipeModel) -> bool {
        a == b
    }

    fn same(&self, other: &Self) -> (same: bool) {
        proof {
            lemma_alike_all_is_equality::<NetRecipeInput>();
            assert(alike_all::<NetRecipeInput>(models(self.inputs@), models(other.inputs@)) == (
            self@.inputs == other@.inputs));
        }
        self.key == other.key && self.output_id == other.output_id && self.output_name
            == other.output_name && self.output_amount == other.output_amount
            && self.output_quality == other.output_quality && same_all(&self.inputs, &other.inputs)
            && self.craftable == other.craftable && same_sprite(
            self.craft_sprite,
            other.craft_sprite,
        ) && same_list(&self.craft_slots, &other.craft_slots)
    }

    fn duplicate(&self) -> (copy: Self) {
        NetRecipe {
            key: self.key.clone(),
            output_id: self.output_id.clone(),
            output_name: self.output_name.clone(),
            output_amount: self.output_amount,
            output_quality: self.output_quality,
            inputs: duplicate_all(&self.inputs),
            craftable: self.craftable,
            craft_sprite: self.craft_sprite,
            craft_slots: copy_list(&self.craft_slots),
        }
    }
}

impl NetValue for NetCrafting {
    open spec fn alike(a: CraftingModel, b: CraftingModel) -> bool {
        a == b
    }

    fn same(&self, other: &Self) -> (same: bool) {
        proof {
            lemma_alike_all_is_equality::<NetRecipe>();
            assert(alike_all::<NetRecipe>(models(self.recipes@), models(other.recipes@)) == (
            self@.recipes == other@.recipes));
        }
        same_all(&self.recipes, &other.recipes) && same_list(&self.salvageable, &other.salvageable)
            && same_list(&self.components, &other.components) && same_list(
            &self.repairable,
            &other.repairable,
        )
    }

    fn duplicate(&self) -> (copy: Self) {
        NetCrafting {
            recipes: duplicate_all(&self.recipes),
            salvageable: copy_list(&self.salvageable),
            components: copy_list(&self.components),
            repairable: copy_list(&self.repairable),
        }
    }
}

impl NetRecipeInput {
    /// Whether the bag holds enough for this input.
    pub fn satisfied(&self) -> (enough: bool)
        ensures
            enough == (self.available >= self.required),
    {
        self.available >= self.required
    }
}

/// The name that an input is shown by: of a list of items, that of the first; of an empty
/// list, none.
pub open spec fn input_name(input: RecipeInput) -> Seq<char> {
    match input {
        RecipeInput::Item(name) => name@,
        RecipeInput::Tag(name) => name@,
        RecipeInput::TagSameItem(name) => name@,
        RecipeInput::ListSameItem(names) => if names@.len() > 0 {
            names@[0]@
        } else {
            Seq::empty()
        },
    }
}

/// The name that an input is shown by.
pub fn recipe_input_name(input: &RecipeInput) -> (name: String)
    ensures
        name@ == input_name(*input),
{
    match input {
        RecipeInput::Item(name) => name.clone(),
        RecipeInput::Tag(name) => name.clone(),
        RecipeInput::TagSameItem(name) => name.clone(),
        RecipeInput::ListSameItem(names) => if names.len() > 0 {
            names[0].clone()
        } else {
            String::new()
        },
    }
}

/// How much of an input the bag holds: the amounts of all items that match it.
pub open spec fn available(bag: Seq<InputMatch>) -> nat
    decreases bag.len(),
{
    if bag.len() == 0 {
        0
    } else if bag.last().matches {
        available(bag.drop_last()) + bag.last().amount as nat
    } else {
        available(bag.drop_last())
    }
}

proof fn lemma_available_grows(bag: Seq<InputMatch>, n: int)
    requires
        0 <= n <= bag.len(),
    ensures
        available(bag.take(n)) <= available(bag),
    decreases bag.len() - n,
{
    if n < bag.len() {
        lemma_available_grows(bag, n + 1);
        assert(bag.take(n + 1).drop_last() =~= bag.take(n));
    } else {
        assert(bag.take(n) =~= bag);
    }
}

/// How much of an input the bag holds.
pub fn available_for_input(bag: &Vec<InputMatch>) -> (amount: u32)
    requires
        available(bag@) <= u32::MAX,
    ensures
        amount == available(bag@),
{
    let mut amount: u32 = 0;
    let mut i: usize = 0;
    while i < bag.len()
        invariant
            i <= bag.len(),
            available(bag@) <= u32::MAX,
            amount == available(bag@.take(i as int)),
        decreases bag.len() - i,
    {
        proof {
            lemma_available_grows(bag@, i as int + 1);
            assert(bag@.take(i as int + 1).drop_last() =~= bag@.take(i as int));
        }
        if bag[i].matches {
            amount = amount + bag[i].amount;
        }
        i += 1;
    }
    assert(bag@.take(i as int) =~= bag@);
    amount
}

/// An input as it is shown.
pub open spec fn input_model(input: InputFacts) -> RecipeInputModel {
    RecipeInputModel {
        name: input_name(input.input),
        required: input.required,
        available: available(input.bag@) as u32,
    }
}

/// A recipe as it is shown: it can be crafted where the bag holds all ingredients, and then
/// names the places that they are taken from.
pub open spec fn recipe_model(recipe: RecipeFacts) -> RecipeModel {
    RecipeModel {
        key: recipe.key@,
        output_id: recipe.output_id@,
        output_name: recipe.output_name@,
        output_amount: recipe.output_amount,
        output_quality: recipe.output_quality,
        inputs: recipe.inputs@.map_values(|input: InputFacts| input_model(input)),
        craftable: recipe.ingredients is Some,
        craft_sprite: recipe.craft_sprite,
        craft_slots: match recipe.ingredients {
            Some(slots) => slots@,
            None => Seq::empty(),
        },
    }
}

/// The amounts of every input of a recipe add up to no more than can be shown.
pub open spec fn countable(recipe: RecipeFacts) -> bool {
    forall|i: int|
        0 <= i < recipe.inputs@.len() ==> available((#[trigger] recipe.inputs@[i]).bag@) <= u32::MAX
}

/// Projects a known recipe.
pub fn project_recipe(recipe: &RecipeFacts) -> (net: NetRecipe)
    requires
        countable(*recipe),
    ensures
        net@ == recipe_model(*recipe),
{
    let mut inputs: Vec<NetRecipeInput> = Vec::new();
    let mut i: usize = 0;
    while i < recipe.inputs.len()
        invariant
            i <= recipe.inputs.len(),
            countable(*recipe),
            inputs@.len() == i,
            forall|j: int|
                0 <= j < i ==> (#[trigger] inputs@[j])@ == input_model(recipe.inputs@[j]),
        decreases recipe.inputs.len() - i,
    {
        let input = &recipe.inputs[i];
        inputs.push(
            NetRecipeInput {
                name: recipe_input_name(&input.input),
                required: input.required,
                available: available_for_input(&input.bag),
            },
        );
        i += 1;
    }
    let craft_slots = match &recipe.ingredients {
        Some(slots) => copy_list(slots),
        None => Vec::new(),
    };
    let net = NetRecipe {
        key: recipe.key.clone(),
        output_id: recipe.output_id.clone(),
        output_name: recipe.output_name.clone(),
        output_amount: recipe.output_amount,
        output_quality: recipe.output_quality,
        inputs,
        craftable: recipe.ingredients.is_some(),
        craft_sprite: recipe.craft_sprite,
        craft_slots,
    };
    assert(net@.inputs =~= recipe_model(*recipe).inputs);
    net
}

/// The places of the bag that hold something to salvage, in order.
pub open spec fn salvage_slots(bag: Seq<CraftBagSlot>) -> Seq<InvSlot>
    decreases bag.len(),
{
    if bag.len() == 0 {
        Seq::empty()
    } else {
        let before = salvage_slots(bag.drop_last());
        match bag.last().item {
            Some(item) if item.salvageable => before.push(bag.last().slot),
            _ => before,
        }
    }
}

/// A part of a tool at a place of the bag: either of the primary or of the secondary sort.
pub open spec fn component_slot(
    slot: InvSlot,
    component: ModularComponent,
) -> NetModularComponentSlot {
    NetModularComponentSlot {
        slot,
        is_primary: component is ToolPrimaryComponent,
        is_secondary: component is ToolSecondaryComponent,
        toolkind: match component {
            ModularComponent::ToolPrimaryComponent { toolkind } => toolkind,
            ModularComponent::ToolSecondaryComponent { toolkind } => toolkind,
        },
    }
}

/// The parts of tools in the bag, in order.
pub open spec fn component_slots(bag: Seq<CraftBagSlot>) -> Seq<NetModularComponentSlot>
    decreases bag.len(),
{
    if bag.len() == 0 {
        Seq::empty()
    } else {
        let before = component_slots(bag.drop_last());
        match bag.last().item {
            Some(CraftItem { component: Some(component), .. }) => before.push(
                component_slot(bag.last().slot, component),
            ),
            _ => before,
        }
    }
}

/// Whether an item that has lost this much is damaged.
pub open spec fn damaged(durability_lost: Option<u32>) -> bool {
    durability_lost is Some && durability_lost->0 > 0
}

/// The damaged items in the bag, in order.
pub open spec fn repairable_bag(bag: Seq<CraftBagSlot>, max_durability: u32) -> Seq<
    NetRepairableSlot,
>
    decreases bag.len(),
{
    if bag.len() == 0 {
        Seq::empty()
    } else {
        let before = repairable_bag(bag.drop_last(), max_durability);
        match bag.last().item {
            Some(item) if damaged(item.durability_lost) => before.push(
                NetRepairableSlot {
                    slot: Slot::Inventory(bag.last().slot),
                    durability_lost: item.durability_lost->0,
                    max_durability,
                },
            ),
            _ => before,
        }
    }
}

/// The damaged items that are equipped, in order.
pub open spec fn repairable_worn(worn: Seq<CraftWornSlot>, max_durability: u32) -> Seq<
    NetRepairableSlot,
>
    decreases worn.len(),
{
    if worn.len() == 0 {
        Seq::empty()
    } else {
        let before = repairable_worn(worn.drop_last(), max_durability);
        if damaged(worn.last().durability_lost) {
            before.push(
                NetRepairableSlot {
                    slot: Slot::Equip(worn.last().slot),
                    durability_lost: worn.last().durability_lost->0,
                    max_durability,
                },
            )
        } else {
            before
        }
    }
}

/// Everything that can be done with an inventory; damaged items in the bag come before those
/// that are equipped.
pub open spec fn crafting_model(facts: CraftingFacts) -> CraftingModel {
    CraftingModel {
        recipes: facts.recipes@.map_values(|recipe: RecipeFacts| recipe_model(recipe)),
        salvageable: salvage_slots(facts.bag@),
        components: component_slots(facts.bag@),
        repairable: repairable_bag(facts.bag@, facts.max_durability) + repairable_worn(
            facts.worn@,
            facts.max_durability,
        ),
    }
}

/// The amounts of every input of every known recipe add up to no more than can be shown.
pub open spec fn all_countable(facts: CraftingFacts) -> bool {
    forall|i: int| 0 <= i < facts.recipes@.len() ==> countable(#[trigger] facts.recipes@[i])
}

fn component_entry(slot: InvSlot, component: ModularComponent) -> (entry: NetModularComponentSlot)
    ensures
        entry == component_slot(slot, component),
{
    match component {
        ModularComponent::ToolPrimaryComponent { toolkind } => NetModularComponentSlot {
            slot,
            is_primary: true,
            is_secondary: false,
            toolkind,
        },
        ModularComponent::ToolSecondaryComponent { toolkind } => NetModularComponentSlot {
            slot,
            is_primary: false,
            is_secondary: true,
            toolkind,
        },
    }
}

/// Projects everything that can be done with an inventory.
pub fn build_net_crafting(facts: &CraftingFacts) -> (crafting: NetCrafting)
    requires
        all_countable(*facts),
    ensures
        crafting@ == crafting_model(*facts),
{
    let mut recipes: Vec<NetRecipe> = Vec::new();
    let mut i: usize = 0;
    while i < facts.recipes.len()
        invariant
            i <= facts.recipes.len(),
            all_countable(*facts),
            recipes@.len() == i,
            forall|j: int|
                0 <= j < i ==> (#[trigger] recipes@[j])@ == recipe_model(facts.recipes@[j]),
        decreases facts.recipes.len() - i,
    {
        recipes.push(project_recipe(&facts.recipes[i]));
        i += 1;
    }
    let mut salvageable: Vec<InvSlot> = Vec::new();
    let mut components: Vec<NetModularComponentSlot> = Vec::new();
    let mut repairable: Vec<NetRepairableSlot> = Vec::new();
    let mut j: usize = 0;
    while j < facts.bag.len()
        invariant
            j <= facts.bag.len(),
            salvageable@ == salvage_slots(facts.bag@.take(j as int)),
            components@ == component_slots(facts.bag@.take(j as int)),
            repairable@ == repairable_bag(facts.bag@.take(j as int), facts.max_durability),
        decreases facts.bag.len() - j,
    {
        proof {
            assert(facts.bag@.take(j as int + 1).drop_last() =~= facts.bag@.take(j as int));
        }
        let slot = facts.bag[j].slot;
        if let Some(item) = facts.bag[j].item {
            if item.salvageable {
                salvageable.push(slot);
            }
            if let Some(component) = item.component {
                components.push(component_entry(slot, component));
            }
            if let Some(lost) = item.durability_lost {
                if lost > 0 {
                    repairable.push(
                        NetRepairableSlot {
                            slot: Slot::Inventory(slot),
                            durability_lost: lost,
                            max_durability: facts.max_durability,
                        },
                    );
                }
            }
        }
        j += 1;
    }
    assert(facts.bag@.take(j as int) =~= facts.bag@);
    let ghost in_bag = repairable@;
    let mut k: usize = 0;
    assert(repairable@ =~= in_bag + repairable_worn(facts.worn@.take(0), facts.max_durability));
    while k < facts.worn.len()
        invariant
            k <= facts.worn.len(),
            repairable@ == in_bag + repairable_worn(
                facts.worn@.take(k as int),
                facts.max_durability,
            ),
        decreases facts.worn.len() - k,
    {
        proof {
            assert(facts.worn@.take(k as int + 1).drop_last() =~= facts.worn@.take(k as int));
        }
        if let Some(lost) = facts.worn[k].durability_lost {
            if lost > 0 {
                repairable.push(
                    NetRepairableSlot {
                        slot: Slot::Equip(facts.worn[k].slot),
                        durability_lost: lost,
                        max_durability: facts.max_durability,
                    },
                );
            }
        }
        k += 1;
        assert(repairable@ =~= in_bag + repairable_worn(
            facts.worn@.take(k as int),
            facts.max_durability,
        ));
    }
    assert(facts.worn@.take(k as int) =~= facts.worn@);
    let crafting = NetCrafting { recipes, salvageable, components, repairable };
    assert(crafting@.recipes =~= crafting_model(*facts).recipes);
    crafting
}

/// What a pass reads of one mirrored entity.
pub struct CraftingRow {
    pub sim_entity: u64,
    pub entity: u64,
    pub uid: Option<u64>,
    /// Whether a client is behind the entity.
    pub has_presence: bool,
    pub inventory: Option<CraftingFacts>,
}

/// What is written to one mirror.
pub struct CraftingPlan {
    pub entity: u64,
    pub owner: Write<NetOwnerOnly>,
    pub crafting: Write<NetCrafting>,
}

/// A [`CraftingPlan`] over models.
pub ghost struct CraftingPlanModel {
    pub entity: u64,
    pub owner: Write<NetOwnerOnly>,
    pub crafting: Write<CraftingModel>,
}

impl View for CraftingPlan {
    type V = CraftingPlanModel;

    open spec fn view(&self) -> CraftingPlanModel {
        CraftingPlanModel { entity: self.entity, owner: self.owner@, crafting: self.crafting@ }
    }
}

/// What was last written for each simulation entity.
pub struct CraftingMirrorCache {
    crafting: DedupCache<NetCrafting>,
    owner: DedupCache<NetOwnerOnly>,
}

/// A [`CraftingMirrorCache`] over models.
pub ghost struct CraftingCacheModel {
    pub crafting: Map<u64, CraftingModel>,
    pub owner: Map<u64, NetOwnerOnly>,
}

impl View for CraftingMirrorCache {
    type V = CraftingCacheModel;

    closed spec fn view(&self) -> CraftingCacheModel {
        CraftingCacheModel { crafting: self.crafting@, owner: self.owner@ }
    }
}

/// The cache of a pass that finds `live` mirrored.
pub open spec fn pruned(cache: CraftingCacheModel, live: Set<u64>) -> CraftingCacheModel {
    CraftingCacheModel {
        crafting: cache.crafting.restrict(live),
        owner: cache.owner.restrict(live),
    }
}

/// What is written for one row, and the cache after it. An entity without an identifier is
/// left alone; only one with a client behind it and an inventory has anything to craft, and
/// from another one the component is only removed where it was written.
pub open spec fn crafting_step(cache: CraftingCacheModel, row: CraftingRow) -> (
    CraftingCacheModel,
    Option<CraftingPlanModel>,
) {
    match row.uid {
        Some(uid) => {
            let owner = offered::<NetOwnerOnly>(
                cache.owner,
                row.sim_entity,
                Some(NetOwnerOnly(uid)),
            );
            let crafting = match row.inventory {
                Some(facts) if row.has_presence => offered::<NetCrafting>(
                    cache.crafting,
                    row.sim_entity,
                    Some(crafting_model(facts)),
                ),
                _ => (
                    cache.crafting.remove(row.sim_entity),
                    if cache.crafting.contains_key(row.sim_entity) {
                        Write::Remove
                    } else {
                        Write::Keep
                    },
                ),
            };
            (
                CraftingCacheModel { crafting: crafting.0, owner: owner.0 },
                Some(
                    CraftingPlanModel {
                        entity: row.entity,
                        owner: owner.1,
                        crafting: crafting.1,
                    },
                ),
            )
        },
        None => (cache, None),
    }
}

/// What is written for all rows, in order, and the cache after them.
pub open spec fn crafting_pass(cache: CraftingCacheModel, rows: Seq<CraftingRow>) -> (
    CraftingCacheModel,
    Seq<CraftingPlanModel>,
)
    decreases rows.len(),
{
    if rows.len() == 0 {
        (cache, Seq::empty())
    } else {
        let before = crafting_pass(cache, rows.drop_last());
        let step = crafting_step(before.0, rows.last());
        (
            step.0,
            match step.1 {
                Some(plan) => before.1.push(plan),
                None => before.1,
            },
        )
    }
}

/// Whether the amounts in a row can be shown, where they are shown at all.
pub open spec fn row_countable(row: CraftingRow) -> bool {
    row.uid is Some && row.has_presence && row.inventory is Some ==> all_countable(
        row.inventory->0,
    )
}

impl CraftingMirrorCache {
    /// A cache that holds nothing.
    pub fn new() -> (cache: CraftingMirrorCache)
        ensures
            cache@ == (CraftingCacheModel { crafting: Map::empty(), owner: Map::empty() }),
    {
        CraftingMirrorCache { crafting: DedupCache::new(), owner: DedupCache::new() }
    }

    /// Plans what is written to one mirror.
    pub fn plan(&mut self, row: &CraftingRow) -> (plan: Option<CraftingPlan>)
        requires
            row_countable(*row),
        ensures
            final(self)@ == crafting_step(old(self)@, *row).0,
            plan is Some <==> crafting_step(old(self)@, *row).1 is Some,
            plan is Some ==> plan->0@ == crafting_step(old(self)@, *row).1->0,
    {
        let uid: u64 = match row.uid {
            Some(uid) => uid,
            None => {
                return None;
            },
        };
        let owner = self.owner.offer(row.sim_entity, Some(NetOwnerOnly(uid)));
        let crafting = match &row.inventory {
            Some(facts) if row.has_presence => self.crafting.offer(
                row.sim_entity,
                Some(build_net_crafting(facts)),
            ),
            _ => {
                let written = self.crafting.contains(row.sim_entity);
                self.crafting.forget(row.sim_entity);
                if written {
                    Write::Remove
                } else {
                    Write::Keep
                }
            },
        };
        Some(CraftingPlan { entity: row.entity, owner, crafting })
    }
}

/// One pass over all mirrored entities: forgets those that are mirrored no longer, and, where
/// the simulation has a recipe manifest, plans what is written to each of the others.
pub fn mirror_crafting_state(
    rows: &Vec<CraftingRow>,
    has_manifest: bool,
    mirror: &SimMirror,
    cache: &mut CraftingMirrorCache,
) -> (plans: Vec<CraftingPlan>)
    requires
        has_manifest ==> forall|i: int|
            0 <= i < rows@.len() ==> row_countable(#[trigger] rows@[i]),
    ensures
        (final(cache)@, models(plans@)) == if has_manifest {
            crafting_pass(pruned(old(cache)@, mirror.0@.dom()), rows@)
        } else {
            (pruned(old(cache)@, mirror.0@.dom()), Seq::empty())
        },
{
    cache.crafting.retain(&mirror.0);
    cache.owner.retain(&mirror.0);
    let ghost start = cache@;
    let mut plans: Vec<CraftingPlan> = Vec::new();
    assert(models(plans@) =~= Seq::<CraftingPlanModel>::empty());
    if !has_manifest {
        return plans;
    }
    let mut i: usize = 0;
    while i < rows.len()
        invariant
            i <= rows.len(),
            forall|j: int| 0 <= j < rows@.len() ==> row_countable(#[trigger] rows@[j]),
            (cache@, models(plans@)) == crafting_pass(start, rows@.take(i as int)),
        decreases rows.len() - i,
    {
        let ghost before = plans@;
        proof {
            assert(rows@.take(i as int + 1).drop_last() =~= rows@.take(i as int));
        }
        if let Some(plan) = cache.plan(&rows[i]) {
            plans.push(plan);
            assert(models(plans@) =~= models(before).push(plan@));
        }
        i += 1;
    }
    assert(rows@.take(i as int) =~= rows@);
    plans
}

/// An entity without a client behind it never has anything to craft written to its mirror.
pub proof fn law_no_crafting_without_presence(cache: CraftingCacheModel, row: CraftingRow)
    requires
        !row.has_presence,
    ensures
        ({
            let step = crafting_step(cache, row);
            &&& row.uid is Some ==> !step.0.crafting.contains_key(row.sim_entity)
            &&& step.1 is Some ==> !(step.1->0.crafting is Put)
        }),
{
}

/// Whatever is listed for repair has lost some durability.
pub proof fn law_listed_repairs_are_damaged(facts: CraftingFacts, k: int)
    requires
        0 <= k < crafting_model(facts).repairable.len(),
    ensures
        crafting_model(facts).repairable[k].durability_lost > 0,
{
    lemma_bag_damaged(facts.bag@, facts.max_durability);
    lemma_worn_damaged(facts.worn@, facts.max_durability);
}

proof fn lemma_bag_damaged(bag: Seq<CraftBagSlot>, max_durability: u32)
    ensures
        forall|k: int|
            0 <= k < repairable_bag(bag, max_durability).len() ==> (#[trigger] repairable_bag(
                bag,
                max_durability,
            )[k]).durability_lost > 0,
    decreases bag.len(),
{
    if bag.len() > 0 {
        lemma_bag_damaged(bag.drop_last(), max_durability);
    }
}

proof fn lemma_worn_damaged(worn: Seq<CraftWornSlot>, max_durability: u32)
    ensures
        forall|k: int|
            0 <= k < repairable_worn(worn, max_durability).len() ==> (#[trigger] repairable_worn(
                worn,
                max_durability,
            )[k]).durability_lost > 0,
    decreases worn.len(),
{
    if worn.len() > 0 {
        lemma_worn_damaged(worn.drop_last(), max_durability);
    }
}

/// A recipe that cannot be crafted names no places for its ingredients.
pub proof fn law_uncraftable_recipe_has_no_slots(recipe: RecipeFacts)
    ensures
        !recipe_model(recipe).craftable ==> recipe_model(recipe).craft_slots.len() == 0,
{
}

/// What a bag has of an input adds up over its places: a place that holds something that fits
/// counts for its own amount, every other place for nothing, and two parts of a bag for what
/// they have together.
pub proof fn law_available_adds_up(first: Seq<InputMatch>, rest: Seq<InputMatch>, one: InputMatch)
    ensures
        available(first + rest) == available(first) + available(rest),
        available(seq![one]) == (if one.matches {
            one.amount as nat
        } else {
            0
        }),
    decreases rest.len(),
{
    assert(seq![one].drop_last() =~= Seq::<InputMatch>::empty());
    assert(available(Seq::<InputMatch>::empty()) == 0);
    if rest.len() == 0 {
        assert(first + rest =~= first);
    } else {
        law_available_adds_up(first, rest.drop_last(), one);
        assert((first + rest).drop_last() =~= first + rest.drop_last());
    }
}

/// Every recipe is shown in its place as it is: under its own key, with what it makes, with each
/// input under the name of what it asks for, with what it takes and what the bag has of it, and
/// with the station it needs. It can be crafted exactly where ingredients were found for it, and
/// then from just those.
pub proof fn law_recipes_are_shown(facts: CraftingFacts, i: int)
    requires
        all_countable(facts),
        0 <= i < facts.recipes@.len(),
    ensures
        ({
            let recipe = facts.recipes@[i];
            let shown = crafting_model(facts).recipes[i];
            &&& crafting_model(facts).recipes.len() == facts.recipes@.len()
            &&& shown.key == recipe.key@
            &&& shown.output_id == recipe.output_id@
            &&& shown.output_name == recipe.output_name@
            &&& shown.output_amount == recipe.output_amount
            &&& shown.output_quality == recipe.output_quality
            &&& shown.craft_sprite == recipe.craft_sprite
            &&& shown.craftable <==> recipe.ingredients is Some
            &&& recipe.ingredients is Some ==> shown.craft_slots == recipe.ingredients->0@
            &&& recipe.ingredients is None ==> shown.craft_slots.len() == 0
            &&& shown.inputs.len() == recipe.inputs@.len()
            &&& forall|k: int|
                #![trigger shown.inputs[k]]
                #![trigger recipe.inputs@[k]]
                0 <= k < recipe.inputs@.len() ==> {
                    let input = recipe.inputs@[k];
                    &&& shown.inputs[k].required == input.required
                    &&& shown.inputs[k].available == available(input.bag@)
                    &&& match input.input {
                        RecipeInput::Item(name) => shown.inputs[k].name == name@,
                        RecipeInput::Tag(name) => shown.inputs[k].name == name@,
                        RecipeInput::TagSameItem(name) => shown.inputs[k].name == name@,
                        RecipeInput::ListSameItem(names) => if names@.len() > 0 {
                            shown.inputs[k].name == names@[0]@
                        } else {
                            shown.inputs[k].name.len() == 0
                        },
                    }
                }
        }),
{
    assert(countable(facts.recipes@[i]));
}

/// The places of the bag that can be salvaged are exactly those that hold something that can,
/// in order.
pub proof fn law_salvage_lists_its_places(facts: CraftingFacts)
    ensures
        crafting_model(facts).salvageable == facts.bag@.filter(
            |place: CraftBagSlot| place.item is Some && place.item->0.salvageable,
        ).map_values(|place: CraftBagSlot| place.slot),
{
    lemma_salvage_slots(facts.bag@);
}

proof fn lemma_salvage_slots(bag: Seq<CraftBagSlot>)
    ensures
        salvage_slots(bag) == bag.filter(
            |place: CraftBagSlot| place.item is Some && place.item->0.salvageable,
        ).map_values(|place: CraftBagSlot| place.slot),
    decreases bag.len(),
{
    reveal(Seq::filter);
    if bag.len() > 0 {
        lemma_salvage_slots(bag.drop_last());
        let kept = bag.drop_last().filter(
            |place: CraftBagSlot| place.item is Some && place.item->0.salvageable,
        );
        assert(kept.push(bag.last()).map_values(|place: CraftBagSlot| place.slot)
            =~= kept.map_values(|place: CraftBagSlot| place.slot).push(bag.last().slot));
    }
    assert(salvage_slots(bag) =~= bag.filter(
        |place: CraftBagSlot| place.item is Some && place.item->0.salvageable,
    ).map_values(|place: CraftBagSlot| place.slot));
}

/// The components that can be forged with are exactly those that lie in the bag, in order: each
/// in its own place, as the piece that it is, of the kind of tool that it is for.
pub proof fn law_components_are_listed(facts: CraftingFacts)
    ensures
        ({
            let held = facts.bag@.filter(
                |place: CraftBagSlot| place.item is Some && place.item->0.component is Some,
            );
            let shown = crafting_model(facts).components;
            &&& shown.len() == held.len()
            &&& forall|k: int|
                #![trigger shown[k]]
                #![trigger held[k]]
                0 <= k < shown.len() ==> {
                    &&& shown[k].slot == held[k].slot
                    &&& shown[k].is_primary != shown[k].is_secondary
                    &&& match held[k].item->0.component->0 {
                        ModularComponent::ToolPrimaryComponent { toolkind } => shown[k].is_primary
                            && shown[k].toolkind == toolkind,
                        ModularComponent::ToolSecondaryComponent { toolkind } =>
                        shown[k].is_secondary && shown[k].toolkind == toolkind,
                    }
                }
        }),
{
    lemma_component_slots(facts.bag@);
}

proof fn lemma_component_slots(bag: Seq<CraftBagSlot>)
    ensures
        ({
            let held = bag.filter(
                |place: CraftBagSlot| place.item is Some && place.item->0.component is Some,
            );
            let shown = component_slots(bag);
            &&& shown.len() == held.len()
            &&& forall|k: int|
                #![trigger shown[k]]
                #![trigger held[k]]
                0 <= k < shown.len() ==> {
                    &&& shown[k].slot == held[k].slot
                    &&& shown[k].is_primary != shown[k].is_secondary
                    &&& match held[k].item->0.component->0 {
                        ModularComponent::ToolPrimaryComponent { toolkind } => shown[k].is_primary
                            && shown[k].toolkind == toolkind,
                        ModularComponent::ToolSecondaryComponent { toolkind } =>
                        shown[k].is_secondary && shown[k].toolkind == toolkind,
                    }
                }
        }),
    decreases bag.len(),
{
    reveal(Seq::filter);
    if bag.len() > 0 {
        lemma_component_slots(bag.drop_last());
    }
}

/// What can be repaired is exactly what has lost some of its durability, in the bag first and
/// then of what is worn, each in order: in its own place, with what it has lost.
pub proof fn law_repairs_are_listed(facts: CraftingFacts)
    ensures
        ({
            let bag = facts.bag@.filter(
                |place: CraftBagSlot|
                    place.item is Some && place.item->0.durability_lost is Some
                        && place.item->0.durability_lost->0 > 0,
            );
            let worn = facts.worn@.filter(
                |place: CraftWornSlot|
                    place.durability_lost is Some && place.durability_lost->0 > 0,
            );
            let shown = crafting_model(facts).repairable;
            &&& shown.len() == bag.len() + worn.len()
            &&& forall|k: int|
                0 <= k < shown.len() ==> (#[trigger] shown[k]).max_durability
                    == facts.max_durability
            &&& forall|k: int|
                0 <= k < bag.len() ==> shown[k].slot == Slot::Inventory((#[trigger] bag[k]).slot)
                    && Some(shown[k].durability_lost) == bag[k].item->0.durability_lost
            &&& forall|k: int|
                0 <= k < worn.len() ==> shown[bag.len() + k].slot == Slot::Equip(
                    (#[trigger] worn[k]).slot,
                ) && Some(shown[bag.len() + k].durability_lost) == worn[k].durability_lost
        }),
{
    lemma_repairable_bag(facts.bag@, facts.max_durability);
    lemma_repairable_worn(facts.worn@, facts.max_durability);
}

proof fn lemma_repairable_bag(bag: Seq<CraftBagSlot>, max_durability: u32)
    ensures
        ({
            let held = bag.filter(
                |place: CraftBagSlot|
                    place.item is Some && place.item->0.durability_lost is Some
                        && place.item->0.durability_lost->0 > 0,
            );
            let shown = repairable_bag(bag, max_durability);
            &&& shown.len() == held.len()
            &&& forall|k: int|
                #![trigger shown[k]]
                #![trigger held[k]]
                0 <= k < shown.len() ==> shown[k].max_durability == max_durability && shown[k].slot
                    == Slot::Inventory(held[k].slot) && Some(shown[k].durability_lost)
                    == held[k].item->0.durability_lost
        }),
    decreases bag.len(),
{
    reveal(Seq::filter);
    if bag.len() > 0 {
        lemma_repairable_bag(bag.drop_last(), max_durability);
    }
}

proof fn lemma_repairable_worn(worn: Seq<CraftWornSlot>, max_durability: u32)
    ensures
        ({
            let held = worn.filter(
                |place: CraftWornSlot|
                    place.durability_lost is Some && place.durability_lost->0 > 0,
            );
            let shown = repairable_worn(worn, max_durability);
            &&& shown.len() == held.len()
            &&& forall|k: int|
                #![trigger shown[k]]
                #![trigger held[k]]
                0 <= k < shown.len() ==> shown[k].max_durability == max_durability && shown[k].slot
                    == Slot::Equip(held[k].slot) && Some(shown[k].durability_lost)
                    == held[k].durability_lost
        }),
    decreases worn.len(),
{
    reveal(Seq::filter);
    if worn.len() > 0 {
        lemma_repairable_worn(worn.drop_last(), max_durability);
    }
}

/// The row of an entity that has an identifier marks that as the owner. It leaves the client
/// with what the row's inventory can be crafted to exactly where the entity is present and has
/// an inventory, and otherwise takes away what was written, if anything was. The row of an
/// entity that has no identifier changes nothing.
pub proof fn law_crafting_row_is_written_once(cache: CraftingCacheModel, row: CraftingRow)
    ensures
        ({
            let (after, plan) = crafting_step(cache, row);
            let e = row.sim_entity;
            let shows = row.has_presence && row.inventory is Some;
            &&& plan is Some <==> row.uid is Some
            &&& row.uid is None ==> after == cache
            &&& forall|other: u64|
                other != e ==> {
                    &&& #[trigger] after.crafting.contains_key(other)
                        == cache.crafting.contains_key(other)
                    &&& after.crafting[other] == cache.crafting[other]
                    &&& #[trigger] after.owner.contains_key(other) == cache.owner.contains_key(other)
                    &&& after.owner[other] == cache.owner[other]
                }
            &&& row.uid is Some ==> {
                &&& plan->0.entity == row.entity
                &&& after.owner.contains_key(e)
                &&& after.owner[e].0 == row.uid->0
                &&& plan->0.owner is Keep <==> cache.owner.contains_key(e) && cache.owner[e].0
                    == row.uid->0
                &&& !(plan->0.owner is Keep) ==> plan->0.owner == Write::Put(
                    NetOwnerOnly(row.uid->0),
                )
                &&& shows ==> after.crafting.contains_key(e) && after.crafting[e] == crafting_model(
                    row.inventory->0,
                )
                &&& shows ==> (plan->0.crafting is Keep <==> cache.crafting.contains_key(e)
                    && cache.crafting[e] == after.crafting[e])
                &&& shows && !(plan->0.crafting is Keep) ==> plan->0.crafting == Write::Put(
                    after.crafting[e],
                )
                &&& !shows ==> !after.crafting.contains_key(e)
                &&& !shows && cache.crafting.contains_key(e) ==> plan->0.crafting is Remove
                &&& !shows && !cache.crafting.contains_key(e) ==> plan->0.crafting is Keep
            }
        }),
{
}

/// A pass calls for something for every row of an entity that has an identifier, in the order
/// of the rows, and for no other.
pub proof fn law_crafting_pass_serves_every_row(cache: CraftingCacheModel, rows: Seq<CraftingRow>)
    ensures
        crafting_pass(cache, rows).1.map_values(|plan: CraftingPlanModel| plan.entity)
            == rows.filter(|row: CraftingRow| row.uid is Some).map_values(
            |row: CraftingRow| row.entity,
        ),
    decreases rows.len(),
{
    reveal(Seq::filter);
    if rows.len() > 0 {
        law_crafting_pass_serves_every_row(cache, rows.drop_last());
        let before = crafting_pass(cache, rows.drop_last());
        let served = rows.drop_last().filter(|row: CraftingRow| row.uid is Some);
        if let Some(plan) = crafting_step(before.0, rows.last()).1 {
            assert(before.1.push(plan).map_values(|plan: CraftingPlanModel| plan.entity)
                =~= before.1.map_values(|plan: CraftingPlanModel| plan.entity).push(plan.entity));
            assert(served.push(rows.last()).map_values(|row: CraftingRow| row.entity)
                =~= served.map_values(|row: CraftingRow| row.entity).push(rows.last().entity));
        }
    }
    assert(crafting_pass(cache, rows).1.map_values(|plan: CraftingPlanModel| plan.entity)
        =~= rows.filter(|row: CraftingRow| row.uid is Some).map_values(
        |row: CraftingRow| row.entity,
    ));
}

/// Rows are taken one after the other: a pass over a list is a pass over its first part and
/// then, with what that left remembered, over the rest.
pub proof fn law_crafting_pass_splits(
    cache: CraftingCacheModel,
    first: Seq<CraftingRow>,
    rest: Seq<CraftingRow>,
)
    ensures
        ({
            let half = crafting_pass(cache, first);
            let other = crafting_pass(half.0, rest);
            crafting_pass(cache, first + rest) == (other.0, half.1 + other.1)
        }),
        forall|row: CraftingRow| #[trigger]
            crafting_pass(cache, seq![row]) == (crafting_step(cache, row).0, match crafting_step(cache, row).1 {
                Some(plan) => seq![plan],
                None => Seq::empty(),
            }),
    decreases rest.len(),
{
    assert forall|row: CraftingRow| #[trigger]
        crafting_pass(cache, seq![row]) == (crafting_step(cache, row).0, match crafting_step(cache, row).1 {
            Some(plan) => seq![plan],
            None => Seq::empty(),
        }) by {
        assert(seq![row].drop_last() =~= Seq::<CraftingRow>::empty());
        assert(crafting_pass(cache, seq![row].drop_last()) == (cache, Seq::<CraftingPlanModel>::empty()));
        if let Some(plan) = crafting_step(cache, row).1 {
            assert(Seq::<CraftingPlanModel>::empty().push(plan) =~= seq![plan]);
        }
    }
    if rest.len() == 0 {
        assert(first + rest =~= first);
        let half = crafting_pass(cache, first);
        assert(half.1 + Seq::<CraftingPlanModel>::empty() =~= half.1);
    } else {
        law_crafting_pass_splits(cache, first, rest.drop_last());
        assert((first + rest).drop_last() =~= first + rest.drop_last());
        let half = crafting_pass(cache, first);
        let other = crafting_pass(half.0, rest.drop_last());
        if let Some(plan) = crafting_step(other.0, rest.last()).1 {
            assert((half.1 + other.1).push(plan) =~= half.1 + other.1.push(plan));
        }
    }
}

/// Before a pass exactly the entities that are no longer mirrored are forgotten.
pub proof fn law_unmirrored_crafters_are_forgotten(cache: CraftingCacheModel, live: Set<u64>, e: u64)
    ensures
        ({
            let kept = pruned(cache, live);
            &&& kept.crafting.contains_key(e) <==> cache.crafting.contains_key(e) && live.contains(e)
            &&& kept.owner.contains_key(e) <==> cache.owner.contains_key(e) && live.contains(e)
            &&& kept.crafting.contains_key(e) ==> kept.crafting[e] == cache.crafting[e]
            &&& kept.owner.contains_key(e) ==> kept.owner[e] == cache.owner[e]
        }),
{
}

} // verus!
