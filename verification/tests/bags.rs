use std::collections::HashMap;
use xindeler_sim_bridge::crafting::{
    available_for_input, build_net_crafting, mirror_crafting_state, recipe_input_name, CraftBagSlot,
    CraftItem, CraftWornSlot, CraftingFacts, CraftingMirrorCache, CraftingRow, IngredientSlot,
    InputFacts, InputMatch, ModularComponent, NetRecipe, NetRecipeInput, RecipeFacts, RecipeInput,
    Slot,
};
use xindeler_sim_bridge::inventory::{
    apply_inventory_action_requests, item_equippable_slots, item_is_two_handed,
    mirror_inventory_state, project_item, BagSlot, EquipSlot, InvSlot, InventoryFacts,
    InventoryMirrorCache, InventoryRow, ItemFacts, NetInventory, NetItemStack, NetOwnerOnly,
    SlotFit, WornSlot,
};
use xindeler_sim_bridge::loadout::{Hands, ToolKind};
use xindeler_sim_bridge::mirror::SimMirror;
use xindeler_sim_bridge::net_value::Write;
use xindeler_sim_bridge::session::{
    resolve_client_entity, ClientId, PlayerDimensionSession, Sessions,
};

const SIM: u64 = 7;
const MIRROR: u64 = 70;
const UID: u64 = 700;

const ACTIVE_MAINHAND: EquipSlot = EquipSlot(0);
const ACTIVE_OFFHAND: EquipSlot = EquipSlot(1);
const INACTIVE_MAINHAND: EquipSlot = EquipSlot(2);
const INACTIVE_OFFHAND: EquipSlot = EquipSlot(3);
const FEET: EquipSlot = EquipSlot(4);
const ALL_EQUIP_SLOTS: [EquipSlot; 5] =
    [ACTIVE_MAINHAND, ACTIVE_OFFHAND, INACTIVE_MAINHAND, INACTIVE_OFFHAND, FEET];

fn mirror() -> SimMirror {
    SimMirror(HashMap::from([(SIM, MIRROR)]))
}

fn put<T>(write: &Write<T>) -> Option<&T> {
    match write {
        Write::Put(value) => Some(value),
        _ => None,
    }
}

fn item(id: &str, name: &str, hands: Option<Hands>, fits: &[EquipSlot]) -> ItemFacts {
    ItemFacts {
        item_id: id.to_owned(),
        name: name.to_owned(),
        amount: 1,
        quality: 2,
        tool_hands: hands,
        fits: ALL_EQUIP_SLOTS
            .iter()
            .map(|slot| SlotFit { slot: *slot, can_hold: fits.contains(slot) })
            .collect(),
    }
}

fn potion() -> ItemFacts {
    item("common.items.consumable.potion_minor", "Minor Potion", None, &[])
}

fn greatsword() -> ItemFacts {
    item(
        "common.items.weapons.sword.starter",
        "Damaged Greatsword",
        Some(Hands::Two),
        &[ACTIVE_MAINHAND, INACTIVE_MAINHAND],
    )
}

fn dagger() -> ItemFacts {
    item(
        "common.items.weapons.dagger.starter_dagger",
        "Rusty Dagger",
        Some(Hands::One),
        &[ACTIVE_MAINHAND, ACTIVE_OFFHAND, INACTIVE_MAINHAND, INACTIVE_OFFHAND],
    )
}

fn inventory(items: Vec<ItemFacts>, capacity: usize) -> InventoryFacts {
    let mut items = items.into_iter();
    InventoryFacts {
        slots: (0..capacity)
            .map(|i| BagSlot { slot: InvSlot(i as u32), item: items.next() })
            .collect(),
        equipped: ALL_EQUIP_SLOTS
            .iter()
            .map(|slot| WornSlot { slot: *slot, item: None })
            .collect(),
        capacity,
    }
}

fn inventory_row(inventory: Option<InventoryFacts>) -> InventoryRow {
    InventoryRow { sim_entity: SIM, entity: MIRROR, uid: Some(UID), inventory }
}

fn occupied(net: &NetInventory) -> Vec<&NetItemStack> {
    net.slots.iter().filter_map(|slot| slot.item.as_ref()).collect()
}

#[test]
fn inventory_no_mirrored_entities_is_a_harmless_no_op() {
    let mut cache = InventoryMirrorCache::new();
    assert!(mirror_inventory_state(&vec![], &SimMirror(HashMap::new()), &mut cache).is_empty());
}

#[test]
fn mirrors_a_real_inventory_with_an_item() {
    let mut cache = InventoryMirrorCache::new();
    let row = inventory_row(Some(inventory(vec![potion()], 18)));
    let plans = mirror_inventory_state(&vec![row], &mirror(), &mut cache);
    let net = put(&plans[0].inventory).unwrap();
    assert_eq!(net.slots.len(), net.capacity as usize);
    let occupied = occupied(net);
    assert_eq!(occupied.len(), 1);
    assert_eq!(occupied[0].amount, 1);
    assert!(!occupied[0].name.is_empty());
    assert_eq!(net.equipped.len(), ALL_EQUIP_SLOTS.len());
    assert!(net.equipped.iter().all(|slot| slot.item.is_none()));
    assert_eq!(put(&plans[0].owner), Some(&NetOwnerOnly(UID)));
}

#[test]
fn mirrors_is_two_handed_from_the_real_item_definition() {
    let mut cache = InventoryMirrorCache::new();
    let row = inventory_row(Some(inventory(vec![greatsword(), dagger()], 4)));
    let plans = mirror_inventory_state(&vec![row], &mirror(), &mut cache);
    let net = put(&plans[0].inventory).unwrap();
    let occupied = occupied(net);
    assert_eq!(occupied.len(), 2);
    assert!(occupied.iter().any(|item| item.name.contains("Greatsword") && item.is_two_handed));
    assert!(occupied.iter().any(|item| item.name.contains("Dagger") && !item.is_two_handed));
}

#[test]
fn removing_inventory_removes_the_net_mirror() {
    let mut cache = InventoryMirrorCache::new();
    let row = inventory_row(Some(inventory(vec![], 2)));
    let plans = mirror_inventory_state(&vec![row], &mirror(), &mut cache);
    assert!(put(&plans[0].inventory).is_some());
    let plans = mirror_inventory_state(&vec![inventory_row(None)], &mirror(), &mut cache);
    assert!(matches!(plans[0].inventory, Write::Remove));
    assert!(matches!(plans[0].owner, Write::Keep));
}

#[test]
fn each_entity_is_marked_with_its_own_owner() {
    let mut cache = InventoryMirrorCache::new();
    let rows = || {
        vec![
            inventory_row(Some(inventory(vec![potion()], 2))),
            InventoryRow {
                sim_entity: SIM + 1,
                entity: MIRROR + 1,
                uid: Some(UID + 1),
                inventory: None,
            },
        ]
    };
    let both = SimMirror(HashMap::from([(SIM, MIRROR), (SIM + 1, MIRROR + 1)]));
    let plans = mirror_inventory_state(&rows(), &both, &mut cache);
    assert_eq!(put(&plans[0].owner), Some(&NetOwnerOnly(UID)));
    assert_eq!(put(&plans[1].owner), Some(&NetOwnerOnly(UID + 1)));
    let plans = mirror_inventory_state(&rows(), &both, &mut cache);
    assert!(plans.iter().all(|plan| matches!(plan.owner, Write::Keep)));
}

#[test]
fn entity_without_a_uid_is_skipped_whole() {
    let mut cache = InventoryMirrorCache::new();
    let mut row = inventory_row(Some(inventory(vec![potion()], 2)));
    row.uid = None;
    assert!(mirror_inventory_state(&vec![row], &mirror(), &mut cache).is_empty());
}

#[test]
fn unchanged_inventory_is_written_once() {
    let mut cache = InventoryMirrorCache::new();
    let row = || inventory_row(Some(inventory(vec![dagger()], 3)));
    mirror_inventory_state(&vec![row()], &mirror(), &mut cache);
    let plans = mirror_inventory_state(&vec![row()], &mirror(), &mut cache);
    assert!(matches!(plans[0].inventory, Write::Keep));
    let row = inventory_row(Some(inventory(vec![greatsword()], 3)));
    let plans = mirror_inventory_state(&vec![row], &mirror(), &mut cache);
    assert!(put(&plans[0].inventory).is_some());
}

#[test]
fn resolve_client_entity_uses_the_real_connection_when_present() {
    let mut sessions = Sessions::new();
    sessions.open(5, PlayerDimensionSession(SIM));
    assert_eq!(resolve_client_entity(ClientId::Client(5), None, &sessions), Some(SIM));
}

#[test]
fn resolve_client_entity_returns_none_for_an_unresolved_real_connection() {
    assert_eq!(resolve_client_entity(ClientId::Client(5), None, &Sessions::new()), None);
    assert_eq!(resolve_client_entity(ClientId::Client(5), Some(9), &Sessions::new()), None);
}

#[test]
fn resolve_client_entity_returns_none_for_server_id_without_an_embedded_player() {
    assert_eq!(resolve_client_entity(ClientId::Server, None, &Sessions::new()), None);
    assert_eq!(resolve_client_entity(ClientId::Server, Some(9), &Sessions::new()), Some(9));
}

#[test]
fn item_equippable_slots_resolves_armor_to_its_one_matching_slot() {
    let boots = item("common.items.testing.test_boots", "Boots", None, &[FEET]);
    assert_eq!(item_equippable_slots(&boots), vec![FEET]);
}

#[test]
fn item_equippable_slots_resolves_a_two_handed_tool_to_both_mainhands_only() {
    assert_eq!(item_equippable_slots(&greatsword()), vec![ACTIVE_MAINHAND, INACTIVE_MAINHAND]);
    assert!(item_is_two_handed(&greatsword()));
}

#[test]
fn item_equippable_slots_resolves_a_one_handed_tool_to_all_four_weapon_slots() {
    assert_eq!(
        item_equippable_slots(&dagger()),
        vec![ACTIVE_MAINHAND, ACTIVE_OFFHAND, INACTIVE_MAINHAND, INACTIVE_OFFHAND]
    );
    assert!(!item_is_two_handed(&dagger()));
}

#[test]
fn item_equippable_slots_resolves_a_non_equippable_item_to_empty() {
    let coins = item("common.items.utility.coins", "Coins", None, &[]);
    assert!(item_equippable_slots(&coins).is_empty());
    assert!(!item_is_two_handed(&coins));
    assert!(project_item(&None).is_none());
    assert_eq!(project_item(&Some(coins)).unwrap().quality, 2);
}

fn hammer_inputs(wood: u32, iron: u32) -> Vec<InputFacts> {
    let bag = |held: [(u32, bool); 2]| {
        held.iter().map(|(amount, matches)| InputMatch { amount: *amount, matches: *matches }).collect()
    };
    vec![
        InputFacts {
            input: RecipeInput::Item("common.items.log.wood".to_owned()),
            required: 1,
            bag: bag([(wood, wood > 0), (iron, false)]),
        },
        InputFacts {
            input: RecipeInput::Item("common.items.mineral.ingot.iron".to_owned()),
            required: 3,
            bag: bag([(wood, false), (iron, iron > 0)]),
        },
    ]
}

fn hammer(wood: u32, iron: u32) -> RecipeFacts {
    RecipeFacts {
        key: "craftsman_hammer".to_owned(),
        output_id: "common.items.tool.craftsman_hammer".to_owned(),
        output_name: "Craftsman Hammer".to_owned(),
        output_amount: 1,
        output_quality: 1,
        inputs: hammer_inputs(wood, iron),
        ingredients: if wood >= 1 && iron >= 3 {
            Some(vec![
                IngredientSlot { input: 0, slot: InvSlot(0) },
                IngredientSlot { input: 1, slot: InvSlot(1) },
            ])
        } else {
            None
        },
        craft_sprite: None,
    }
}

fn crafting(recipes: Vec<RecipeFacts>, bag: Vec<CraftBagSlot>) -> CraftingFacts {
    CraftingFacts { recipes, bag, worn: vec![], max_durability: 12 }
}

fn find_hammer(recipes: &[NetRecipe]) -> &NetRecipe {
    recipes.iter().find(|r| r.key == "craftsman_hammer").unwrap()
}

#[test]
fn projects_a_real_recipe_book() {
    let crafting = build_net_crafting(&crafting(vec![hammer(1, 0)], vec![]));
    let hammer = find_hammer(&crafting.recipes);
    assert_eq!(hammer.output_id, "common.items.tool.craftsman_hammer");
    assert!(!hammer.output_name.is_empty());
    let wood = hammer.inputs.iter().find(|i| i.available == 1).unwrap();
    assert!(wood.satisfied());
    let iron = hammer.inputs.iter().find(|i| i.required == 3).unwrap();
    assert_eq!(iron.available, 0);
    assert!(!iron.satisfied());
    assert!(!hammer.craftable);
    assert!(hammer.craft_slots.is_empty());
    assert_eq!(hammer.craft_sprite, None);
}

#[test]
fn a_fully_supplied_recipe_is_craftable_with_resolved_slots() {
    let crafting = build_net_crafting(&crafting(vec![hammer(1, 3)], vec![]));
    let hammer = find_hammer(&crafting.recipes);
    assert!(hammer.craftable);
    assert!(!hammer.craft_slots.is_empty());
    assert!(hammer.inputs.iter().all(NetRecipeInput::satisfied));
}

fn held(salvageable: bool, component: Option<ModularComponent>, lost: Option<u32>) -> CraftBagSlot {
    CraftBagSlot {
        slot: InvSlot(0),
        item: Some(CraftItem { salvageable, component, durability_lost: lost }),
    }
}

#[test]
fn a_salvageable_item_is_listed() {
    let crafting = build_net_crafting(&crafting(vec![], vec![held(true, None, None)]));
    assert_eq!(crafting.salvageable.len(), 1);
    assert_eq!(crafting.salvageable[0], InvSlot(0));
}

#[test]
fn a_damaged_item_is_listed_as_repairable() {
    let crafting = build_net_crafting(&crafting(vec![], vec![held(false, None, Some(4))]));
    let repairable = crafting.repairable.iter().find(|r| r.durability_lost == 4).unwrap();
    assert_eq!(repairable.max_durability, 12);
    assert_eq!(repairable.slot, Slot::Inventory(InvSlot(0)));
}

#[test]
fn worn_and_whole_items_are_told_apart() {
    let facts = CraftingFacts {
        recipes: vec![],
        bag: vec![held(false, None, Some(0)), CraftBagSlot { slot: InvSlot(1), item: None }],
        worn: vec![
            CraftWornSlot { slot: FEET, durability_lost: Some(2) },
            CraftWornSlot { slot: ACTIVE_MAINHAND, durability_lost: None },
        ],
        max_durability: 12,
    };
    let crafting = build_net_crafting(&facts);
    assert_eq!(crafting.repairable.len(), 1);
    assert_eq!(crafting.repairable[0].slot, Slot::Equip(FEET));
    assert!(crafting.salvageable.is_empty());
}

#[test]
fn weapon_components_are_listed_with_their_part() {
    let sword = ToolKind(3);
    let facts = crafting(
        vec![],
        vec![
            held(false, Some(ModularComponent::ToolPrimaryComponent { toolkind: sword }), None),
            held(false, Some(ModularComponent::ToolSecondaryComponent { toolkind: sword }), None),
        ],
    );
    let crafting = build_net_crafting(&facts);
    assert_eq!(crafting.components.len(), 2);
    assert!(crafting.components[0].is_primary && !crafting.components[0].is_secondary);
    assert!(!crafting.components[1].is_primary && crafting.components[1].is_secondary);
    assert_eq!(crafting.components[1].toolkind, sword);
}

#[test]
fn input_is_named_by_its_first_choice() {
    assert_eq!(recipe_input_name(&RecipeInput::Tag("metal".to_owned())), "metal");
    assert_eq!(recipe_input_name(&RecipeInput::TagSameItem("wood".to_owned())), "wood");
    let list = RecipeInput::ListSameItem(vec!["oak".to_owned(), "pine".to_owned()]);
    assert_eq!(recipe_input_name(&list), "oak");
    assert_eq!(recipe_input_name(&RecipeInput::ListSameItem(vec![])), "");
    let bag = vec![
        InputMatch { amount: 2, matches: true },
        InputMatch { amount: 4, matches: false },
        InputMatch { amount: 3, matches: true },
    ];
    assert_eq!(available_for_input(&bag), 5);
}

fn crafting_row(has_presence: bool, wood: u32, iron: u32) -> CraftingRow {
    CraftingRow {
        sim_entity: SIM,
        entity: MIRROR,
        uid: Some(UID),
        has_presence,
        inventory: Some(crafting(vec![hammer(wood, iron)], vec![])),
    }
}

#[test]
fn mirror_pass_upserts_net_crafting() {
    let mut cache = CraftingMirrorCache::new();
    let plans = mirror_crafting_state(&vec![crafting_row(true, 0, 0)], true, &mirror(), &mut cache);
    let net = put(&plans[0].crafting).unwrap();
    assert!(net.recipes.iter().any(|r| r.key == "craftsman_hammer"));
    assert!(put(&plans[0].owner).is_some());
    let plans = mirror_crafting_state(&vec![crafting_row(true, 0, 0)], true, &mirror(), &mut cache);
    assert!(matches!(plans[0].crafting, Write::Keep));
    let plans = mirror_crafting_state(&vec![crafting_row(false, 0, 0)], true, &mirror(), &mut cache);
    assert!(matches!(plans[0].crafting, Write::Remove));
}

#[test]
fn an_npc_with_no_presence_gets_no_net_crafting() {
    let mut cache = CraftingMirrorCache::new();
    let plans = mirror_crafting_state(&vec![crafting_row(false, 0, 0)], true, &mirror(), &mut cache);
    assert!(put(&plans[0].crafting).is_none());
    assert!(put(&plans[0].owner).is_some());
}

#[test]
fn without_a_recipe_book_nothing_changes() {
    let mut cache = CraftingMirrorCache::new();
    let rows = vec![crafting_row(true, 1, 3)];
    assert!(mirror_crafting_state(&rows, false, &mirror(), &mut cache).is_empty());
}

#[test]
fn crafting_a_recipe_round_trips_through_a_real_sim_tick_into_net_inventory() {
    // What the simulation holds, and what its craft handler does to it in a tick: the handler's
    // part is done here by hand.
    let (mut wood, mut iron, mut hammers) = (1u32, 3u32, 0u32);
    let facts = |wood: u32, iron: u32, hammers: u32| {
        let mut items = vec![];
        if wood > 0 {
            items.push(item("common.items.log.wood", "Wood Logs", None, &[]));
        }
        if iron > 0 {
            let mut stack = item("common.items.mineral.ingot.iron", "Iron Ingot", None, &[]);
            stack.amount = iron;
            items.push(stack);
        }
        if hammers > 0 {
            items.push(item("common.items.tool.craftsman_hammer", "Craftsman Hammer", None, &[]));
        }
        inventory_row(Some(inventory(items, 18)))
    };

    let mut crafting_cache = CraftingMirrorCache::new();
    let plans = mirror_crafting_state(
        &vec![crafting_row(true, wood, iron)],
        true,
        &mirror(),
        &mut crafting_cache,
    );
    let known = find_hammer(&put(&plans[0].crafting).unwrap().recipes);
    assert!(known.craftable);
    assert_eq!(known.craft_slots.len(), 2);

    let mut sessions = Sessions::new();
    sessions.open(5, PlayerDimensionSession(SIM));
    let routes = apply_inventory_action_requests(true, &vec![ClientId::Client(5)], None, &sessions);
    assert_eq!(routes.len(), 1);
    assert_eq!((routes[0].request, routes[0].entity), (0, SIM));

    wood -= 1;
    iron -= 3;
    hammers += 1;

    let mut inventory_cache = InventoryMirrorCache::new();
    let plans =
        mirror_inventory_state(&vec![facts(wood, iron, hammers)], &mirror(), &mut inventory_cache);
    let net = put(&plans[0].inventory).unwrap();
    let names: Vec<String> = occupied(net).iter().map(|item| item.name.clone()).collect();
    assert!(names.iter().any(|n| n.contains("Craftsman")));
    assert!(!names.iter().any(|n| n.contains("Iron Ingot")));
}

#[test]
fn requests_of_unknown_connections_are_dropped() {
    let mut sessions = Sessions::new();
    sessions.open(5, PlayerDimensionSession(SIM));
    let clients = vec![ClientId::Client(6), ClientId::Server, ClientId::Client(5)];
    let routes = apply_inventory_action_requests(true, &clients, None, &sessions);
    assert_eq!(routes.len(), 1);
    assert_eq!((routes[0].request, routes[0].entity), (2, SIM));
    let routes = apply_inventory_action_requests(true, &clients, Some(3), &sessions);
    assert_eq!((routes[0].request, routes[0].entity), (1, 3));
    assert!(apply_inventory_action_requests(false, &clients, Some(3), &sessions).is_empty());
}
