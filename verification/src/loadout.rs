//! The gear that a figure is drawn with, projected from what an entity has equipped.

use crate::net_value::NetValue;
use crate::text::{copy_text, same_text, text_of};
use vstd::prelude::*;

verus! {

/// How many hands a tool takes.
#[derive(Clone, Copy, Debug, PartialEq, Eq, Structural)]
pub enum Hands {
    One,
    Two,
}

/// The number of a kind of tool.
#[derive(Clone, Copy, Debug, PartialEq, Eq, Structural)]
pub struct ToolKind(pub u32);

/// The parts that a modular weapon is drawn from.
pub struct ModularKey {
    pub primary: String,
    pub secondary: String,
    pub hands: Hands,
}

/// What an item is defined by.
pub enum ItemDefinition {
    /// An item with a definition of its own.
    Simple(String),
    /// An item with components, drawn as its base.
    Compound { simple_base: String },
    /// An item made of parts; `weapon_key` names the parts of a weapon.
    Modular { pseudo_base: String, weapon_key: ModularKey },
}

/// What makes an item a tool.
#[derive(Clone, Copy, Debug, PartialEq, Eq, Structural)]
pub struct ToolSpec {
    pub kind: ToolKind,
    pub hands: Hands,
}

/// An equipped item, as far as its appearance goes.
pub struct EquippedItem {
    pub definition: ItemDefinition,
    pub tool: Option<ToolSpec>,
}

/// The equipped items that show on a figure, by slot.
pub struct EquippedGear {
    pub active_mainhand: Option<EquippedItem>,
    pub active_offhand: Option<EquippedItem>,
    pub chest: Option<EquippedItem>,
    pub belt: Option<EquippedItem>,
    pub back: Option<EquippedItem>,
    pub legs: Option<EquippedItem>,
    pub shoulders: Option<EquippedItem>,
    pub hands: Option<EquippedItem>,
    pub feet: Option<EquippedItem>,
    pub lantern: Option<EquippedItem>,
    pub head: Option<EquippedItem>,
    pub glider: Option<EquippedItem>,
}

/// What a tool is drawn by.
pub enum NetToolKey {
    Tool(String),
    Modular { primary: String, secondary: String, hands: Hands },
}

/// A tool in hand.
pub struct NetTool {
    pub key: NetToolKey,
    pub kind: ToolKind,
    pub hands: Hands,
}

/// The replicated gear of a figure.
pub struct NetLoadout {
    pub active_tool: Option<NetTool>,
    pub second_tool: Option<NetTool>,
    pub chest: Option<String>,
    pub belt: Option<String>,
    pub back: Option<String>,
    pub pants: Option<String>,
    pub shoulder: Option<String>,
    pub hand: Option<String>,
    pub foot: Option<String>,
    pub lantern: Option<String>,
    pub head: Option<String>,
    pub glider: Option<String>,
    pub gliding: bool,
}

/// A [`NetToolKey`] over text.
pub ghost enum ToolKeyModel {
    Tool(Seq<char>),
    Modular { primary: Seq<char>, secondary: Seq<char>, hands: Hands },
}

/// A [`NetTool`] over text.
pub ghost struct ToolModel {
    pub key: ToolKeyModel,
    pub kind: ToolKind,
    pub hands: Hands,
}

/// A [`NetLoadout`] over text.
pub ghost struct LoadoutModel {
    pub active_tool: Option<ToolModel>,
    pub second_tool: Option<ToolModel>,
    pub chest: Option<Seq<char>>,
    pub belt: Option<Seq<char>>,
    pub back: Option<Seq<char>>,
    pub pants: Option<Seq<char>>,
    pub shoulder: Option<Seq<char>>,
    pub hand: Option<Seq<char>>,
    pub foot: Option<Seq<char>>,
    pub lantern: Option<Seq<char>>,
    pub head: Option<Seq<char>>,
    pub glider: Option<Seq<char>>,
    pub gliding: bool,
}

impl View for NetToolKey {
    type V = ToolKeyModel;

    open spec fn view(&self) -> ToolKeyModel {
        match *self {
            NetToolKey::Tool(id) => ToolKeyModel::Tool(id@),
            NetToolKey::Modular { primary, secondary, hands } => ToolKeyModel::Modular {
                primary: primary@,
                secondary: secondary@,
                hands,
            },
        }
    }
}

impl View for NetTool {
    type V = ToolModel;

    open spec fn view(&self) -> ToolModel {
        ToolModel { key: self.key@, kind: self.kind, hands: self.hands }
    }
}

/// The model of an optional tool.
pub open spec fn tool_of(tool: Option<NetTool>) -> Option<ToolModel> {
    match tool {
        Some(tool) => Some(tool@),
        None => None,
    }
}

impl View for NetLoadout {
    type V = LoadoutModel;

    open spec fn view(&self) -> LoadoutModel {
        LoadoutModel {
            active_tool: tool_of(self.active_tool),
            second_tool: tool_of(self.second_tool),
            chest: text_of(self.chest),
            belt: text_of(self.belt),
            back: text_of(self.back),
            pants: text_of(self.pants),
            shoulder: text_of(self.shoulder),
            hand: text_of(self.hand),
            foot: text_of(self.foot),
            lantern: text_of(self.lantern),
            head: text_of(self.head),
            glider: text_of(self.glider),
            gliding: self.gliding,
        }
    }
}

fn same_key(a: &NetToolKey, b: &NetToolKey) -> (same: bool)
    ensures
        same == (a@ == b@),
{
    match (a, b) {
        (NetToolKey::Tool(a), NetToolKey::Tool(b)) => *a == *b,
        (
            NetToolKey::Modular { primary: p1, secondary: s1, hands: h1 },
            NetToolKey::Modular { primary: p2, secondary: s2, hands: h2 },
        ) => *p1 == *p2 && *s1 == *s2 && *h1 == *h2,
        _ => false,
    }
}

fn same_tool(a: &Option<NetTool>, b: &Option<NetTool>) -> (same: bool)
    ensures
        same == (tool_of(*a) == tool_of(*b)),
{
    match (a, b) {
        (Some(a), Some(b)) => same_key(&a.key, &b.key) && a.kind == b.kind && a.hands == b.hands,
        (None, None) => true,
        _ => false,
    }
}

fn copy_tool(tool: &Option<NetTool>) -> (copy: Option<NetTool>)
    ensures
        copy == *tool,
{
    match tool {
        Some(tool) => {
            let key = match &tool.key {
                NetToolKey::Tool(id) => NetToolKey::Tool(id.clone()),
                NetToolKey::Modular { primary, secondary, hands } => NetToolKey::Modular {
                    primary: primary.clone(),
                    secondary: secondary.clone(),
                    hands: *hands,
                },
            };
            Some(NetTool { key, kind: tool.kind, hands: tool.hands })
        },
        None => None,
    }
}

impl NetValue for NetLoadout {
    open spec fn alike(a: LoadoutModel, b: LoadoutModel) -> bool {
        a == b
    }

    fn same(&self, other: &Self) -> (same: bool) {
        same_tool(&self.active_tool, &other.active_tool) && same_tool(
            &self.second_tool,
            &other.second_tool,
        ) && same_text(&self.chest, &other.chest) && same_text(&self.belt, &other.belt)
            && same_text(&self.back, &other.back) && same_text(&self.pants, &other.pants)
            && same_text(&self.shoulder, &other.shoulder) && same_text(&self.hand, &other.hand)
            && same_text(&self.foot, &other.foot) && same_text(&self.lantern, &other.lantern)
            && same_text(&self.head, &other.head) && same_text(&self.glider, &other.glider)
            && self.gliding == other.gliding
    }

    fn duplicate(&self) -> (copy: Self) {
        NetLoadout {
            active_tool: copy_tool(&self.active_tool),
            second_tool: copy_tool(&self.second_tool),
            chest: copy_text(&self.chest),
            belt: copy_text(&self.belt),
            back: copy_text(&self.back),
            pants: copy_text(&self.pants),
            shoulder: copy_text(&self.shoulder),
            hand: copy_text(&self.hand),
            foot: copy_text(&self.foot),
            lantern: copy_text(&self.lantern),
            head: copy_text(&self.head),
            glider: copy_text(&self.glider),
            gliding: self.gliding,
        }
    }
}

impl NetLoadout {
    /// A figure without gear.
    pub fn bare(gliding: bool) -> (loadout: NetLoadout)
        ensures
            loadout@ == bare_loadout(gliding),
    {
        NetLoadout {
            active_tool: None,
            second_tool: None,
            chest: None,
            belt: None,
            back: None,
            pants: None,
            shoulder: None,
            hand: None,
            foot: None,
            lantern: None,
            head: None,
            glider: None,
            gliding,
        }
    }
}

/// The loadout of a figure without gear.
pub open spec fn bare_loadout(gliding: bool) -> LoadoutModel {
    LoadoutModel {
        active_tool: None,
        second_tool: None,
        chest: None,
        belt: None,
        back: None,
        pants: None,
        shoulder: None,
        hand: None,
        foot: None,
        lantern: None,
        head: None,
        glider: None,
        gliding,
    }
}

/// The text that an item is drawn by: its own identifier, or that of its base.
pub open spec fn definition_key(definition: ItemDefinition) -> Seq<char> {
    match definition {
        ItemDefinition::Simple(id) => id@,
        ItemDefinition::Compound { simple_base } => simple_base@,
        ItemDefinition::Modular { pseudo_base, weapon_key } => pseudo_base@,
    }
}

/// The key of what is equipped in a slot, if anything is.
pub open spec fn slot_key(item: Option<EquippedItem>) -> Option<Seq<char>> {
    match item {
        Some(item) => Some(definition_key(item.definition)),
        None => None,
    }
}

/// What is in a hand, where that is a tool: a modular one by its parts, another by its
/// own identifier or that of its base.
pub open spec fn slot_tool(item: Option<EquippedItem>) -> Option<ToolModel> {
    match item {
        Some(EquippedItem { definition, tool: Some(tool) }) => Some(
            ToolModel {
                key: match definition {
                    ItemDefinition::Modular { pseudo_base, weapon_key } => ToolKeyModel::Modular {
                        primary: weapon_key.primary@,
                        secondary: weapon_key.secondary@,
                        hands: weapon_key.hands,
                    },
                    _ => ToolKeyModel::Tool(definition_key(definition)),
                },
                kind: tool.kind,
                hands: tool.hands,
            },
        ),
        _ => None,
    }
}

/// The loadout of a figure that has `gear` equipped.
pub open spec fn gear_loadout(gear: EquippedGear, gliding: bool) -> LoadoutModel {
    LoadoutModel {
        active_tool: slot_tool(gear.active_mainhand),
        second_tool: slot_tool(gear.active_offhand),
        chest: slot_key(gear.chest),
        belt: slot_key(gear.belt),
        back: slot_key(gear.back),
        pants: slot_key(gear.legs),
        shoulder: slot_key(gear.shoulders),
        hand: slot_key(gear.hands),
        foot: slot_key(gear.feet),
        lantern: slot_key(gear.lantern),
        head: slot_key(gear.head),
        glider: slot_key(gear.glider),
        gliding,
    }
}

/// The identifier that the item in a slot is drawn by.
pub fn armor_key(item: &Option<EquippedItem>) -> (key: Option<String>)
    ensures
        text_of(key) == slot_key(*item),
{
    match item {
        Some(item) => match &item.definition {
            ItemDefinition::Simple(id) => Some(id.clone()),
            ItemDefinition::Compound { simple_base } => Some(simple_base.clone()),
            ItemDefinition::Modular { pseudo_base, .. } => Some(pseudo_base.clone()),
        },
        None => None,
    }
}

/// The tool in a hand; `None` where the hand is empty or holds something else.
pub fn net_tool(item: &Option<EquippedItem>) -> (tool: Option<NetTool>)
    ensures
        tool_of(tool) == slot_tool(*item),
{
    let item = match item {
        Some(item) => item,
        None => {
            return None;
        },
    };
    let tool = match &item.tool {
        Some(tool) => tool,
        None => {
            return None;
        },
    };
    let key = match &item.definition {
        ItemDefinition::Simple(id) => NetToolKey::Tool(id.clone()),
        ItemDefinition::Compound { simple_base } => NetToolKey::Tool(simple_base.clone()),
        ItemDefinition::Modular { weapon_key, .. } => NetToolKey::Modular {
            primary: weapon_key.primary.clone(),
            secondary: weapon_key.secondary.clone(),
            hands: weapon_key.hands,
        },
    };
    Some(NetTool { key, kind: tool.kind, hands: tool.hands })
}

/// Projects what an entity has equipped to the gear that its figure is drawn with.
pub fn net_loadout_from_inventory(gear: &EquippedGear, gliding: bool) -> (loadout: NetLoadout)
    ensures
        loadout@ == gear_loadout(*gear, gliding),
{
    NetLoadout {
        active_tool: net_tool(&gear.active_mainhand),
        second_tool: net_tool(&gear.active_offhand),
        chest: armor_key(&gear.chest),
        belt: armor_key(&gear.belt),
        back: armor_key(&gear.back),
        pants: armor_key(&gear.legs),
        shoulder: armor_key(&gear.shoulders),
        hand: armor_key(&gear.hands),
        foot: armor_key(&gear.feet),
        lantern: armor_key(&gear.lantern),
        head: armor_key(&gear.head),
        glider: armor_key(&gear.glider),
        gliding,
    }
}

} // verus!
