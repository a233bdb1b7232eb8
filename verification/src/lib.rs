//! Verified decision logic of the simulation bridge: everything between what the
//! simulation reports on a tick and what the replicated client-facing world is told.
//!
//! Entities of either world are plain 64-bit identifiers here. The host application
//! reads the simulation, hands rows of plain values to these functions, and performs
//! the actions that they return.

pub mod aurora;
pub mod axes;
pub mod boot;
pub mod character;
pub mod charlist;
pub mod chat;
pub mod combat_hud;
pub mod crafting;
pub mod dimension_lifecycle;
pub mod entity_factory;
pub mod float_bits;
pub mod grid;
pub mod hotbar;
pub mod ids;
pub mod inventory;
pub mod keys;
pub mod lifecycle_laws;
pub mod loadout;
pub mod lod_alt;
pub mod lod_objects;
pub mod map;
pub mod mirror;
pub mod mirror_laws;
pub mod net_value;
pub mod npc_spawn;
pub mod number;
pub mod once_list;
pub mod oracle;
pub mod plain_list;
pub mod player;
pub mod player_transfer;
pub mod plugin_laws;
pub mod plugins;
pub mod schedule;
pub mod session;
pub mod sfx;
pub mod terrain;
pub mod text;
