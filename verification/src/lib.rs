//! Typed in-memory tables for a game-economy data service: a binary wire
//! codec, a diff-aware merge that tells real writes from repeats, snapshots
//! that survive a restart, the command vocabulary the tables are reached by,
//! and the walk over the static data export that feeds them.

pub mod codec;
pub mod ids;
pub mod record;
pub mod protocol;
pub mod table;
pub mod dispatch;
pub mod server;
pub mod client;
pub mod station;
pub mod item;
pub mod parser;
pub mod archive;
pub mod corporation;
pub mod planet_schematic;
pub mod character;
pub mod id_name;
pub mod item_material;
