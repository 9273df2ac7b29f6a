//! Identifiers of the game's static data.

use vstd::prelude::*;

verus! {

/// The id of an item type.
#[derive(Clone, Copy, Debug, PartialEq, Eq, Hash, Structural)]
pub struct TypeId(pub u32);

/// The id of a group of item types.
#[derive(Clone, Copy, Debug, PartialEq, Eq, Hash, Structural)]
pub struct GroupId(pub u32);

/// The id of a category of groups.
#[derive(Clone, Copy, Debug, PartialEq, Eq, Hash, Structural)]
pub struct CategoryId(pub u32);

/// The id of a planet schematic.
#[derive(Clone, Copy, Debug, PartialEq, Eq, Hash, Structural)]
pub struct SchematicId(pub u32);

/// The id of a corporation.
#[derive(Clone, Copy, Debug, PartialEq, Eq, Hash, Structural)]
pub struct CorporationId(pub u32);

/// The id of a division of a corporation.
#[derive(Clone, Copy, Debug, PartialEq, Eq, Hash, Structural)]
pub struct DivisionId(pub u32);

} // verus!
