//! The planet schematics of the export: what a planetary factory turns
//! into what, and how long a cycle takes.

use crate::archive::{found, SdeZipArchive};
use crate::ids::{SchematicId, TypeId};
use crate::parser::EveSdeParserError;
use std::collections::HashMap;
use vstd::prelude::*;
use vstd::slice::*;

verus! {

/// One item type of a schematic.
#[derive(Clone, Copy, Debug, PartialEq, Eq, Structural)]
pub struct SchematicType {
    /// Whether the schematic takes the item in or gives it out.
    pub is_input: bool,
    pub quantity: u32,
}

/// One schematic.
#[derive(Clone, Debug)]
pub struct PlanetSchematicEntry {
    /// The length of a cycle, in seconds.
    pub cycle_time: u32,
    /// The name of the schematic, by language.
    pub name: HashMap<String, String>,
    /// The facilities that can run the schematic.
    pub skills: Vec<TypeId>,
    /// What goes in and what comes out.
    pub types: HashMap<TypeId, SchematicType>,
}

/// The schematics known, by schematic id.
#[derive(Clone, Debug)]
pub struct PlanceSchematicService(pub HashMap<SchematicId, PlanetSchematicEntry>);

impl PlanceSchematicService {
    /// The name of the file on the schematics.
    pub open spec fn path() -> Seq<char> {
        "sde/fsd/planetSchematics.yaml"@
    }

    /// A copy of the document on the schematics, from an unpacked export.
    pub fn document(zip: &SdeZipArchive) -> (r: Result<Vec<u8>, EveSdeParserError>)
        ensures
            match found(zip@, Self::path()) {
                Some(doc) => r matches Ok(d) && d@ == doc,
                None => r matches Err(e) && e == EveSdeParserError::FileNotFound,
            },
    {
        match zip.by_name("sde/fsd/planetSchematics.yaml") {
            Some(doc) => Ok(slice_to_vec(doc.as_slice())),
            None => Err(EveSdeParserError::FileNotFound),
        }
    }
}

} // verus!
