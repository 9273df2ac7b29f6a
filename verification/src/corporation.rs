//! The corporations of the export: the two documents that describe the
//! non-player corporations and their divisions.

use crate::archive::{found, SdeZipArchive};
use crate::parser::EveSdeParserError;
use vstd::prelude::*;
use vstd::slice::*;

verus! {

/// The documents on non-player corporations, as the export holds them.
#[derive(Clone, Debug)]
pub struct CorporationService {
    npc_corporations: Vec<u8>,
    npc_divisions: Vec<u8>,
}

impl CorporationService {
    /// The name of the file on the corporations.
    pub open spec fn path_npc_corporations() -> Seq<char> {
        "sde/fsd/npcCorporations.yaml"@
    }

    /// The name of the file on their divisions.
    pub open spec fn path_npc_divisions() -> Seq<char> {
        "sde/fsd/npcCorporationDivisions.yaml"@
    }

    /// The service as contracts see it: the document on the corporations,
    /// then the one on their divisions.
    pub closed spec fn documents(&self) -> (Seq<u8>, Seq<u8>) {
        (self.npc_corporations@, self.npc_divisions@)
    }

    /// Makes the service from an unpacked export. Both files must be
    /// there; the service holds a copy of each.
    pub fn new(zip: &SdeZipArchive) -> (r: Result<Self, EveSdeParserError>)
        ensures
            match (
                found(zip@, Self::path_npc_corporations()),
                found(zip@, Self::path_npc_divisions()),
            ) {
                (Some(a), Some(b)) => r matches Ok(s) && s.documents() == (a, b),
                _ => r matches Err(e) && e == EveSdeParserError::FileNotFound,
            },
    {
        let npc_corporations = match zip.by_name("sde/fsd/npcCorporations.yaml") {
            Some(doc) => slice_to_vec(doc.as_slice()),
            None => {
                return Err(EveSdeParserError::FileNotFound);
            },
        };
        let npc_divisions = match zip.by_name("sde/fsd/npcCorporationDivisions.yaml") {
            Some(doc) => slice_to_vec(doc.as_slice()),
            None => {
                return Err(EveSdeParserError::FileNotFound);
            },
        };
        Ok(Self { npc_corporations, npc_divisions })
    }

    /// The document on the corporations.
    pub fn npc_corporations(&self) -> (doc: &Vec<u8>)
        ensures
            doc@ == self.documents().0,
    {
        &self.npc_corporations
    }

    /// The document on their divisions.
    pub fn npc_divisions(&self) -> (doc: &Vec<u8>)
        ensures
            doc@ == self.documents().1,
    {
        &self.npc_divisions
    }
}

} // verus!
