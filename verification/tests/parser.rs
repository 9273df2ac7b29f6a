use caph::archive::{SdeFile, SdeZipArchive};
use caph::corporation::CorporationService;
use caph::parser::{contains_bytes, EveSdeParser, EveSdeParserError, ParseRequest, ParseResult};
use caph::planet_schematic::PlanceSchematicService;

fn entry_with_method(name: &[u8], method: [u8; 2], stored: &[u8]) -> Vec<u8> {
    let mut out = vec![0x50, 0x4b, 0x03, 0x04];
    out.extend_from_slice(&[20, 0]);
    out.extend_from_slice(&[0, 0]);
    out.extend_from_slice(&method);
    out.extend_from_slice(&[0; 4]);
    out.extend_from_slice(&[0; 4]);
    out.extend_from_slice(&(stored.len() as u32).to_le_bytes());
    out.extend_from_slice(&[0; 4]);
    out.extend_from_slice(&(name.len() as u16).to_le_bytes());
    out.extend_from_slice(&[0, 0]);
    out.extend_from_slice(name);
    out.extend_from_slice(stored);
    out
}

fn entry(name: &str, document: &[u8]) -> Vec<u8> {
    let stored = miniz_oxide::deflate::compress_to_vec(document, 6);
    entry_with_method(name.as_bytes(), [8, 0], &stored)
}

fn directory() -> Vec<u8> {
    vec![0x50, 0x4b, 0x01, 0x02, 0, 0]
}

fn export() -> Vec<u8> {
    let mut archive = Vec::new();
    archive.extend(entry("sde/fsd/typeIDs.yaml", b"34:\n  name: Tritanium\n"));
    archive.extend(entry("sde/fsd/universe/eve/Derelik/region.staticdata", b"regionID: 10000001\n"));
    archive.extend(entry("sde/fsd/blueprints.yaml", b"681:\n  maxProductionLimit: 300\n"));
    archive.extend(entry("sde/readme.txt", b"nothing that was asked for"));
    archive.extend(directory());
    archive
}

#[test]
fn each_request_has_its_path() {
    assert_eq!(ParseRequest::Blueprints.path(), "sde/fsd/blueprints.yaml");
    assert_eq!(ParseRequest::Constellation.path(), "constellation.staticdata");
    assert_eq!(ParseRequest::Region.path(), "region.staticdata");
    assert_eq!(ParseRequest::Solarsystem.path(), "solarsystem.staticdata");
    assert_eq!(ParseRequest::TypeIds.path(), "sde/fsd/typeIDs.yaml");
    assert_eq!(ParseRequest::TypeMaterials.path(), "sde/fsd/typeMaterials.yaml");
}

#[test]
fn the_files_asked_for_are_handed_out_inflated() {
    let requests = vec![ParseRequest::Blueprints, ParseRequest::Region, ParseRequest::TypeIds];
    let results = EveSdeParser::parse(&export(), requests).unwrap();
    assert_eq!(results.len(), 3);
    assert_eq!(results[0].request(), ParseRequest::TypeIds);
    assert_eq!(results[0].document().as_slice(), b"34:\n  name: Tritanium\n");
    assert_eq!(results[1].request(), ParseRequest::Region);
    assert_eq!(results[1].document().as_slice(), b"regionID: 10000001\n");
    assert_eq!(results[2].request(), ParseRequest::Blueprints);
    assert_eq!(results[2].document().as_slice(), b"681:\n  maxProductionLimit: 300\n");
    assert!(matches!(results[2], ParseResult::Blueprints(_)));
}

#[test]
fn nothing_asked_for_gives_nothing() {
    assert!(EveSdeParser::parse(&export(), vec![]).unwrap().is_empty());
    assert!(EveSdeParser::parse(&export(), vec![ParseRequest::Solarsystem]).unwrap().is_empty());
    assert!(EveSdeParser::parse(&directory(), vec![ParseRequest::TypeIds]).unwrap().is_empty());
}

#[test]
fn a_request_asked_twice_is_answered_twice() {
    let requests = vec![ParseRequest::TypeIds, ParseRequest::TypeIds];
    let results = EveSdeParser::parse(&export(), requests).unwrap();
    assert_eq!(results.len(), 2);
    assert_eq!(results[0].request(), ParseRequest::TypeIds);
    assert_eq!(results[1].request(), ParseRequest::TypeIds);
}

#[test]
fn an_archive_that_just_ends_is_cut_short() {
    let mut archive = Vec::new();
    archive.extend(entry("sde/fsd/typeIDs.yaml", b"x"));
    assert_eq!(
        EveSdeParser::parse(&archive, vec![ParseRequest::TypeIds]).unwrap_err(),
        EveSdeParserError::UnexpectedEof
    );
    assert_eq!(EveSdeParser::parse(&[], vec![]).unwrap_err(), EveSdeParserError::UnexpectedEof);
    assert_eq!(
        EveSdeParser::parse(&[0x50, 0x4b, 0x03], vec![]).unwrap_err(),
        EveSdeParserError::UnexpectedEof
    );
    let whole = export();
    let first = entry("sde/fsd/typeIDs.yaml", b"34:\n  name: Tritanium\n").len();
    for cut in 0..first {
        assert_eq!(
            EveSdeParser::parse(&whole[..cut], vec![]).unwrap_err(),
            EveSdeParserError::UnexpectedEof
        );
    }
}

#[test]
fn a_file_that_is_not_deflated_is_refused() {
    let mut archive = entry_with_method(b"sde/fsd/typeIDs.yaml", [0, 0], b"stored as it is");
    archive.extend(directory());
    assert_eq!(
        EveSdeParser::parse(&archive, vec![]).unwrap_err(),
        EveSdeParserError::InvalidCompression
    );
    // The method is read before the rest of the header is asked for.
    assert_eq!(
        EveSdeParser::parse(&archive[..10], vec![]).unwrap_err(),
        EveSdeParserError::InvalidCompression
    );
    let swapped = entry_with_method(b"a", [0, 8], b"");
    assert_eq!(
        EveSdeParser::parse(&swapped, vec![]).unwrap_err(),
        EveSdeParserError::InvalidCompression
    );
}

#[test]
fn a_file_name_that_is_not_utf8_is_refused() {
    let stored = miniz_oxide::deflate::compress_to_vec(b"x", 6);
    let mut archive = entry_with_method(&[0xff, 0xfe], [8, 0], &stored);
    archive.extend(directory());
    assert_eq!(
        EveSdeParser::parse(&archive, vec![]).unwrap_err(),
        EveSdeParserError::InvalidFileName
    );
}

#[test]
fn data_that_does_not_inflate_is_refused() {
    let mut archive = entry_with_method(b"sde/fsd/typeIDs.yaml", [8, 0], &[0xff, 0xff, 0xff, 0xff]);
    archive.extend(directory());
    assert_eq!(
        EveSdeParser::parse(&archive, vec![ParseRequest::TypeIds]).unwrap_err(),
        EveSdeParserError::InvalidData
    );
    assert_eq!(SdeZipArchive::open(&archive).unwrap_err(), EveSdeParserError::InvalidData);
    assert!(EveSdeParser::inflate(&[0xff, 0xff, 0xff, 0xff]).is_none());
    assert!(EveSdeParser::inflate(&[]).is_none());
}

#[test]
fn inflating_gives_the_document_back() {
    let document = b"the same text, the same text, the same text, the same text".to_vec();
    let stored = miniz_oxide::deflate::compress_to_vec(&document, 9);
    assert_ne!(stored, document);
    assert_eq!(EveSdeParser::inflate(&stored), Some(document));
    let empty = miniz_oxide::deflate::compress_to_vec(b"", 6);
    assert_eq!(EveSdeParser::inflate(&empty), Some(Vec::new()));
}

#[test]
fn a_local_file_is_read_where_it_stands() {
    let mut archive = vec![0xaa, 0xbb];
    let stored = miniz_oxide::deflate::compress_to_vec(b"doc", 6);
    archive.extend(entry_with_method(b"name.txt", [8, 0], &stored));
    archive.extend(directory());
    let file = EveSdeParser::local_file(&archive, 2).unwrap().unwrap();
    assert_eq!(file.name, "name.txt");
    assert_eq!(file.data, stored);
    assert_eq!(file.next, 2 + 30 + 8 + stored.len());
    assert!(EveSdeParser::local_file(&archive, file.next).unwrap().is_none());
    assert!(EveSdeParser::local_file(&archive, 0).unwrap().is_none());
    assert_eq!(
        EveSdeParser::local_file(&archive, archive.len() - 3).unwrap_err(),
        EveSdeParserError::UnexpectedEof
    );
    assert_eq!(
        EveSdeParser::local_file(&archive, archive.len()).unwrap_err(),
        EveSdeParserError::UnexpectedEof
    );
}

#[test]
fn the_lengths_in_a_header_are_little_endian() {
    let name = vec![b'n'; 0x0102];
    let stored = miniz_oxide::deflate::compress_to_vec(&vec![7u8; 100_000], 0);
    assert!(stored.len() > 0x1_0000);
    let mut archive = entry_with_method(&name, [8, 0], &stored);
    archive.extend(directory());
    let file = EveSdeParser::local_file(&archive, 0).unwrap().unwrap();
    assert_eq!(file.name.len(), 0x0102);
    assert_eq!(file.data.len(), stored.len());
    assert_eq!(file.next, 30 + 0x0102 + stored.len());
    let zip = SdeZipArchive::open(&archive).unwrap();
    assert_eq!(zip.len(), 1);
}

#[test]
fn select_appends_one_result_for_each_request_that_matches() {
    let mut results = vec![ParseRequest::Region.answer(vec![1])];
    let requests = vec![
        ParseRequest::TypeMaterials,
        ParseRequest::TypeIds,
        ParseRequest::Blueprints,
        ParseRequest::TypeIds,
    ];
    let doc = vec![9, 8, 7];
    EveSdeParser::select("x/sde/fsd/typeIDs.yaml.bak", &doc, &requests, &mut results);
    assert_eq!(results.len(), 3);
    assert_eq!(results[0].request(), ParseRequest::Region);
    assert_eq!(results[1].request(), ParseRequest::TypeIds);
    assert_eq!(results[1].document(), &doc);
    assert_eq!(results[2].request(), ParseRequest::TypeIds);
    EveSdeParser::select("sde/fsd/typeids.yaml", &doc, &requests, &mut results);
    assert_eq!(results.len(), 3);
}

#[test]
fn contains_bytes_finds_runs() {
    assert!(contains_bytes(b"hello world", b"lo w"));
    assert!(contains_bytes(b"hello world", b"hello world"));
    assert!(contains_bytes(b"hello world", b"d"));
    assert!(contains_bytes(b"hello world", b"h"));
    assert!(contains_bytes(b"hello world", b""));
    assert!(contains_bytes(b"", b""));
    assert!(!contains_bytes(b"", b"a"));
    assert!(!contains_bytes(b"hello world", b"hello world!"));
    assert!(!contains_bytes(b"hello world", b"low"));
    assert!(contains_bytes(b"aaab", b"aab"));
    assert!(!contains_bytes(b"aaab", b"aba"));
}

#[test]
fn an_archive_unpacks_to_its_files() {
    let zip = SdeZipArchive::open(&export()).unwrap();
    assert_eq!(zip.len(), 4);
    assert_eq!(
        zip.by_name("sde/fsd/typeIDs.yaml").unwrap().as_slice(),
        b"34:\n  name: Tritanium\n"
    );
    assert_eq!(zip.by_name("sde/readme.txt").unwrap().as_slice(), b"nothing that was asked for");
    // A file is found by its whole name only.
    assert!(zip.by_name("typeIDs.yaml").is_none());
    assert!(zip.by_name("sde/fsd/typeIDs.yaml ").is_none());
    assert!(zip.by_name("").is_none());
    assert_eq!(SdeZipArchive::open(&[]).unwrap_err(), EveSdeParserError::UnexpectedEof);
    assert_eq!(SdeZipArchive::open(&directory()).unwrap().len(), 0);
}

#[test]
fn of_two_files_with_one_name_the_first_is_found() {
    let zip = SdeZipArchive::new(vec![
        SdeFile { name: String::from("a"), data: vec![1] },
        SdeFile { name: String::from("b"), data: vec![2] },
        SdeFile { name: String::from("a"), data: vec![3] },
    ]);
    assert_eq!(zip.by_name("a"), Some(&vec![1]));
    assert_eq!(zip.by_name("b"), Some(&vec![2]));
    assert_eq!(zip.by_name("c"), None);
}

#[test]
fn the_corporation_service_needs_both_its_files() {
    let corporations = SdeFile {
        name: String::from("sde/fsd/npcCorporations.yaml"),
        data: b"1000002: {}\n".to_vec(),
    };
    let divisions = SdeFile {
        name: String::from("sde/fsd/npcCorporationDivisions.yaml"),
        data: b"1: {}\n".to_vec(),
    };
    let other = SdeFile { name: String::from("sde/fsd/typeIDs.yaml"), data: vec![] };

    let zip = SdeZipArchive::new(vec![other, divisions, corporations]);
    let service = CorporationService::new(&zip).unwrap();
    assert_eq!(service.npc_corporations().as_slice(), b"1000002: {}\n");
    assert_eq!(service.npc_divisions().as_slice(), b"1: {}\n");

    let only_one = SdeZipArchive::new(vec![SdeFile {
        name: String::from("sde/fsd/npcCorporations.yaml"),
        data: vec![],
    }]);
    assert_eq!(CorporationService::new(&only_one).unwrap_err(), EveSdeParserError::FileNotFound);
    let only_other = SdeZipArchive::new(vec![SdeFile {
        name: String::from("sde/fsd/npcCorporationDivisions.yaml"),
        data: vec![],
    }]);
    assert_eq!(CorporationService::new(&only_other).unwrap_err(), EveSdeParserError::FileNotFound);
    assert_eq!(
        CorporationService::new(&SdeZipArchive::new(vec![])).unwrap_err(),
        EveSdeParserError::FileNotFound
    );
}

#[test]
fn the_schematic_document_is_found_by_its_name() {
    let zip = SdeZipArchive::new(vec![SdeFile {
        name: String::from("sde/fsd/planetSchematics.yaml"),
        data: b"65: {cycleTime: 1800}\n".to_vec(),
    }]);
    assert_eq!(PlanceSchematicService::document(&zip).unwrap(), b"65: {cycleTime: 1800}\n".to_vec());
    assert_eq!(
        PlanceSchematicService::document(&SdeZipArchive::new(vec![])).unwrap_err(),
        EveSdeParserError::FileNotFound
    );
}
