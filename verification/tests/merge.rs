use caph::id_name::{IdNameCache, IdNameEntry};
use caph::item_material::{InsertItemMaterialReq, ItemMaterialCache, ItemMaterialEntry};
use caph::station::{
    EmptyResponse, FetchStationEntryById, InsertStationEntries, StationCache, StationEntry,
};

fn station(id: u32, region: u32, system: u32, security: f32) -> StationEntry {
    StationEntry::new(id, region, system, security.to_bits())
}

fn held(cache: &StationCache, id: u32) -> Option<(u32, u32, u32, u32)> {
    match cache.fetch(FetchStationEntryById(id)) {
        Ok(e) => Some((e.station_id, e.region_id, e.system_id, e.security)),
        Err(EmptyResponse) => None,
    }
}

#[test]
fn merging_a_record_that_is_already_there_changes_nothing() {
    let mut cache = StationCache::new();
    assert_eq!(cache.insert(InsertStationEntries(vec![station(1, 10, 100, 0.5)])), 1);
    let before = cache.save();
    assert_eq!(cache.insert(InsertStationEntries(vec![station(1, 10, 100, 0.5)])), 0);
    assert_eq!(cache.save(), before);
    assert_eq!(held(&cache, 1), Some((1, 10, 100, 0.5f32.to_bits())));
}

#[test]
fn one_different_and_one_identical_record_count_one_change() {
    let a = station(1, 10, 100, 0.5);
    let b = station(2, 20, 200, 0.9);
    let b2 = station(2, 20, 201, 0.9);
    let mut cache = StationCache::new();
    assert_eq!(cache.insert(InsertStationEntries(vec![a, b])), 2);
    assert_eq!(cache.insert(InsertStationEntries(vec![a, b2])), 1);
    assert_eq!(held(&cache, 1), Some((1, 10, 100, 0.5f32.to_bits())));
    assert_eq!(held(&cache, 2), Some((2, 20, 201, 0.9f32.to_bits())));
}

#[test]
fn a_key_that_is_absent_is_inserted_and_counted() {
    let mut cache = StationCache::new();
    assert_eq!(held(&cache, 5), None);
    assert_eq!(cache.insert(InsertStationEntries(vec![station(5, 1, 2, 1.0)])), 1);
    assert_eq!(held(&cache, 5), Some((5, 1, 2, 1.0f32.to_bits())));
    assert_eq!(held(&cache, 6), None);
}

#[test]
fn an_empty_batch_changes_nothing() {
    let mut cache = StationCache::new();
    assert_eq!(cache.insert(InsertStationEntries(vec![])), 0);
    assert_eq!(cache.insert(InsertStationEntries(vec![station(1, 1, 1, 0.0)])), 1);
    assert_eq!(cache.insert(InsertStationEntries(vec![])), 0);
}

#[test]
fn of_two_records_with_one_key_the_first_in_the_batch_stays() {
    // The batch is taken from its last entry to its first.
    let first = station(1, 10, 100, 0.5);
    let second = station(1, 11, 101, 0.5);
    let mut cache = StationCache::new();
    assert_eq!(cache.insert(InsertStationEntries(vec![first, second])), 2);
    assert_eq!(held(&cache, 1), Some((1, 10, 100, 0.5f32.to_bits())));
    // The same batch again: the second differs from what is held, and the
    // first differs from the second.
    assert_eq!(cache.insert(InsertStationEntries(vec![first, second])), 2);
    assert_eq!(held(&cache, 1), Some((1, 10, 100, 0.5f32.to_bits())));
}

#[test]
fn security_is_compared_as_a_number() {
    let mut cache = StationCache::new();
    assert_eq!(cache.insert(InsertStationEntries(vec![station(1, 1, 1, 0.0)])), 1);
    // Minus zero equals zero: no change, and the entry held stays.
    assert_eq!(cache.insert(InsertStationEntries(vec![station(1, 1, 1, -0.0)])), 0);
    assert_eq!(held(&cache, 1), Some((1, 1, 1, 0.0f32.to_bits())));
    // A NaN equals nothing, not even itself: every write of it is a change.
    assert_eq!(cache.insert(InsertStationEntries(vec![station(1, 1, 1, f32::NAN)])), 1);
    assert_eq!(cache.insert(InsertStationEntries(vec![station(1, 1, 1, f32::NAN)])), 1);
    assert_eq!(cache.insert(InsertStationEntries(vec![station(1, 1, 1, f32::INFINITY)])), 1);
    assert_eq!(cache.insert(InsertStationEntries(vec![station(1, 1, 1, f32::INFINITY)])), 0);
    assert_eq!(cache.insert(InsertStationEntries(vec![station(1, 1, 1, f32::NEG_INFINITY)])), 1);
}

#[test]
fn singles_compare_as_the_numbers_do() {
    let samples = [
        0.0f32,
        -0.0,
        1.0,
        -1.0,
        0.5,
        f32::MIN_POSITIVE,
        f32::MAX,
        f32::MIN,
        f32::INFINITY,
        f32::NEG_INFINITY,
        f32::NAN,
        -f32::NAN,
        f32::from_bits(0x7f80_0001),
        f32::from_bits(1),
    ];
    for a in samples {
        for b in samples {
            assert_eq!(caph::record::singles_equal(a.to_bits(), b.to_bits()), a == b);
        }
    }
}

#[test]
fn item_materials_merge_by_item_id() {
    let mut cache = ItemMaterialCache::new();
    let a = ItemMaterialEntry::new(1, 34, 100);
    let b = ItemMaterialEntry::new(2, 35, 50);
    assert_eq!(cache.insert(InsertItemMaterialReq(vec![a, b])), 2);
    assert_eq!(cache.insert(InsertItemMaterialReq(vec![a, b])), 0);
    assert_eq!(cache.insert(InsertItemMaterialReq(vec![ItemMaterialEntry::new(2, 35, 51)])), 1);
    assert_eq!(cache.get(1), Some(a));
    assert_eq!(cache.get(2), Some(ItemMaterialEntry::new(2, 35, 51)));
    assert_eq!(cache.get(3), None);
}

#[test]
fn id_names_merge_by_item_id() {
    let mut cache = IdNameCache::new();
    let n = cache.insert(vec![
        IdNameEntry::new(34, String::from("Tritanium")),
        IdNameEntry::new(35, String::from("Pyerite")),
    ]);
    assert_eq!(n, 2);
    assert_eq!(cache.insert(vec![IdNameEntry::new(34, String::from("Tritanium"))]), 0);
    assert_eq!(cache.insert(vec![IdNameEntry::new(34, String::from("Trit"))]), 1);
    assert_eq!(cache.get(34).unwrap().name, "Trit");
    assert_eq!(cache.get(35).unwrap().name, "Pyerite");
    assert!(cache.get(36).is_none());
}
