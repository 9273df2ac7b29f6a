use caph::codec::encode;
use caph::id_name::{IdNameCache, IdNameEntry};
use caph::ids::{CategoryId, GroupId, TypeId};
use caph::item::{ItemCache, ItemEntry};
use caph::station::{FetchStationEntryById, InsertStationEntries, StationCache, StationEntry};

fn item(id: u32, name: &str) -> ItemEntry {
    ItemEntry::new(
        CategoryId(1),
        GroupId(2),
        TypeId(id),
        1.5f32.to_bits(),
        String::from(name),
        String::from("text"),
    )
}

#[test]
fn a_cache_with_no_file_starts_empty() {
    let mut stations = StationCache::new();
    stations.insert(InsertStationEntries(vec![StationEntry::new(1, 1, 1, 0)]));
    stations.load(None);
    assert!(stations.fetch(FetchStationEntryById(1)).is_err());
    assert_eq!(stations.save(), vec![0; 8]);

    let names = IdNameCache::load(None);
    assert!(names.get(1).is_none());
    assert_eq!(names.save(), vec![0; 8]);

    let mut items = ItemCache::new();
    items.set(TypeId(1), item(1, "a"));
    items.load(None);
    assert!(items.keys().is_empty());
}

#[test]
fn a_file_that_does_not_decode_gives_an_empty_cache() {
    let mut stations = StationCache::new();
    stations.insert(InsertStationEntries(vec![StationEntry::new(1, 1, 1, 0)]));
    stations.load(Some(&[0, 0, 0, 0, 0, 0, 0, 1, 9, 9]));
    assert!(stations.fetch(FetchStationEntryById(1)).is_err());

    let names = IdNameCache::load(Some(&[1, 2, 3]));
    assert!(names.get(1).is_none());

    let mut items = ItemCache::new();
    items.load(Some(&[0, 0, 0, 0, 0, 0, 0, 1, 0, 0, 0, 7, 0xff]));
    assert!(items.keys().is_empty());
}

#[test]
fn stations_come_back_from_their_file() {
    let mut cache = StationCache::new();
    let mut batch = Vec::new();
    for id in 0..50u32 {
        batch.push(StationEntry::new(id * 7, id, id + 1, (id as f32 / 50.0).to_bits()));
    }
    assert_eq!(cache.insert(InsertStationEntries(batch.clone())), 50);
    let file = cache.save();
    assert_eq!(file.len(), 8 + 50 * 16);

    let mut loaded = StationCache::new();
    loaded.load(Some(&file));
    for e in &batch {
        let got = loaded.fetch(FetchStationEntryById(e.station_id)).unwrap();
        assert_eq!(got.region_id, e.region_id);
        assert_eq!(got.system_id, e.system_id);
        assert_eq!(got.security, e.security);
    }
    assert!(loaded.fetch(FetchStationEntryById(1)).is_err());
    // Nothing more came back than went in.
    assert_eq!(loaded.insert(InsertStationEntries(batch)), 0);
    assert_eq!(loaded.save().len(), file.len());
}

#[test]
fn a_station_file_is_count_then_records() {
    let mut cache = StationCache::new();
    cache.insert(InsertStationEntries(vec![StationEntry::new(3, 2, 1, 0x3f800000)]));
    assert_eq!(
        cache.save(),
        vec![0, 0, 0, 0, 0, 0, 0, 1, 0, 0, 0, 3, 0, 0, 0, 2, 0, 0, 0, 1, 0x3f, 0x80, 0, 0]
    );
}

#[test]
fn of_two_records_with_one_key_in_a_file_the_later_stays() {
    let file = encode(&vec![StationEntry::new(1, 10, 10, 0), StationEntry::new(1, 20, 20, 0)]);
    let mut cache = StationCache::new();
    cache.load(Some(&file));
    assert_eq!(cache.fetch(FetchStationEntryById(1)).unwrap().region_id, 20);
}

#[test]
fn names_come_back_from_their_file() {
    let mut cache = IdNameCache::new();
    cache.insert(vec![
        IdNameEntry::new(34, String::from("Tritanium")),
        IdNameEntry::new(35, String::from("Pyerite")),
        IdNameEntry::new(36, String::from("M\u{e9}xallon")),
    ]);
    let file = cache.save();
    let loaded = IdNameCache::load(Some(&file));
    assert_eq!(loaded.get(34).unwrap().name, "Tritanium");
    assert_eq!(loaded.get(35).unwrap().name, "Pyerite");
    assert_eq!(loaded.get(36).unwrap().name, "M\u{e9}xallon");
    assert!(loaded.get(37).is_none());
    assert_eq!(loaded.save().len(), file.len());
}

#[test]
fn items_come_back_from_their_file_under_the_keys_they_were_set_under() {
    let mut cache = ItemCache::new();
    cache.set(TypeId(1), item(1, "one"));
    // An item may be stored under a key other than its own id.
    cache.set(TypeId(7), item(9, "nine"));
    let file = cache.save();
    let mut loaded = ItemCache::new();
    loaded.load(Some(&file));
    let mut keys: Vec<u32> = loaded.keys().iter().map(|k| k.0).collect();
    keys.sort();
    assert_eq!(keys, vec![1, 7]);
    assert_eq!(loaded.get(TypeId(1)).unwrap().name, "one");
    assert_eq!(loaded.get(TypeId(7)).unwrap().item_id, TypeId(9));
    assert!(loaded.get(TypeId(9)).is_none());
}

#[test]
fn the_files_are_where_they_always_were() {
    assert_eq!(StationCache::file(), "./db/storage/stations.cachem");
    assert_eq!(IdNameCache::file(), "./db/storage/id_names.cachem");
    assert_eq!(ItemCache::new().file(), "./db/items.cachem");
    assert_eq!(ItemCache::new().name(), "items");
    assert_eq!(StationCache::CAPACITY, 6_000);
}
