use caph::codec::{decode, encode, CodecError};
use caph::dispatch::{settle, Handled, Turn};
use caph::ids::{CategoryId, GroupId, TypeId};
use caph::item::{ItemCache, ItemEntry};
use caph::protocol::{on_signal, CncAction, Command, Status};
use caph::table::Table;

fn item(id: u32, name: &str) -> ItemEntry {
    ItemEntry::new(
        CategoryId(1),
        GroupId(2),
        TypeId(id),
        2.5f32.to_bits(),
        String::from(name),
        String::from("text"),
    )
}

fn filled() -> ItemCache {
    let mut cache = ItemCache::new();
    assert_eq!(cache.set(TypeId(1), item(1, "one")), 1);
    assert_eq!(cache.set(TypeId(3), item(3, "three")), 1);
    cache
}

#[test]
fn commands_have_fixed_tags() {
    let all = [
        (Command::Get, 0u8),
        (Command::MGet, 1),
        (Command::SetOne, 2),
        (Command::MSet, 3),
        (Command::Keys, 4),
        (Command::Save, 5),
    ];
    for (cmd, tag) in all {
        assert_eq!(cmd.tag(), tag);
        assert_eq!(Command::from_tag(tag), Some(cmd));
        assert_eq!(encode(&cmd), vec![tag]);
        assert_eq!(decode::<Command>(&[tag]), Ok(cmd));
    }
    assert_eq!(Command::from_tag(6), None);
    assert_eq!(decode::<Command>(&[6]), Err(CodecError::Invalid));
    assert_eq!(decode::<Command>(&[]), Err(CodecError::Incomplete));
}

#[test]
fn statuses_have_fixed_tags() {
    let all = [(Status::Done, 0u8), (Status::Empty, 1), (Status::Failed, 2)];
    for (status, tag) in all {
        assert_eq!(status.tag(), tag);
        assert_eq!(Status::from_tag(tag), Some(status));
        assert_eq!(encode(&status), vec![tag]);
        assert_eq!(decode::<Status>(&[tag]), Ok(status));
    }
    assert_eq!(Status::from_tag(3), None);
    assert_eq!(decode::<Status>(&[9]), Err(CodecError::Invalid));
}

#[test]
fn only_save_makes_a_cache_save() {
    assert_eq!(on_signal(Command::Save), CncAction::Save);
    for cmd in [Command::Get, Command::MGet, Command::SetOne, Command::MSet, Command::Keys] {
        assert_eq!(on_signal(cmd), CncAction::Ignore);
        assert_eq!(ItemCache::new().cnc_listener(cmd), CncAction::Ignore);
    }
    assert_eq!(ItemCache::new().cnc_listener(Command::Save), CncAction::Save);
}

#[test]
fn get_answers_with_the_record_or_with_empty() {
    let mut cache = filled();
    let mut request = encode(&3u32);
    request.extend_from_slice(&[0xaa, 0xbb]);
    let h = cache.handle(Command::Get, &request).unwrap();
    assert_eq!(h.used, 4);
    assert_eq!(h.changes, 0);
    let mut expected = vec![0u8];
    expected.extend_from_slice(&encode(&item(3, "three")));
    assert_eq!(h.reply, expected);

    let h = cache.handle(Command::Get, &encode(&2u32)).unwrap();
    assert_eq!(h.used, 4);
    assert_eq!(h.reply, vec![1]);
    assert_eq!(h.changes, 0);
}

#[test]
fn mget_answers_with_the_present_entries_only() {
    let mut cache = filled();
    let h = cache.handle(Command::MGet, &encode(&vec![1u32, 2, 3])).unwrap();
    assert_eq!(h.used, 8 + 12);
    assert_eq!(h.changes, 0);
    assert_eq!(h.reply[0], 0);
    let pairs = decode::<Vec<(u32, ItemEntry)>>(&h.reply[1..]).unwrap();
    assert_eq!(pairs.len(), 2);
    assert_eq!(pairs[0].0, 1);
    assert_eq!(pairs[0].1.name, "one");
    assert_eq!(pairs[1].0, 3);
    assert_eq!(pairs[1].1.name, "three");

    let h = cache.handle(Command::MGet, &encode(&vec![9u32])).unwrap();
    assert_eq!(h.reply, vec![0, 0, 0, 0, 0, 0, 0, 0, 0]);
}

#[test]
fn mget_on_the_cache_leaves_absent_keys_out() {
    let cache = filled();
    let found = cache.mget(vec![TypeId(1), TypeId(2), TypeId(3)]);
    let mut keys = found.keys();
    keys.sort();
    assert_eq!(keys, vec![1, 3]);
    assert_eq!(found.get(1).unwrap().name, "one");
    assert_eq!(found.get(3).unwrap().name, "three");
    assert!(found.get(2).is_none());
    assert_eq!(found.len(), 2);
    assert!(cache.get(TypeId(2)).is_none());
    assert_eq!(cache.mget(vec![]).len(), 0);
    assert_eq!(cache.mget(vec![TypeId(1), TypeId(1)]).len(), 1);
}

#[test]
fn set_writes_and_acknowledges() {
    let mut cache = filled();
    let request = encode(&(2u32, item(2, "two")));
    let h = cache.handle(Command::SetOne, &request).unwrap();
    assert_eq!(h.used, request.len());
    assert_eq!(h.changes, 1);
    assert_eq!(h.reply, vec![0]);
    assert_eq!(cache.get(TypeId(2)).unwrap().name, "two");
    // The same write again is a repeat.
    let h = cache.handle(Command::SetOne, &request).unwrap();
    assert_eq!(h.changes, 0);
    assert_eq!(h.reply, vec![1]);
    // A different record under the same key is a change.
    let h = cache.handle(Command::SetOne, &encode(&(2u32, item(2, "zwei")))).unwrap();
    assert_eq!(h.changes, 1);
    assert_eq!(cache.get(TypeId(2)).unwrap().name, "zwei");
}

#[test]
fn mset_lays_the_mapping_over_the_cache() {
    let mut cache = filled();
    let batch = vec![(1u32, item(1, "one")), (3u32, item(3, "drei")), (4u32, item(4, "four"))];
    let request = encode(&batch);
    let h = cache.handle(Command::MSet, &request).unwrap();
    assert_eq!(h.used, request.len());
    assert_eq!(h.changes, 2);
    assert_eq!(h.reply, vec![0]);
    assert_eq!(cache.get(TypeId(1)).unwrap().name, "one");
    assert_eq!(cache.get(TypeId(3)).unwrap().name, "drei");
    assert_eq!(cache.get(TypeId(4)).unwrap().name, "four");
    let h = cache.handle(Command::MSet, &request).unwrap();
    assert_eq!(h.changes, 0);
    assert_eq!(h.reply, vec![1]);
}

#[test]
fn of_two_pairs_with_one_key_in_a_mapping_the_later_counts() {
    let mut cache = ItemCache::new();
    let batch = vec![(1u32, item(1, "first")), (1u32, item(1, "second"))];
    let h = cache.handle(Command::MSet, &encode(&batch)).unwrap();
    assert_eq!(h.changes, 1);
    assert_eq!(cache.get(TypeId(1)).unwrap().name, "second");
}

#[test]
fn keys_answers_with_every_key_once() {
    let mut cache = filled();
    let h = cache.handle(Command::Keys, &[1, 2, 3]).unwrap();
    assert_eq!(h.used, 0);
    assert_eq!(h.changes, 0);
    assert_eq!(h.reply[0], 0);
    let mut keys = decode::<Vec<u32>>(&h.reply[1..]).unwrap();
    keys.sort();
    assert_eq!(keys, vec![1, 3]);
    assert_eq!(h.reply.len(), 1 + 8 + 2 * 4);
    let mut direct: Vec<u32> = cache.keys().iter().map(|k| k.0).collect();
    direct.sort();
    assert_eq!(direct, vec![1, 3]);
}

#[test]
fn save_over_a_connection_gets_no_response() {
    let mut cache = filled();
    let h = cache.handle(Command::Save, &[1, 2, 3]).unwrap();
    assert_eq!(h.used, 0);
    assert_eq!(h.changes, 0);
    assert!(h.reply.is_empty());
}

#[test]
fn a_request_cut_short_is_incomplete_and_changes_nothing() {
    let mut cache = filled();
    let request = encode(&(2u32, item(2, "two")));
    for cut in 0..request.len() {
        assert_eq!(
            cache.handle(Command::SetOne, &request[..cut]).unwrap_err(),
            CodecError::Incomplete
        );
    }
    assert!(cache.get(TypeId(2)).is_none());
    assert_eq!(cache.handle(Command::Get, &[0, 0]).unwrap_err(), CodecError::Incomplete);
    assert_eq!(cache.handle(Command::MGet, &[0; 7]).unwrap_err(), CodecError::Incomplete);
    assert_eq!(cache.handle(Command::MSet, &[0, 0, 0, 0, 0, 0, 0, 1]).unwrap_err(), CodecError::Incomplete);
}

#[test]
fn a_request_that_cannot_be_decoded_is_invalid_and_changes_nothing() {
    let mut cache = filled();
    let mut request = encode(&(2u32, item(2, "two")));
    // Spoil the first byte of the name.
    request[4 + 16 + 8] = 0xff;
    assert_eq!(cache.handle(Command::SetOne, &request).unwrap_err(), CodecError::Invalid);
    assert!(cache.get(TypeId(2)).is_none());
}

#[test]
fn a_table_can_be_staged_and_swapped_in() {
    let mut table: Table<ItemEntry> = Table::new();
    table.set(1, item(1, "one"));
    let (n, staged) = table.staged(vec![(1, item(1, "one"))]);
    assert_eq!(n, 0);
    assert!(staged.is_none());
    let (n, staged) = table.staged(vec![(1, item(1, "uno")), (2, item(2, "two"))]);
    assert_eq!(n, 2);
    // The table itself is untouched until the staged one takes its place.
    assert_eq!(table.get(1).unwrap().name, "one");
    assert!(table.get(2).is_none());
    let table = staged.unwrap();
    assert_eq!(table.get(1).unwrap().name, "uno");
    assert_eq!(table.get(2).unwrap().name, "two");
    assert_eq!(table.len(), 2);
}

#[test]
fn the_whole_table_can_be_read_and_written() {
    let cache = filled();
    let copy = cache.read();
    assert_eq!(copy.len(), 2);
    let mut other = ItemCache::new();
    other.write(copy);
    assert_eq!(other.get(TypeId(1)).unwrap().name, "one");
    assert_eq!(other.get(TypeId(3)).unwrap().name, "three");
    let mut batch: Table<ItemEntry> = Table::new();
    batch.set(3, item(3, "three"));
    batch.set(5, item(5, "five"));
    assert_eq!(other.mset(&batch), 1);
    assert_eq!(other.mset(&batch), 0);
    assert_eq!(other.keys().len(), 3);
}

#[test]
fn entries_and_records_list_everything_once() {
    let mut table: Table<ItemEntry> = Table::new();
    for id in 0..20u32 {
        table.set(id, item(id, "x"));
    }
    let mut keys: Vec<u32> = table.entries().iter().map(|p| p.0).collect();
    keys.sort();
    assert_eq!(keys, (0..20).collect::<Vec<u32>>());
    let mut ids: Vec<u32> = table.records().iter().map(|r| r.item_id.0).collect();
    ids.sort();
    assert_eq!(ids, (0..20).collect::<Vec<u32>>());
    let again = Table::from_entries(table.entries());
    assert_eq!(again.len(), 20);
    let again = Table::from_records(table.records());
    assert_eq!(again.len(), 20);
    let again: Table<ItemEntry> = Table::from_entry_bytes(Some(&table.to_entry_bytes()));
    assert_eq!(again.len(), 20);
    let again: Table<ItemEntry> = Table::from_record_bytes(Some(&table.to_record_bytes()));
    assert_eq!(again.len(), 20);
}

#[test]
fn reads_are_answered_without_a_writer() {
    let cache = filled();
    let h = cache.answer(Command::Get, &encode(&1u32)).unwrap().unwrap();
    assert_eq!(h.used, 4);
    assert_eq!(h.reply[0], 0);
    let h = cache.answer(Command::Get, &encode(&2u32)).unwrap().unwrap();
    assert_eq!(h.reply, vec![1]);
    let h = cache.answer(Command::MGet, &encode(&vec![3u32])).unwrap().unwrap();
    assert_eq!(decode::<Vec<(u32, ItemEntry)>>(&h.reply[1..]).unwrap().len(), 1);
    let h = cache.answer(Command::Keys, &[]).unwrap().unwrap();
    assert_eq!(decode::<Vec<u32>>(&h.reply[1..]).unwrap().len(), 2);
    assert!(cache.answer(Command::Save, &[]).unwrap().unwrap().reply.is_empty());
    assert_eq!(cache.answer(Command::Get, &[1]).unwrap().unwrap_err(), CodecError::Incomplete);
    assert!(cache.answer(Command::SetOne, &encode(&(2u32, item(2, "two")))).is_none());
    assert!(cache.answer(Command::MSet, &[]).is_none());
}

#[test]
fn a_request_that_was_carried_out_is_taken_off_the_bytes_read() {
    let mut pending = vec![1, 2, 3, 4, 5];
    let turn = settle(&mut pending, Ok(Handled { used: 3, reply: vec![0, 9], changes: 2 }));
    assert!(matches!(turn, Turn::Send { ref reply, save: true } if reply == &vec![0, 9]));
    assert_eq!(pending, vec![4, 5]);
    let turn = settle(&mut pending, Ok(Handled { used: 2, reply: vec![], changes: 0 }));
    assert!(matches!(turn, Turn::Send { ref reply, save: false } if reply.is_empty()));
    assert!(pending.is_empty());
    let mut pending = vec![1];
    let turn = settle(&mut pending, Ok(Handled { used: 0, reply: vec![1], changes: 0 }));
    assert!(matches!(turn, Turn::Send { save: false, .. }));
    assert_eq!(pending, vec![1]);
    let turn = settle(&mut pending, Ok(Handled { used: 7, reply: vec![1], changes: 1 }));
    assert!(matches!(turn, Turn::Send { save: true, .. }));
    assert!(pending.is_empty());
}

#[test]
fn a_request_that_is_incomplete_waits_and_one_that_is_invalid_fails() {
    let mut pending = vec![1, 2, 3];
    assert!(matches!(settle(&mut pending, Err(CodecError::Incomplete)), Turn::Wait));
    assert_eq!(pending, vec![1, 2, 3]);
    let turn = settle(&mut pending, Err(CodecError::Invalid));
    assert!(matches!(turn, Turn::Send { ref reply, save: false } if reply == &vec![2]));
    assert!(pending.is_empty());
}

#[test]
fn requests_that_arrive_in_pieces_are_answered_one_by_one() {
    let mut cache = ItemCache::new();
    let mut stream = encode(&(1u32, item(1, "one")));
    stream.extend_from_slice(&encode(&(2u32, item(2, "two"))));
    let mut pending: Vec<u8> = Vec::new();
    let mut replies = 0;
    let mut fed = 0;
    while replies < 2 {
        let outcome = cache.handle(Command::SetOne, &pending);
        match settle(&mut pending, outcome) {
            Turn::Wait => {
                let upto = (fed + 7).min(stream.len());
                assert!(upto > fed);
                pending.extend_from_slice(&stream[fed..upto]);
                fed = upto;
            }
            Turn::Send { reply, save } => {
                assert_eq!(reply, vec![0]);
                assert!(save);
                replies += 1;
            }
        }
    }
    assert!(pending.is_empty());
    assert_eq!(fed, stream.len());
    assert_eq!(cache.get(TypeId(1)).unwrap().name, "one");
    assert_eq!(cache.get(TypeId(2)).unwrap().name, "two");
}
