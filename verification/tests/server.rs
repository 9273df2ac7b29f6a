use caph::client::{acknowledgement, request, request_bare, response, Reply};
use caph::codec::{encode, CodecError};
use caph::ids::{CategoryId, GroupId, TypeId};
use caph::item::{ItemCache, ItemEntry};
use caph::protocol::{CncAction, Command, Status};
use caph::server::{route, Cache, Route};

fn item(id: u32, name: &str) -> ItemEntry {
    ItemEntry::new(
        CategoryId(1),
        GroupId(2),
        TypeId(id),
        0,
        String::from(name),
        String::new(),
    )
}

fn names() -> Vec<String> {
    vec![String::from("stations"), String::from("items"), String::from("id_names")]
}

#[test]
fn a_frame_is_name_tag_payload() {
    let frame = request(&String::from("items"), Command::Get, &34u32);
    let mut expected = vec![0, 0, 0, 0, 0, 0, 0, 5];
    expected.extend_from_slice(b"items");
    expected.push(0);
    expected.extend_from_slice(&[0, 0, 0, 34]);
    assert_eq!(frame, expected);
    let bare = request_bare(&String::from("items"), Command::Keys);
    assert_eq!(bare, [&[0, 0, 0, 0, 0, 0, 0, 5][..], b"items", &[4]].concat());
}

#[test]
fn a_frame_is_routed_to_the_cache_it_names() {
    let frame = request(&String::from("items"), Command::Get, &34u32);
    match route(&names(), &frame).unwrap() {
        Route::To { cache, cmd, at } => {
            assert_eq!(cache, 1);
            assert_eq!(cmd, Command::Get);
            assert_eq!(at, 8 + 5 + 1);
            assert_eq!(&frame[at..], &[0, 0, 0, 34]);
        }
        other => panic!("{:?}", other),
    }
    let frame = request_bare(&String::from("stations"), Command::Keys);
    assert!(matches!(
        route(&names(), &frame).unwrap(),
        Route::To { cache: 0, cmd: Command::Keys, at: 17 }
    ));
}

#[test]
fn a_frame_for_an_unknown_cache_is_refused() {
    let frame = request(&String::from("item"), Command::Get, &34u32);
    match route(&names(), &frame).unwrap() {
        Route::Refused { used, reply } => {
            assert_eq!(used, 8 + 4 + 1);
            assert_eq!(reply, vec![2]);
            assert_eq!(acknowledgement(&reply), Ok(Status::Failed));
        }
        other => panic!("{:?}", other),
    }
    assert!(matches!(route(&vec![], &frame).unwrap(), Route::Refused { .. }));
}

#[test]
fn a_frame_with_an_unknown_action_is_refused() {
    let mut frame = request_bare(&String::from("items"), Command::Keys);
    let last = frame.len() - 1;
    frame[last] = 77;
    match route(&names(), &frame).unwrap() {
        Route::Refused { used, reply } => {
            assert_eq!(used, frame.len());
            assert_eq!(reply, vec![2]);
        }
        other => panic!("{:?}", other),
    }
}

#[test]
fn a_frame_whose_head_is_cut_short_is_incomplete() {
    let frame = request_bare(&String::from("items"), Command::Keys);
    for cut in 0..frame.len() {
        assert_eq!(route(&names(), &frame[..cut]).unwrap_err(), CodecError::Incomplete);
    }
    let bad_name = [&[0, 0, 0, 0, 0, 0, 0, 1][..], &[0xff], &[0]].concat();
    assert_eq!(route(&names(), &bad_name).unwrap_err(), CodecError::Invalid);
}

#[test]
fn a_request_goes_from_client_to_cache_and_back() {
    let mut caches = vec![ItemCache::new()];
    let names = vec![Cache::name(&caches[0])];
    assert_eq!(names[0], "items");

    let frame = request(&names[0], Command::SetOne, &(34u32, item(34, "Tritanium")));
    let (cache, cmd, at) = match route(&names, &frame).unwrap() {
        Route::To { cache, cmd, at } => (cache, cmd, at),
        other => panic!("{:?}", other),
    };
    let handled = Cache::handle(&mut caches[cache], cmd, &frame[at..]).unwrap();
    assert_eq!(at + handled.used, frame.len());
    assert_eq!(handled.changes, 1);
    assert_eq!(acknowledgement(&handled.reply), Ok(Status::Done));

    let frame = request(&names[0], Command::Get, &34u32);
    let (cache, cmd, at) = match route(&names, &frame).unwrap() {
        Route::To { cache, cmd, at } => (cache, cmd, at),
        other => panic!("{:?}", other),
    };
    let handled = Cache::handle(&mut caches[cache], cmd, &frame[at..]).unwrap();
    match response::<ItemEntry>(&handled.reply).unwrap() {
        (Reply::Done(entry), used) => {
            assert_eq!(used, handled.reply.len());
            assert_eq!(entry.item_id, TypeId(34));
            assert_eq!(entry.name, "Tritanium");
        }
        other => panic!("{:?}", other),
    }

    let frame = request(&names[0], Command::Get, &35u32);
    let handled = caches[0].handle(Command::Get, &frame[14..]).unwrap();
    assert!(matches!(response::<ItemEntry>(&handled.reply), Ok((Reply::Empty, 1))));

    let frame = request(&names[0], Command::MGet, &vec![34u32, 35]);
    let handled = caches[0].handle(Command::MGet, &frame[14..]).unwrap();
    match response::<Vec<(u32, ItemEntry)>>(&handled.reply).unwrap() {
        (Reply::Done(pairs), _) => {
            assert_eq!(pairs.len(), 1);
            assert_eq!(pairs[0].0, 34);
        }
        other => panic!("{:?}", other),
    }

    let handled = caches[0].handle(Command::Keys, &[]).unwrap();
    match response::<Vec<u32>>(&handled.reply).unwrap() {
        (Reply::Done(keys), _) => assert_eq!(keys, vec![34]),
        other => panic!("{:?}", other),
    }
    assert_eq!(Cache::cnc_listener(&caches[0], Command::Save), CncAction::Save);
    assert_eq!(Cache::cnc_listener(&caches[0], Command::Keys), CncAction::Ignore);
}

#[test]
fn a_response_is_status_then_payload() {
    let mut bytes = vec![0u8];
    bytes.extend_from_slice(&encode(&7u32));
    assert!(matches!(response::<u32>(&bytes), Ok((Reply::Done(7), 5))));
    assert!(matches!(response::<u32>(&[1]), Ok((Reply::Empty, 1))));
    assert!(matches!(response::<u32>(&[2, 9, 9]), Ok((Reply::Failed, 1))));
    assert!(matches!(response::<u32>(&[3]), Err(CodecError::Invalid)));
    assert!(matches!(response::<u32>(&[]), Err(CodecError::Incomplete)));
    assert!(matches!(response::<u32>(&[0, 1, 2]), Err(CodecError::Incomplete)));
    assert_eq!(acknowledgement(&[0]), Ok(Status::Done));
    assert_eq!(acknowledgement(&[1]), Ok(Status::Empty));
    assert_eq!(acknowledgement(&[]), Err(CodecError::Incomplete));
    assert_eq!(acknowledgement(&[5]), Err(CodecError::Invalid));
}
