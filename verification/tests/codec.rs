use caph::codec::{decode, encode, CodecError, Wire};
use caph::id_name::IdNameEntry;
use caph::ids::{CategoryId, GroupId, TypeId};
use caph::item::ItemEntry;
use caph::item_material::ItemMaterialEntry;
use caph::station::StationEntry;

#[test]
fn integers_are_big_endian() {
    assert_eq!(encode(&0xabu8), vec![0xab]);
    assert_eq!(encode(&0x0102u16), vec![1, 2]);
    assert_eq!(encode(&0x01020304u32), vec![1, 2, 3, 4]);
    assert_eq!(encode(&0x0102030405060708u64), vec![1, 2, 3, 4, 5, 6, 7, 8]);
    assert_eq!(encode(&u32::MAX), vec![255, 255, 255, 255]);
    assert_eq!(encode(&0u64), vec![0; 8]);
}

#[test]
fn integers_round_trip() {
    for v in [0u32, 1, 255, 256, 65_535, 65_536, 0x00ff_ff00, u32::MAX] {
        assert_eq!(decode::<u32>(&encode(&v)), Ok(v));
    }
    for v in [0u16, 1, 255, 256, u16::MAX] {
        assert_eq!(decode::<u16>(&encode(&v)), Ok(v));
    }
    for v in [0u64, 1, 0xffff_ffff, 0x1_0000_0000, 0x0102030405060708, u64::MAX] {
        assert_eq!(decode::<u64>(&encode(&v)), Ok(v));
    }
    for v in [0u8, 7, 255] {
        assert_eq!(decode::<u8>(&encode(&v)), Ok(v));
    }
}

#[test]
fn booleans_are_one_byte() {
    assert_eq!(encode(&true), vec![1]);
    assert_eq!(encode(&false), vec![0]);
    assert_eq!(decode::<bool>(&[1]), Ok(true));
    assert_eq!(decode::<bool>(&[0]), Ok(false));
    assert_eq!(decode::<bool>(&[2]), Err(CodecError::Invalid));
    assert_eq!(decode::<bool>(&[]), Err(CodecError::Incomplete));
}

#[test]
fn strings_are_length_prefixed_utf8() {
    let s = String::from("h\u{e9}");
    assert_eq!(encode(&s), vec![0, 0, 0, 0, 0, 0, 0, 3, b'h', 0xc3, 0xa9]);
    assert_eq!(decode::<String>(&encode(&s)), Ok(s));
    assert_eq!(encode(&String::new()), vec![0; 8]);
    assert_eq!(decode::<String>(&[0; 8]), Ok(String::new()));
}

#[test]
fn a_string_that_is_not_utf8_is_invalid() {
    let bytes = vec![0, 0, 0, 0, 0, 0, 0, 2, 0xff, 0xfe];
    assert_eq!(decode::<String>(&bytes), Err(CodecError::Invalid));
    let cut_scalar = vec![0, 0, 0, 0, 0, 0, 0, 1, 0xc3];
    assert_eq!(decode::<String>(&cut_scalar), Err(CodecError::Invalid));
}

#[test]
fn a_short_buffer_is_incomplete() {
    assert_eq!(decode::<u32>(&[1, 2, 3]), Err(CodecError::Incomplete));
    assert_eq!(decode::<u16>(&[1]), Err(CodecError::Incomplete));
    assert_eq!(decode::<u64>(&[0; 7]), Err(CodecError::Incomplete));
    assert_eq!(decode::<u8>(&[]), Err(CodecError::Incomplete));
    assert_eq!(decode::<String>(&[0, 0, 0, 0, 0, 0, 0, 3, b'a', b'b']), Err(CodecError::Incomplete));
    assert_eq!(decode::<String>(&[0, 0, 0]), Err(CodecError::Incomplete));
    // A length that no buffer can hold is still only a wait for more.
    let mut huge = vec![0xff; 8];
    huge.extend_from_slice(b"abc");
    assert_eq!(decode::<String>(&huge), Err(CodecError::Incomplete));
}

#[test]
fn every_prefix_of_an_encoding_is_incomplete() {
    let value = vec![String::from("alpha"), String::from("b\u{e9}ta"), String::new()];
    let bytes = encode(&value);
    for cut in 0..bytes.len() {
        assert_eq!(decode::<Vec<String>>(&bytes[..cut]), Err(CodecError::Incomplete));
    }
    assert_eq!(decode::<Vec<String>>(&bytes), Ok(value));
}

#[test]
fn what_follows_a_value_is_not_looked_at() {
    let mut bytes = encode(&7u32);
    bytes.extend_from_slice(&[9, 9, 9]);
    assert_eq!(decode::<u32>(&bytes), Ok(7));
    assert_eq!(u32::read(&bytes, 0), Ok((7, 4)));
    assert_eq!(u8::read(&bytes, 4), Ok((9, 5)));
}

#[test]
fn sequences_are_count_then_items() {
    let v: Vec<u16> = vec![1, 2, 0x0304];
    assert_eq!(encode(&v), vec![0, 0, 0, 0, 0, 0, 0, 3, 0, 1, 0, 2, 3, 4]);
    assert_eq!(decode::<Vec<u16>>(&encode(&v)), Ok(v));
    let empty: Vec<u32> = Vec::new();
    assert_eq!(encode(&empty), vec![0; 8]);
    assert_eq!(decode::<Vec<u32>>(&[0; 8]), Ok(empty));
}

#[test]
fn nested_shapes_round_trip() {
    let v: Vec<Vec<(u32, String)>> = vec![
        vec![(1, String::from("one")), (2, String::from("two"))],
        vec![],
        vec![(u32::MAX, String::new())],
    ];
    assert_eq!(decode::<Vec<Vec<(u32, String)>>>(&encode(&v)), Ok(v));
    let pair: (bool, (u8, u64)) = (true, (3, 4));
    assert_eq!(encode(&pair), vec![1, 3, 0, 0, 0, 0, 0, 0, 0, 4]);
    assert_eq!(decode::<(bool, (u8, u64))>(&encode(&pair)), Ok(pair));
}

#[test]
fn an_invalid_item_makes_the_sequence_invalid() {
    let bytes = vec![0, 0, 0, 0, 0, 0, 0, 2, 1, 5];
    assert_eq!(decode::<Vec<bool>>(&bytes), Err(CodecError::Invalid));
}

#[test]
fn a_station_is_sixteen_bytes() {
    let station = StationEntry::new(1, 10, 100, 0.5f32.to_bits());
    let bytes = encode(&station);
    assert_eq!(bytes, vec![0, 0, 0, 1, 0, 0, 0, 10, 0, 0, 0, 100, 0x3f, 0, 0, 0]);
    let back = decode::<StationEntry>(&bytes).unwrap();
    assert_eq!(back.station_id, 1);
    assert_eq!(back.region_id, 10);
    assert_eq!(back.system_id, 100);
    assert_eq!(f32::from_bits(back.security), 0.5);
    assert!(matches!(decode::<StationEntry>(&bytes[..15]), Err(CodecError::Incomplete)));
}

#[test]
fn an_item_material_is_twelve_bytes() {
    let entry = ItemMaterialEntry::new(34, 35, 0x01020304);
    let bytes = encode(&entry);
    assert_eq!(bytes, vec![0, 0, 0, 34, 0, 0, 0, 35, 1, 2, 3, 4]);
    assert_eq!(decode::<ItemMaterialEntry>(&bytes), Ok(entry));
    assert_eq!(decode::<ItemMaterialEntry>(&bytes[..11]), Err(CodecError::Incomplete));
}

#[test]
fn an_id_name_is_id_then_name() {
    let entry = IdNameEntry::new(34, String::from("Tritanium"));
    let bytes = encode(&entry);
    let mut expected = vec![0, 0, 0, 34, 0, 0, 0, 0, 0, 0, 0, 9];
    expected.extend_from_slice(b"Tritanium");
    assert_eq!(bytes, expected);
    let back = decode::<IdNameEntry>(&bytes).unwrap();
    assert_eq!(back.item_id, 34);
    assert_eq!(back.name, "Tritanium");
}

#[test]
fn an_item_is_its_fields_in_order() {
    let item = ItemEntry::new(
        CategoryId(4),
        GroupId(18),
        TypeId(34),
        0.01f32.to_bits(),
        String::from("Tritanium"),
        String::from("The main building block"),
    );
    let bytes = encode(&item);
    let mut expected = vec![0, 0, 0, 4, 0, 0, 0, 18, 0, 0, 0, 34];
    expected.extend_from_slice(&0.01f32.to_bits().to_be_bytes());
    expected.extend_from_slice(&9u64.to_be_bytes());
    expected.extend_from_slice(b"Tritanium");
    expected.extend_from_slice(&23u64.to_be_bytes());
    expected.extend_from_slice(b"The main building block");
    assert_eq!(bytes, expected);
    let back = decode::<ItemEntry>(&bytes).unwrap();
    assert_eq!(back.category_id, CategoryId(4));
    assert_eq!(back.group_id, GroupId(18));
    assert_eq!(back.item_id, TypeId(34));
    assert_eq!(f32::from_bits(back.volume), 0.01);
    assert_eq!(back.name, "Tritanium");
    assert_eq!(back.description, "The main building block");
    for cut in 0..bytes.len() {
        assert!(matches!(decode::<ItemEntry>(&bytes[..cut]), Err(CodecError::Incomplete)));
    }
}

#[test]
fn write_appends_and_read_starts_where_told() {
    let mut out = vec![0xee];
    7u16.write(&mut out);
    String::from("x").write(&mut out);
    assert_eq!(out, vec![0xee, 0, 7, 0, 0, 0, 0, 0, 0, 0, 1, b'x']);
    assert_eq!(u16::read(&out, 1), Ok((7, 3)));
    assert_eq!(String::read(&out, 3), Ok((String::from("x"), 12)));
    assert_eq!(u8::read(&out, 12), Err(CodecError::Incomplete));
}
