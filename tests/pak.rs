use quake_assets::{DecodeError, Pak};

fn le32(v: u32) -> Vec<u8> {
    v.to_le_bytes().to_vec()
}

fn record(name: &[u8], offset: u32, size: u32) -> Vec<u8> {
    let mut r = name.to_vec();
    r.resize(56, 0);
    r.extend(le32(offset));
    r.extend(le32(size));
    r
}

fn archive(records: &[(&[u8], u32, u32)], tail: &[u8]) -> Vec<u8> {
    let mut b = b"PACK".to_vec();
    b.extend(le32(12));
    b.extend(le32(64 * records.len() as u32));
    for (name, offset, size) in records {
        b.extend(record(name, *offset, *size));
    }
    b.extend_from_slice(tail);
    b
}

#[test]
fn pak_round_trip_hello() {
    let blob = archive(&[(b"hello", 76, 5)], b"hello");
    let pak = Pak::new(blob);
    assert_eq!(pak.find_file("hello").unwrap(), b"hello".to_vec());
}

#[test]
fn pak_round_trip_binary_payload() {
    let payload: Vec<u8> = (0u8..=255).collect();
    let blob = archive(&[(b"maps/e1m1.bsp", 76, 256)], &payload);
    let pak = Pak::new(blob);
    assert_eq!(pak.find_file("maps/e1m1.bsp").unwrap(), payload);
}

#[test]
fn pak_header_fields() {
    let pak = Pak::new(archive(&[(b"a", 76, 0)], b""));
    let h = pak.read_header().unwrap();
    assert_eq!(h.id, "PACK");
    assert_eq!(h.dir_offset, 12);
    assert_eq!(h.dir_size, 64);
}

#[test]
fn pak_directory_lists_records_in_order() {
    let blob = archive(&[(b"gfx/palette.lmp", 140, 3), (b"progs/player.mdl", 143, 2)], b"abcde");
    let dir = Pak::new(blob).read_directory().unwrap();
    assert_eq!(dir.len(), 2);
    assert_eq!(dir[0].name, "gfx/palette.lmp");
    assert_eq!(dir[0].file_offset, 140);
    assert_eq!(dir[0].file_size, 3);
    assert_eq!(dir[1].name, "progs/player.mdl");
    assert_eq!(dir[1].file_offset, 143);
    assert_eq!(dir[1].file_size, 2);
}

#[test]
fn pak_every_record_found_inside_blob() {
    let blob = archive(&[(b"one", 140, 3), (b"two", 143, 2)], b"abcde");
    let pak = Pak::new(blob);
    assert_eq!(pak.find_file("one").unwrap(), b"abc".to_vec());
    assert_eq!(pak.find_file("two").unwrap(), b"de".to_vec());
}

#[test]
fn pak_duplicate_name_resolves_to_first() {
    let blob = archive(&[(b"dup", 140, 2), (b"dup", 142, 3)], b"abcde");
    let pak = Pak::new(blob);
    assert_eq!(pak.find_file("dup").unwrap(), b"ab".to_vec());
}

#[test]
fn pak_name_match_is_exact() {
    let blob = archive(&[(b"hello", 76, 5)], b"hello");
    let pak = Pak::new(blob);
    assert_eq!(pak.find_file("hell"), Err(DecodeError::NotFound));
    assert_eq!(pak.find_file("hello "), Err(DecodeError::NotFound));
}

#[test]
fn pak_not_found() {
    let pak = Pak::new(archive(&[(b"hello", 76, 5)], b"hello"));
    assert_eq!(pak.find_file("missing"), Err(DecodeError::NotFound));
}

#[test]
fn pak_empty_directory() {
    let pak = Pak::new(archive(&[], b""));
    assert_eq!(pak.read_directory().unwrap().len(), 0);
    assert_eq!(pak.find_file("x"), Err(DecodeError::NotFound));
}

#[test]
fn pak_bad_magic() {
    let mut blob = archive(&[(b"hello", 76, 5)], b"hello");
    blob[3] = b'X';
    let pak = Pak::new(blob);
    assert!(matches!(pak.read_header(), Err(DecodeError::BadMagic)));
    assert_eq!(pak.find_file("hello"), Err(DecodeError::BadMagic));
}

#[test]
fn pak_truncated_header() {
    let pak = Pak::new(b"PA".to_vec());
    assert!(matches!(
        pak.read_header(),
        Err(DecodeError::Truncated { offset: 0, len: 4, available: 2 })
    ));
    let pak = Pak::new(b"PACK\x0c\x00".to_vec());
    assert!(matches!(
        pak.read_header(),
        Err(DecodeError::Truncated { offset: 4, len: 8, available: 6 })
    ));
}

#[test]
fn pak_directory_outside_blob() {
    let mut blob = archive(&[(b"hello", 76, 5)], b"hello");
    blob[8] = 0x80;
    let pak = Pak::new(blob);
    assert!(matches!(pak.read_directory(), Err(DecodeError::CorruptOffset)));
}

#[test]
fn pak_record_outside_blob() {
    let blob = archive(&[(b"hello", 76, 6)], b"hello");
    let pak = Pak::new(blob);
    assert!(matches!(pak.read_directory(), Err(DecodeError::CorruptOffset)));
    assert_eq!(pak.find_file("hello"), Err(DecodeError::CorruptOffset));
}

#[test]
fn pak_name_with_invalid_utf8_is_replaced() {
    let blob = archive(&[(b"a\xffb", 76, 1)], b"z");
    let dir = Pak::new(blob).read_directory().unwrap();
    assert_eq!(dir[0].name, "a\u{FFFD}b");
}

#[test]
fn pak_name_trims_nul_on_both_ends() {
    let blob = archive(&[(b"\0\0pad", 76, 1)], b"z");
    let pak = Pak::new(blob);
    assert_eq!(pak.read_directory().unwrap()[0].name, "pad");
    assert_eq!(pak.find_file("pad").unwrap(), b"z".to_vec());
}
