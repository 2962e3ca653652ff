use quake_assets::{DecodeError, Wad};

fn wad_record(offset: u32, dsize: u32, size: u32, kind: u8, name: &[u8]) -> Vec<u8> {
    let mut r = offset.to_le_bytes().to_vec();
    r.extend(dsize.to_le_bytes());
    r.extend(size.to_le_bytes());
    r.push(kind);
    r.push(0);
    r.extend(0u16.to_le_bytes());
    let mut n = name.to_vec();
    n.resize(16, 0);
    r.extend(n);
    r
}

fn wad_blob() -> Vec<u8> {
    let mut b = b"WAD2".to_vec();
    b.extend(2u32.to_le_bytes());
    b.extend(16u32.to_le_bytes());
    b.extend(b"abcd");
    b.extend(wad_record(12, 3, 3, b'@', b"conchars"));
    b.extend(wad_record(14, 2, 2, b'B', b"num_0"));
    b
}

#[test]
fn wad_header_fields() {
    let h = Wad::new(wad_blob()).read_header().unwrap();
    assert_eq!(h.name, "WAD2");
    assert_eq!(h.numentries, 2);
    assert_eq!(h.diroffset, 16);
}

#[test]
fn wad_directory_records() {
    let dir = Wad::new(wad_blob()).read_directory().unwrap();
    assert_eq!(dir.len(), 2);
    assert_eq!(dir[0].name, "conchars");
    assert_eq!(dir[0].entry_type, '@');
    assert_eq!(dir[0].compression, '\0');
    assert_eq!(dir[1].name, "num_0");
    assert_eq!(dir[1].offset, 14);
    assert_eq!(dir[1].dsize, 2);
    assert_eq!(dir[1].entry_type, 'B');
}

#[test]
fn wad_find_file() {
    let wad = Wad::new(wad_blob());
    assert_eq!(wad.find_file("conchars").unwrap(), b"abc".to_vec());
    assert_eq!(wad.find_file("num_0").unwrap(), b"cd".to_vec());
    assert_eq!(wad.find_file("num_1"), Err(DecodeError::NotFound));
}

#[test]
fn wad_directory_outside_blob() {
    let mut b = wad_blob();
    b[4] = 3;
    assert!(matches!(Wad::new(b).read_directory(), Err(DecodeError::CorruptOffset)));
}

#[test]
fn wad_truncated_header() {
    let wad = Wad::new(b"WAD2".to_vec());
    assert!(matches!(
        wad.read_header(),
        Err(DecodeError::Truncated { offset: 0, len: 12, available: 4 })
    ));
}
