use quake_assets::{parse_skins, ByteReader, DecodeError, ModelHeader};

fn header_bytes(skinwidth: u32, skinheight: u32) -> Vec<u8> {
    let mut b = b"IDPO".to_vec();
    b.extend(6u32.to_le_bytes());
    for f in [1.5f32, 2.0, 0.25, -10.0, -20.0, -30.0, 40.0, 0.0, 0.0, 22.0] {
        b.extend(f.to_le_bytes());
    }
    for v in [1u32, skinwidth, skinheight, 100, 200, 3, 0, 8] {
        b.extend(v.to_le_bytes());
    }
    b.extend(5.5f32.to_le_bytes());
    b
}

#[test]
fn mdl_reject_bad_magic() {
    let data = b"IDPX".to_vec();
    let mut reader = ByteReader::new(&data);
    assert_eq!(ModelHeader::from_reader(&mut reader), Err(DecodeError::BadMagic));
    assert_eq!(reader.position(), 0);
}

#[test]
fn mdl_reject_unsupported_version() {
    let mut data = b"IDPO".to_vec();
    data.extend(5u32.to_le_bytes());
    let mut reader = ByteReader::new(&data);
    assert_eq!(ModelHeader::from_reader(&mut reader), Err(DecodeError::UnsupportedVersion));
}

#[test]
fn mdl_truncated_after_version() {
    let mut data = b"IDPO".to_vec();
    data.extend(6u32.to_le_bytes());
    data.extend([0u8; 10]);
    let mut reader = ByteReader::new(&data);
    assert_eq!(
        ModelHeader::from_reader(&mut reader),
        Err(DecodeError::Truncated { offset: 8, len: 76, available: 18 })
    );
    assert_eq!(reader.position(), 0);
}

#[test]
fn mdl_header_fields() {
    let data = header_bytes(4, 2);
    let mut reader = ByteReader::new(&data);
    let h = ModelHeader::from_reader(&mut reader).unwrap();
    assert_eq!(reader.position(), 84);
    assert_eq!(h.ident, u32::from_le_bytes(*b"IDPO"));
    assert_eq!(h.version, 6);
    assert_eq!(f32::from_bits(h.scale.x), 1.5);
    assert_eq!(f32::from_bits(h.scale_origin.z), -30.0);
    assert_eq!(f32::from_bits(h.boundingradius), 40.0);
    assert_eq!(f32::from_bits(h.eyeposition.z), 22.0);
    assert_eq!(h.numskins, 1);
    assert_eq!(h.skinwidth, 4);
    assert_eq!(h.skinheight, 2);
    assert_eq!(h.numverts, 100);
    assert_eq!(h.numtriangles, 200);
    assert_eq!(h.numframes, 3);
    assert_eq!(h.synctype, 0);
    assert_eq!(h.flags, 8);
    assert_eq!(f32::from_bits(h.size), 5.5);
}

#[test]
fn mdl_first_skin() {
    let mut data = header_bytes(4, 2);
    data.extend(10u8..18);
    data.extend([99u8; 3]);
    let mut reader = ByteReader::new(&data);
    let h = ModelHeader::from_reader(&mut reader).unwrap();
    let skin = parse_skins(&mut reader, &h).unwrap();
    assert_eq!(skin, (10u8..18).collect::<Vec<u8>>());
    assert_eq!(reader.position(), 92);
}

#[test]
fn mdl_skin_truncated() {
    let mut data = header_bytes(4, 2);
    data.extend([1u8; 7]);
    let mut reader = ByteReader::new(&data);
    let h = ModelHeader::from_reader(&mut reader).unwrap();
    assert_eq!(
        parse_skins(&mut reader, &h),
        Err(DecodeError::Truncated { offset: 84, len: 8, available: 91 })
    );
    assert_eq!(reader.position(), 84);
}

#[test]
fn mdl_huge_skin_dimensions_are_truncated_not_overflowed() {
    let data = header_bytes(u32::MAX, u32::MAX);
    let mut reader = ByteReader::new(&data);
    let h = ModelHeader::from_reader(&mut reader).unwrap();
    assert_eq!(
        parse_skins(&mut reader, &h),
        Err(DecodeError::Truncated {
            offset: 84,
            len: u32::MAX as u64 * u32::MAX as u64,
            available: 84
        })
    );
}
