use quake_assets::{Bsp, BspEntry, DecodeError};

const PLANES: usize = 1;
const VERTICES: usize = 3;
const FACES: usize = 7;
const EDGES: usize = 12;

/// A BSP blob whose lumps are laid out one after another after the header.
fn bsp_with(lumps: &[(usize, Vec<u8>)]) -> Vec<u8> {
    let mut entries = [(0u32, 0u32); 15];
    let mut body = Vec::new();
    for (k, bytes) in lumps {
        entries[*k] = ((124 + body.len()) as u32, bytes.len() as u32);
        body.extend_from_slice(bytes);
    }
    let mut b = 29u32.to_le_bytes().to_vec();
    for (offset, size) in entries.iter() {
        b.extend(offset.to_le_bytes());
        b.extend(size.to_le_bytes());
    }
    b.extend(body);
    b
}

fn vertex_bytes(x: f32, y: f32, z: f32) -> Vec<u8> {
    let mut v = x.to_le_bytes().to_vec();
    v.extend(y.to_le_bytes());
    v.extend(z.to_le_bytes());
    v
}

fn three_vertices() -> Vec<u8> {
    let mut v = vertex_bytes(0.0, 0.0, 0.0);
    v.extend(vertex_bytes(1.0, 0.0, 0.0));
    v.extend(vertex_bytes(0.0, 1.0, 0.0));
    v
}

#[test]
fn bsp_header_all_zero_entries() {
    let mut blob = vec![0x1D, 0x00, 0x00, 0x00];
    blob.extend(vec![0u8; 120]);
    let h = Bsp::new(blob).read_header().unwrap();
    assert_eq!(h.version, 29);
    let all = [
        h.entities, h.planes, h.miptex, h.vertices, h.visilist, h.nodes, h.texinfo, h.faces,
        h.lightmaps, h.clipnodes, h.leaves, h.lfaces, h.edges, h.ledges, h.models,
    ];
    for e in all.iter() {
        assert_eq!(*e, BspEntry { offset: 0, size: 0 });
    }
}

#[test]
fn bsp_header_entries_in_file_order() {
    let blob = bsp_with(&[(VERTICES, three_vertices()), (EDGES, vec![1, 0, 2, 0])]);
    let h = Bsp::new(blob).read_header().unwrap();
    assert_eq!(h.vertices, BspEntry { offset: 124, size: 36 });
    assert_eq!(h.edges, BspEntry { offset: 160, size: 4 });
}

#[test]
fn bsp_header_unsupported_version() {
    let mut blob = bsp_with(&[]);
    blob[0] = 30;
    assert!(matches!(Bsp::new(blob).read_header(), Err(DecodeError::UnsupportedVersion)));
}

#[test]
fn bsp_header_truncated() {
    let blob = vec![0x1D, 0, 0, 0, 0, 0];
    assert!(matches!(
        Bsp::new(blob).read_header(),
        Err(DecodeError::Truncated { offset: 0, len: 124, available: 6 })
    ));
}

#[test]
fn bsp_header_lump_outside_blob() {
    let mut blob = bsp_with(&[(EDGES, vec![1, 0, 2, 0])]);
    blob.truncate(blob.len() - 1);
    assert!(matches!(Bsp::new(blob).read_header(), Err(DecodeError::CorruptOffset)));
}

#[test]
fn bsp_header_partial_record() {
    let blob = bsp_with(&[(VERTICES, vec![0u8; 13])]);
    assert!(matches!(
        Bsp::new(blob).read_header(),
        Err(DecodeError::Truncated { offset: 136, len: 12, available: 137 })
    ));
}

#[test]
fn bsp_edge_decode() {
    let blob = bsp_with(&[(VERTICES, three_vertices()), (EDGES, vec![0x01, 0x00, 0x02, 0x00])]);
    let bsp = Bsp::new(blob);
    let h = bsp.read_header().unwrap();
    let edges = bsp.read_edges(&h).unwrap();
    assert_eq!(edges.len(), 1);
    assert_eq!(edges[0].start_vertex, 1);
    assert_eq!(edges[0].end_vertex, 2);
}

#[test]
fn bsp_edge_index_out_of_range() {
    let blob = bsp_with(&[(VERTICES, three_vertices()), (EDGES, vec![0x01, 0x00, 0x03, 0x00])]);
    let bsp = Bsp::new(blob);
    let h = bsp.read_header().unwrap();
    assert!(matches!(bsp.read_edges(&h), Err(DecodeError::CorruptOffset)));
}

#[test]
fn bsp_edges_index_decoded_vertices() {
    let blob = bsp_with(&[
        (VERTICES, three_vertices()),
        (EDGES, vec![0, 0, 1, 0, 1, 0, 2, 0, 2, 0, 0, 0]),
    ]);
    let bsp = Bsp::new(blob);
    let h = bsp.read_header().unwrap();
    let vertices = bsp.read_vertices(&h).unwrap();
    for e in bsp.read_edges(&h).unwrap() {
        assert!((e.start_vertex as usize) < vertices.len());
        assert!((e.end_vertex as usize) < vertices.len());
    }
}

#[test]
fn bsp_vertex_decode() {
    let blob = bsp_with(&[(VERTICES, vertex_bytes(1.0, -2.0, 3.5))]);
    let bsp = Bsp::new(blob);
    let h = bsp.read_header().unwrap();
    let vertices = bsp.read_vertices(&h).unwrap();
    assert_eq!(vertices.len(), 1);
    let c = vertices[0].coordinates;
    assert_eq!(f32::from_bits(c.x), 1.0);
    assert_eq!(f32::from_bits(c.y), -2.0);
    assert_eq!(f32::from_bits(c.z), 3.5);
}

#[test]
fn bsp_decoding_twice_is_identical() {
    let blob = bsp_with(&[(VERTICES, three_vertices()), (EDGES, vec![1, 0, 2, 0, 0, 0, 1, 0])]);
    let bsp = Bsp::new(blob);
    let h = bsp.read_header().unwrap();
    assert_eq!(bsp.read_vertices(&h).unwrap(), bsp.read_vertices(&h).unwrap());
    assert_eq!(bsp.read_edges(&h).unwrap(), bsp.read_edges(&h).unwrap());
    assert_eq!(bsp.read_faces(&h).unwrap(), bsp.read_faces(&h).unwrap());
    assert_eq!(bsp.read_planes(&h).unwrap(), bsp.read_planes(&h).unwrap());
}

#[test]
fn bsp_face_decode() {
    let mut face = Vec::new();
    face.extend(7u16.to_le_bytes());
    face.extend(1u16.to_le_bytes());
    face.extend(100_000u32.to_le_bytes());
    face.extend(4u16.to_le_bytes());
    face.extend(9u16.to_le_bytes());
    face.extend([3u8, 200, 10, 20]);
    face.extend(0xDEAD_BEEFu32.to_le_bytes());
    let blob = bsp_with(&[(FACES, face)]);
    let bsp = Bsp::new(blob);
    let h = bsp.read_header().unwrap();
    let faces = bsp.read_faces(&h).unwrap();
    assert_eq!(faces.len(), 1);
    let f = faces[0];
    assert_eq!(f.plane_id, 7);
    assert_eq!(f.side, 1);
    assert_eq!(f.ledge_id, 100_000);
    assert_eq!(f.ledge_num, 4);
    assert_eq!(f.texinfo_id, 9);
    assert_eq!(f.typelight, 3);
    assert_eq!(f.baselight, 200);
    assert_eq!(f.light, [10, 20]);
    assert_eq!(f.lightmap, 0xDEAD_BEEF);
}

#[test]
fn bsp_plane_decode() {
    let mut plane = vertex_bytes(0.0, 0.0, 1.0);
    plane.extend(64.5f32.to_le_bytes());
    plane.extend(2u32.to_le_bytes());
    let blob = bsp_with(&[(PLANES, plane)]);
    let bsp = Bsp::new(blob);
    let h = bsp.read_header().unwrap();
    let planes = bsp.read_planes(&h).unwrap();
    assert_eq!(planes.len(), 1);
    assert_eq!(f32::from_bits(planes[0].normal.z), 1.0);
    assert_eq!(f32::from_bits(planes[0].dist), 64.5);
    assert_eq!(planes[0].plane_type, 2);
}

#[test]
fn bsp_lump_checked_against_any_header() {
    let blob = bsp_with(&[(VERTICES, three_vertices())]);
    let bsp = Bsp::new(blob);
    let mut h = bsp.read_header().unwrap();
    h.vertices.size = 30;
    assert!(matches!(
        bsp.read_vertices(&h),
        Err(DecodeError::Truncated { offset: 148, len: 12, available: 154 })
    ));
    h.vertices.offset = 1000;
    assert!(matches!(bsp.read_vertices(&h), Err(DecodeError::CorruptOffset)));
}

#[test]
fn bsp_empty_lumps_decode_empty() {
    let bsp = Bsp::new(bsp_with(&[]));
    let h = bsp.read_header().unwrap();
    assert!(bsp.read_vertices(&h).unwrap().is_empty());
    assert!(bsp.read_edges(&h).unwrap().is_empty());
    assert!(bsp.read_faces(&h).unwrap().is_empty());
    assert!(bsp.read_planes(&h).unwrap().is_empty());
}
