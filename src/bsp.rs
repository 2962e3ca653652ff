use vstd::prelude::*;

use crate::error::{truncated, DecodeError};
use crate::reader::{le_u32, read_u32_at};

mod edges;
mod faces;
mod planes;
mod vertices;

pub use edges::{edge_at, edge_in_range, edges_of, vertex_count, Edge};
pub use faces::{face_at, faces_of, Face};
pub use planes::{plane_at, planes_of, Plane};
pub use vertices::{vertex_at, vertices_of, Vertex};

verus! {

/// The only BSP version this decoder reads.
pub const BSP_VERSION: u32 = 29;

/// Size in bytes of the BSP header: the version word and 15 lump entries.
pub const BSP_HEADER_SIZE: usize = 124;

/// Number of lump entries in the header.
pub const LUMP_COUNT: usize = 15;

/// Record widths of the lumps that are decoded.
pub const VERTEX_SIZE: u32 = 12;
pub const EDGE_SIZE: u32 = 4;
pub const FACE_SIZE: u32 = 20;
pub const PLANE_SIZE: u32 = 20;

/// A BSP29 map blob.
pub struct Bsp {
    data: Vec<u8>,
}

impl View for Bsp {
    type V = Seq<u8>;

    closed spec fn view(&self) -> Seq<u8> {
        self.data@
    }
}

/// A lump: the byte window `[offset, offset + size)` of the blob.
#[derive(Debug, Clone, Copy, PartialEq, Eq, Structural)]
pub struct BspEntry {
    pub offset: u32,
    pub size: u32,
}

/// The BSP header: the version word and the lump entries in file order.
#[derive(Debug, Clone, Copy, PartialEq, Eq, Structural)]
pub struct BspHeader {
    pub version: u32,
    pub entities: BspEntry,
    pub planes: BspEntry,
    pub miptex: BspEntry,
    pub vertices: BspEntry,
    pub visilist: BspEntry,
    pub nodes: BspEntry,
    pub texinfo: BspEntry,
    pub faces: BspEntry,
    pub lightmaps: BspEntry,
    pub clipnodes: BspEntry,
    pub leaves: BspEntry,
    pub lfaces: BspEntry,
    pub edges: BspEntry,
    pub ledges: BspEntry,
    pub models: BspEntry,
}

impl BspHeader {
    /// The lump entries in file order.
    pub open spec fn entries(self) -> Seq<BspEntry> {
        seq![
            self.entities, self.planes, self.miptex, self.vertices, self.visilist,
            self.nodes, self.texinfo, self.faces, self.lightmaps, self.clipnodes,
            self.leaves, self.lfaces, self.edges, self.ledges, self.models,
        ]
    }
}

/// The `k`-th lump entry stored in the header at the start of `b`.
pub open spec fn entry_at(b: Seq<u8>, k: int) -> BspEntry {
    BspEntry { offset: le_u32(b, 4 + 8 * k) as u32, size: le_u32(b, 8 + 8 * k) as u32 }
}

/// The header stored at the start of `b`, read without any check.
pub open spec fn header_at(b: Seq<u8>) -> BspHeader {
    BspHeader {
        version: le_u32(b, 0) as u32,
        entities: entry_at(b, 0),
        planes: entry_at(b, 1),
        miptex: entry_at(b, 2),
        vertices: entry_at(b, 3),
        visilist: entry_at(b, 4),
        nodes: entry_at(b, 5),
        texinfo: entry_at(b, 6),
        faces: entry_at(b, 7),
        lightmaps: entry_at(b, 8),
        clipnodes: entry_at(b, 9),
        leaves: entry_at(b, 10),
        lfaces: entry_at(b, 11),
        edges: entry_at(b, 12),
        ledges: entry_at(b, 13),
        models: entry_at(b, 14),
    }
}

/// Whether the lump lies inside a blob of `len` bytes.
pub open spec fn entry_fits(e: BspEntry, len: int) -> bool {
    e.offset + e.size <= len
}

/// The check a lump of `width`-byte records passes before it is decoded:
/// its window lies inside the blob and holds whole records only.
pub open spec fn lump_window(e: BspEntry, width: int, len: int) -> Result<(), DecodeError> {
    if !entry_fits(e, len) {
        Err(DecodeError::CorruptOffset)
    } else if e.size as int % width != 0 {
        Err(truncated(e.offset + e.size - e.size as int % width, width, e.offset + e.size))
    } else {
        Ok(())
    }
}

/// The outcome of decoding the BSP header of `b`.
pub open spec fn bsp_header(b: Seq<u8>) -> Result<BspHeader, DecodeError> {
    let len = b.len() as int;
    let h = header_at(b);
    if len < BSP_HEADER_SIZE {
        Err(truncated(0, BSP_HEADER_SIZE as int, len))
    } else if h.version != BSP_VERSION {
        Err(DecodeError::UnsupportedVersion)
    } else if !(forall|k: int| 0 <= k < LUMP_COUNT ==> entry_fits(#[trigger] entry_at(b, k), len)) {
        Err(DecodeError::CorruptOffset)
    } else {
        match lump_window(h.planes, PLANE_SIZE as int, len) {
            Err(x) => Err(x),
            Ok(_) => match lump_window(h.vertices, VERTEX_SIZE as int, len) {
                Err(x) => Err(x),
                Ok(_) => match lump_window(h.faces, FACE_SIZE as int, len) {
                    Err(x) => Err(x),
                    Ok(_) => match lump_window(h.edges, EDGE_SIZE as int, len) {
                        Err(x) => Err(x),
                        Ok(_) => Ok(h),
                    },
                },
            },
        }
    }
}

/// Whether `r` is the executable form of the decoding outcome `s`.
pub open spec fn decoded_as<T>(r: Result<Vec<T>, DecodeError>, s: Result<Seq<T>, DecodeError>) -> bool {
    match r {
        Ok(v) => s == Ok::<Seq<T>, DecodeError>(v@),
        Err(e) => s == Err::<Seq<T>, DecodeError>(e),
    }
}

/// Record `i` of a lump of `size` bytes and `w`-byte records lies inside
/// the lump.
pub(crate) proof fn lemma_record_inside(i: int, size: int, w: int)
    requires
        0 <= i < size / w,
        w > 0,
        size >= 0,
    ensures
        w * i + w <= size,
{
    vstd::arithmetic::div_mod::lemma_fundamental_div_mod(size, w);
    vstd::arithmetic::div_mod::lemma_mod_pos_bound(size, w);
    assert(w * i + w <= w * (size / w)) by (nonlinear_arith)
        requires
            i + 1 <= size / w,
            w > 0,
    ;
}

/// Checks a lump window as `lump_window` does.
pub(crate) fn check_lump(e: BspEntry, width: u32, len: usize) -> (r: Result<(), DecodeError>)
    requires
        width > 0,
    ensures
        r == lump_window(e, width as int, len as int),
{
    let end: u64 = e.offset as u64 + e.size as u64;
    if end > len as u64 {
        Err(DecodeError::CorruptOffset)
    } else if e.size % width != 0 {
        proof {
            vstd::arithmetic::div_mod::lemma_mod_pos_bound(e.size as int, width as int);
            vstd::arithmetic::div_mod::lemma_fundamental_div_mod(e.size as int, width as int);
            assert(width * (e.size / width) >= 0) by (nonlinear_arith)
                requires
                    width > 0,
            ;
        }
        Err(DecodeError::Truncated {
            offset: end - (e.size % width) as u64,
            len: width as u64,
            available: end,
        })
    } else {
        Ok(())
    }
}

fn read_entry(b: &[u8], k: usize) -> (r: BspEntry)
    requires
        k < LUMP_COUNT,
        BSP_HEADER_SIZE <= b@.len(),
    ensures
        r == entry_at(b@, k as int),
{
    BspEntry { offset: read_u32_at(b, 4 + 8 * k), size: read_u32_at(b, 8 + 8 * k) }
}

impl Bsp {
    /// Wraps a BSP blob.
    pub fn new(data: Vec<u8>) -> (r: Bsp)
        ensures
            r@ == data@,
    {
        Bsp { data }
    }

    /// Decodes the header: the blob must hold all 124 header bytes, the
    /// version must be 29, every lump must lie inside the blob, and the
    /// planes, vertices, faces and edges lumps must hold whole records.
    pub fn read_header(&self) -> (r: Result<BspHeader, DecodeError>)
        ensures
            r == bsp_header(self@),
    {
        let b = self.data.as_slice();
        let len = b.len();
        if len < BSP_HEADER_SIZE {
            return Err(DecodeError::Truncated {
                offset: 0,
                len: BSP_HEADER_SIZE as u64,
                available: len as u64,
            });
        }
        let version = read_u32_at(b, 0);
        if version != BSP_VERSION {
            return Err(DecodeError::UnsupportedVersion);
        }
        let mut k: usize = 0;
        while k < LUMP_COUNT
            invariant
                k <= LUMP_COUNT,
                b@ == self@,
                len == b@.len(),
                BSP_HEADER_SIZE <= len,
                version as int == le_u32(b@, 0),
                version == BSP_VERSION,
                forall|j: int| 0 <= j < k ==> entry_fits(#[trigger] entry_at(b@, j), len as int),
            decreases LUMP_COUNT - k,
        {
            let e = read_entry(b, k);
            if e.offset as u64 + e.size as u64 > len as u64 {
                assert(!entry_fits(entry_at(b@, k as int), len as int));
                return Err(DecodeError::CorruptOffset);
            }
            k = k + 1;
        }
        let h = BspHeader {
            version,
            entities: read_entry(b, 0),
            planes: read_entry(b, 1),
            miptex: read_entry(b, 2),
            vertices: read_entry(b, 3),
            visilist: read_entry(b, 4),
            nodes: read_entry(b, 5),
            texinfo: read_entry(b, 6),
            faces: read_entry(b, 7),
            lightmaps: read_entry(b, 8),
            clipnodes: read_entry(b, 9),
            leaves: read_entry(b, 10),
            lfaces: read_entry(b, 11),
            edges: read_entry(b, 12),
            ledges: read_entry(b, 13),
            models: read_entry(b, 14),
        };
        assert(h == header_at(b@));
        check_lump(h.planes, PLANE_SIZE, len)?;
        check_lump(h.vertices, VERTEX_SIZE, len)?;
        check_lump(h.faces, FACE_SIZE, len)?;
        check_lump(h.edges, EDGE_SIZE, len)?;
        Ok(h)
    }
}


/// Every lump of a decoded header lies inside the blob, and the planes,
/// vertices, faces and edges lumps hold whole records of their widths.
pub proof fn lemma_header_lumps_fit(b: Seq<u8>)
    requires
        bsp_header(b) is Ok,
    ensures
        ({
            let h = bsp_header(b)->Ok_0;
            &&& forall|k: int| 0 <= k < LUMP_COUNT ==> entry_fits(#[trigger] h.entries()[k], b.len() as int)
            &&& h.vertices.size % VERTEX_SIZE == 0
            &&& h.edges.size % EDGE_SIZE == 0
            &&& h.faces.size % FACE_SIZE == 0
            &&& h.planes.size % PLANE_SIZE == 0
        }),
{
    let h = bsp_header(b)->Ok_0;
    assert(h == header_at(b));
    assert forall|k: int| 0 <= k < LUMP_COUNT implies entry_fits(#[trigger] h.entries()[k], b.len() as int) by {
        assert(h.entries()[k] == entry_at(b, k));
    }
}

/// Every edge decoded from a blob indexes a vertex decoded from the same
/// blob and header.
pub proof fn lemma_edges_index_vertices(b: Seq<u8>, h: BspHeader)
    requires
        edges_of(b, h) is Ok,
        vertices_of(b, h) is Ok,
    ensures
        forall|i: int|
            0 <= i < edges_of(b, h)->Ok_0.len() ==> {
                let e = #[trigger] edges_of(b, h)->Ok_0[i];
                &&& e.start_vertex < vertices_of(b, h)->Ok_0.len()
                &&& e.end_vertex < vertices_of(b, h)->Ok_0.len()
            },
{
    let s = edges_of(b, h)->Ok_0;
    assert(vertices_of(b, h)->Ok_0.len() == vertex_count(h));
    assert forall|i: int| 0 <= i < s.len() implies edge_in_range(#[trigger] s[i], vertex_count(h)) by {}
}

/// `b1` and `b2` hold the same bytes inside the window of `e`.
pub open spec fn same_window(b1: Seq<u8>, b2: Seq<u8>, e: BspEntry) -> bool {
    forall|k: int| e.offset <= k < e.offset + e.size && k < b1.len() ==> b1[k] == b2[k]
}

/// Decoding a lump reads only the blob's length and the bytes inside the
/// lump's window, and for edges the size of the vertices lump. Decoding the
/// same lump of the same blob twice therefore yields identical sequences.
pub proof fn lemma_lump_decoding_reads_window(b1: Seq<u8>, b2: Seq<u8>, h: BspHeader)
    requires
        b1.len() == b2.len(),
    ensures
        same_window(b1, b2, h.vertices) ==> vertices_of(b1, h) == vertices_of(b2, h),
        same_window(b1, b2, h.edges) ==> edges_of(b1, h) == edges_of(b2, h),
        same_window(b1, b2, h.faces) ==> faces_of(b1, h) == faces_of(b2, h),
        same_window(b1, b2, h.planes) ==> planes_of(b1, h) == planes_of(b2, h),
{
    let len = b1.len() as int;
    if same_window(b1, b2, h.vertices) && lump_window(h.vertices, VERTEX_SIZE as int, len) is Ok {
        let e = h.vertices;
        let n = (e.size / VERTEX_SIZE) as nat;
        let s1 = Seq::new(n, |i: int| vertex_at(b1, e.offset + VERTEX_SIZE * i));
        let s2 = Seq::new(n, |i: int| vertex_at(b2, e.offset + VERTEX_SIZE * i));
        assert forall|i: int| 0 <= i < n implies s1[i] == s2[i] by {
            lemma_record_inside(i, e.size as int, VERTEX_SIZE as int);
            let p = e.offset + VERTEX_SIZE * i;
            assert(b1[p] == b2[p] && b1[p + 1] == b2[p + 1] && b1[p + 2] == b2[p + 2] && b1[p + 3] == b2[p + 3]);
            assert(b1[p + 4] == b2[p + 4] && b1[p + 5] == b2[p + 5] && b1[p + 6] == b2[p + 6] && b1[p + 7] == b2[p + 7]);
            assert(b1[p + 8] == b2[p + 8] && b1[p + 9] == b2[p + 9] && b1[p + 10] == b2[p + 10] && b1[p + 11] == b2[p + 11]);
        }
        assert(s1 =~= s2);
    }
    if same_window(b1, b2, h.edges) && lump_window(h.edges, EDGE_SIZE as int, len) is Ok {
        let e = h.edges;
        let n = (e.size / EDGE_SIZE) as nat;
        let s1 = Seq::new(n, |i: int| edge_at(b1, e.offset + EDGE_SIZE * i));
        let s2 = Seq::new(n, |i: int| edge_at(b2, e.offset + EDGE_SIZE * i));
        assert forall|i: int| 0 <= i < n implies s1[i] == s2[i] by {
            lemma_record_inside(i, e.size as int, EDGE_SIZE as int);
            let p = e.offset + EDGE_SIZE * i;
            assert(b1[p] == b2[p] && b1[p + 1] == b2[p + 1] && b1[p + 2] == b2[p + 2] && b1[p + 3] == b2[p + 3]);
        }
        assert(s1 =~= s2);
    }
    if same_window(b1, b2, h.faces) && lump_window(h.faces, FACE_SIZE as int, len) is Ok {
        let e = h.faces;
        let n = (e.size / FACE_SIZE) as nat;
        let s1 = Seq::new(n, |i: int| face_at(b1, e.offset + FACE_SIZE * i));
        let s2 = Seq::new(n, |i: int| face_at(b2, e.offset + FACE_SIZE * i));
        assert forall|i: int| 0 <= i < n implies s1[i] == s2[i] by {
            lemma_record_inside(i, e.size as int, FACE_SIZE as int);
            let p = e.offset + FACE_SIZE * i;
            assert(b1[p] == b2[p] && b1[p + 1] == b2[p + 1] && b1[p + 2] == b2[p + 2] && b1[p + 3] == b2[p + 3]);
            assert(b1[p + 4] == b2[p + 4] && b1[p + 5] == b2[p + 5] && b1[p + 6] == b2[p + 6] && b1[p + 7] == b2[p + 7]);
            assert(b1[p + 8] == b2[p + 8] && b1[p + 9] == b2[p + 9] && b1[p + 10] == b2[p + 10] && b1[p + 11] == b2[p + 11]);
            assert(b1[p + 12] == b2[p + 12] && b1[p + 13] == b2[p + 13] && b1[p + 14] == b2[p + 14] && b1[p + 15] == b2[p + 15]);
            assert(b1[p + 16] == b2[p + 16] && b1[p + 17] == b2[p + 17] && b1[p + 18] == b2[p + 18] && b1[p + 19] == b2[p + 19]);
        }
        assert(s1 =~= s2);
    }
    if same_window(b1, b2, h.planes) && lump_window(h.planes, PLANE_SIZE as int, len) is Ok {
        let e = h.planes;
        let n = (e.size / PLANE_SIZE) as nat;
        let s1 = Seq::new(n, |i: int| plane_at(b1, e.offset + PLANE_SIZE * i));
        let s2 = Seq::new(n, |i: int| plane_at(b2, e.offset + PLANE_SIZE * i));
        assert forall|i: int| 0 <= i < n implies s1[i] == s2[i] by {
            lemma_record_inside(i, e.size as int, PLANE_SIZE as int);
            let p = e.offset + PLANE_SIZE * i;
            assert(b1[p] == b2[p] && b1[p + 1] == b2[p + 1] && b1[p + 2] == b2[p + 2] && b1[p + 3] == b2[p + 3]);
            assert(b1[p + 4] == b2[p + 4] && b1[p + 5] == b2[p + 5] && b1[p + 6] == b2[p + 6] && b1[p + 7] == b2[p + 7]);
            assert(b1[p + 8] == b2[p + 8] && b1[p + 9] == b2[p + 9] && b1[p + 10] == b2[p + 10] && b1[p + 11] == b2[p + 11]);
            assert(b1[p + 12] == b2[p + 12] && b1[p + 13] == b2[p + 13] && b1[p + 14] == b2[p + 14] && b1[p + 15] == b2[p + 15]);
            assert(b1[p + 16] == b2[p + 16] && b1[p + 17] == b2[p + 17] && b1[p + 18] == b2[p + 18] && b1[p + 19] == b2[p + 19]);
        }
        assert(s1 =~= s2);
    }
}

} // verus!
