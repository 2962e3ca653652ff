use vstd::prelude::*;

use super::{check_lump, decoded_as, lemma_record_inside, lump_window, Bsp, BspHeader, EDGE_SIZE, VERTEX_SIZE};
use crate::error::DecodeError;
use crate::reader::{le_u16, read_u16_at};

verus! {

/// An edge: indices of its two end vertices in the vertices lump.
#[derive(Debug, Clone, Copy, PartialEq, Eq, Structural)]
pub struct Edge {
    pub start_vertex: u16,
    pub end_vertex: u16,
}

/// The edge record stored at `b[p..p + 4]`.
pub open spec fn edge_at(b: Seq<u8>, p: int) -> Edge {
    Edge { start_vertex: le_u16(b, p) as u16, end_vertex: le_u16(b, p + 2) as u16 }
}

/// Whether both ends of `e` index one of `n` vertices.
pub open spec fn edge_in_range(e: Edge, n: int) -> bool {
    e.start_vertex < n && e.end_vertex < n
}

/// The number of whole vertex records in the vertices lump of `h`.
pub open spec fn vertex_count(h: BspHeader) -> int {
    (h.vertices.size / VERTEX_SIZE) as int
}

/// The outcome of decoding the edges lump of `h` in `b`: every edge must
/// index a vertex of the vertices lump.
pub open spec fn edges_of(b: Seq<u8>, h: BspHeader) -> Result<Seq<Edge>, DecodeError> {
    let e = h.edges;
    match lump_window(e, EDGE_SIZE as int, b.len() as int) {
        Err(err) => Err(err),
        Ok(_) => {
            let s = Seq::new((e.size / EDGE_SIZE) as nat, |i: int| edge_at(b, e.offset + EDGE_SIZE * i));
            if forall|i: int| 0 <= i < s.len() ==> edge_in_range(#[trigger] s[i], vertex_count(h)) {
                Ok(s)
            } else {
                Err(DecodeError::CorruptOffset)
            }
        },
    }
}

impl Bsp {
    /// Decodes the edges lump, one 4-byte record per edge. An edge whose
    /// vertex index is not below the number of records of the vertices lump
    /// fails the decoding with `CorruptOffset`.
    pub fn read_edges(&self, header: &BspHeader) -> (r: Result<Vec<Edge>, DecodeError>)
        ensures
            decoded_as(r, edges_of(self@, *header)),
            r matches Ok(v) ==> forall|i: int| 0 <= i < v@.len() ==> edge_in_range(#[trigger] v@[i], vertex_count(*header)),
    {
        let b = self.data.as_slice();
        let len = b.len();
        let e = header.edges;
        check_lump(e, EDGE_SIZE, len)?;
        let nv = header.vertices.size / VERTEX_SIZE;
        let n = (e.size / EDGE_SIZE) as usize;
        let start = e.offset as usize;
        let ghost want = Seq::new(n as nat, |i: int| edge_at(b@, e.offset + EDGE_SIZE * i));
        let mut out: Vec<Edge> = Vec::new();
        let mut i: usize = 0;
        while i < n
            invariant
                b@ == self@,
                len == b@.len(),
                e == header.edges,
                nv == vertex_count(*header),
                n == e.size / EDGE_SIZE,
                e.size % EDGE_SIZE == 0,
                start == e.offset,
                e.offset + e.size <= b@.len(),
                want == Seq::new(n as nat, |i: int| edge_at(b@, e.offset + EDGE_SIZE * i)),
                i <= n,
                out@ == want.subrange(0, i as int),
                forall|k: int| 0 <= k < i ==> edge_in_range(#[trigger] want[k], nv as int),
            decreases n - i,
        {
            proof {
                lemma_record_inside(i as int, e.size as int, EDGE_SIZE as int);
            }
            let p = start + 4 * i;
            let edge = Edge { start_vertex: read_u16_at(b, p), end_vertex: read_u16_at(b, p + 2) };
            assert(edge == want[i as int]);
            if edge.start_vertex as u32 >= nv || edge.end_vertex as u32 >= nv {
                assert(!edge_in_range(want[i as int], vertex_count(*header)));
                return Err(DecodeError::CorruptOffset);
            }
            out.push(edge);
            i = i + 1;
            assert(out@ =~= want.subrange(0, i as int));
        }
        assert(out@ =~= want);
        Ok(out)
    }
}

} // verus!
