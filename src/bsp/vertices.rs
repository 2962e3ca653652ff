use vstd::prelude::*;

use super::{check_lump, lemma_record_inside, decoded_as, lump_window, Bsp, BspHeader, VERTEX_SIZE};
use crate::error::DecodeError;
use crate::vec3::{read_vec3_at, vec3_at, Vec3Bits};

verus! {

/// A map vertex; coordinates are IEEE-754 bit patterns in the map's own axes.
#[derive(Debug, Clone, Copy, PartialEq, Eq, Structural)]
pub struct Vertex {
    pub coordinates: Vec3Bits,
}

/// The vertex record stored at `b[p..p + 12]`.
pub open spec fn vertex_at(b: Seq<u8>, p: int) -> Vertex {
    Vertex { coordinates: vec3_at(b, p) }
}

/// The outcome of decoding the vertices lump of `h` in `b`.
pub open spec fn vertices_of(b: Seq<u8>, h: BspHeader) -> Result<Seq<Vertex>, DecodeError> {
    let e = h.vertices;
    match lump_window(e, VERTEX_SIZE as int, b.len() as int) {
        Err(err) => Err(err),
        Ok(_) => Ok(Seq::new((e.size / VERTEX_SIZE) as nat, |i: int| vertex_at(b, e.offset + VERTEX_SIZE * i))),
    }
}

impl Bsp {
    /// Decodes the vertices lump, one 12-byte record per vertex.
    pub fn read_vertices(&self, header: &BspHeader) -> (r: Result<Vec<Vertex>, DecodeError>)
        ensures
            decoded_as(r, vertices_of(self@, *header)),
    {
        let b = self.data.as_slice();
        let e = header.vertices;
        let len = b.len();
        check_lump(e, VERTEX_SIZE, len)?;
        let n = (e.size / VERTEX_SIZE) as usize;
        let start = e.offset as usize;
        let ghost want = Seq::new(n as nat, |i: int| vertex_at(b@, e.offset + VERTEX_SIZE * i));
        let mut out: Vec<Vertex> = Vec::new();
        let mut i: usize = 0;
        while i < n
            invariant
                b@ == self@,
                len == b@.len(),
                e == header.vertices,
                n == e.size / VERTEX_SIZE,
                e.size % VERTEX_SIZE == 0,
                start == e.offset,
                e.offset + e.size <= b@.len(),
                want == Seq::new(n as nat, |i: int| vertex_at(b@, e.offset + VERTEX_SIZE * i)),
                i <= n,
                out@ == want.subrange(0, i as int),
            decreases n - i,
        {
            proof {
                lemma_record_inside(i as int, e.size as int, VERTEX_SIZE as int);
            }
            let p = start + 12 * i;
            out.push(Vertex { coordinates: read_vec3_at(b, p) });
            i = i + 1;
            assert(out@ =~= want.subrange(0, i as int));
        }
        assert(out@ =~= want);
        Ok(out)
    }
}

} // verus!
