use vstd::prelude::*;

use super::{check_lump, decoded_as, lemma_record_inside, lump_window, Bsp, BspHeader, FACE_SIZE};
use crate::error::DecodeError;
use crate::reader::{le_u16, le_u32, read_u16_at, read_u32_at};

verus! {

/// A face record. `ledge_id .. ledge_id + ledge_num` indexes the ledge lump.
#[derive(Debug, Clone, Copy, PartialEq, Eq)]
pub struct Face {
    pub plane_id: u16,
    pub side: u16,
    pub ledge_id: u32,
    pub ledge_num: u16,
    pub texinfo_id: u16,
    pub typelight: u8,
    pub baselight: u8,
    pub light: [u8; 2],
    pub lightmap: u32,
}

/// The face record stored at `b[p..p + 20]`.
pub open spec fn face_at(b: Seq<u8>, p: int) -> Face {
    Face {
        plane_id: le_u16(b, p) as u16,
        side: le_u16(b, p + 2) as u16,
        ledge_id: le_u32(b, p + 4) as u32,
        ledge_num: le_u16(b, p + 8) as u16,
        texinfo_id: le_u16(b, p + 10) as u16,
        typelight: b[p + 12],
        baselight: b[p + 13],
        light: [b[p + 14], b[p + 15]],
        lightmap: le_u32(b, p + 16) as u32,
    }
}

/// The outcome of decoding the faces lump of `h` in `b`.
pub open spec fn faces_of(b: Seq<u8>, h: BspHeader) -> Result<Seq<Face>, DecodeError> {
    let e = h.faces;
    match lump_window(e, FACE_SIZE as int, b.len() as int) {
        Err(err) => Err(err),
        Ok(_) => Ok(Seq::new((e.size / FACE_SIZE) as nat, |i: int| face_at(b, e.offset + FACE_SIZE * i))),
    }
}

fn read_face(b: &[u8], p: usize) -> (r: Face)
    requires
        p + 20 <= b@.len(),
    ensures
        r == face_at(b@, p as int),
{
    let _len = b.len();
    Face {
        plane_id: read_u16_at(b, p),
        side: read_u16_at(b, p + 2),
        ledge_id: read_u32_at(b, p + 4),
        ledge_num: read_u16_at(b, p + 8),
        texinfo_id: read_u16_at(b, p + 10),
        typelight: b[p + 12],
        baselight: b[p + 13],
        light: [b[p + 14], b[p + 15]],
        lightmap: read_u32_at(b, p + 16),
    }
}

impl Bsp {
    /// Decodes the faces lump, one 20-byte record per face.
    pub fn read_faces(&self, header: &BspHeader) -> (r: Result<Vec<Face>, DecodeError>)
        ensures
            decoded_as(r, faces_of(self@, *header)),
    {
        let b = self.data.as_slice();
        let len = b.len();
        let e = header.faces;
        check_lump(e, FACE_SIZE, len)?;
        let n = (e.size / FACE_SIZE) as usize;
        let start = e.offset as usize;
        let ghost want = Seq::new(n as nat, |i: int| face_at(b@, e.offset + FACE_SIZE * i));
        let mut out: Vec<Face> = Vec::new();
        let mut i: usize = 0;
        while i < n
            invariant
                b@ == self@,
                len == b@.len(),
                e == header.faces,
                n == e.size / FACE_SIZE,
                e.size % FACE_SIZE == 0,
                start == e.offset,
                e.offset + e.size <= b@.len(),
                want == Seq::new(n as nat, |i: int| face_at(b@, e.offset + FACE_SIZE * i)),
                i <= n,
                out@ == want.subrange(0, i as int),
            decreases n - i,
        {
            proof {
                lemma_record_inside(i as int, e.size as int, FACE_SIZE as int);
            }
            out.push(read_face(b, start + 20 * i));
            i = i + 1;
            assert(out@ =~= want.subrange(0, i as int));
        }
        assert(out@ =~= want);
        Ok(out)
    }
}

} // verus!
