use vstd::prelude::*;

use super::{check_lump, decoded_as, lemma_record_inside, lump_window, Bsp, BspHeader, PLANE_SIZE};
use crate::error::DecodeError;
use crate::reader::{le_u32, read_u32_at};
use crate::vec3::{read_vec3_at, vec3_at, Vec3Bits};

verus! {

/// A splitting plane; `normal` and `dist` are IEEE-754 bit patterns.
#[derive(Debug, Clone, Copy, PartialEq, Eq, Structural)]
pub struct Plane {
    pub normal: Vec3Bits,
    pub dist: u32,
    pub plane_type: u32,
}

/// The plane record stored at `b[p..p + 20]`.
pub open spec fn plane_at(b: Seq<u8>, p: int) -> Plane {
    Plane { normal: vec3_at(b, p), dist: le_u32(b, p + 12) as u32, plane_type: le_u32(b, p + 16) as u32 }
}

/// The outcome of decoding the planes lump of `h` in `b`.
pub open spec fn planes_of(b: Seq<u8>, h: BspHeader) -> Result<Seq<Plane>, DecodeError> {
    let e = h.planes;
    match lump_window(e, PLANE_SIZE as int, b.len() as int) {
        Err(err) => Err(err),
        Ok(_) => Ok(Seq::new((e.size / PLANE_SIZE) as nat, |i: int| plane_at(b, e.offset + PLANE_SIZE * i))),
    }
}

impl Bsp {
    /// Decodes the planes lump, one 20-byte record per plane.
    pub fn read_planes(&self, header: &BspHeader) -> (r: Result<Vec<Plane>, DecodeError>)
        ensures
            decoded_as(r, planes_of(self@, *header)),
    {
        let b = self.data.as_slice();
        let len = b.len();
        let e = header.planes;
        check_lump(e, PLANE_SIZE, len)?;
        let n = (e.size / PLANE_SIZE) as usize;
        let start = e.offset as usize;
        let ghost want = Seq::new(n as nat, |i: int| plane_at(b@, e.offset + PLANE_SIZE * i));
        let mut out: Vec<Plane> = Vec::new();
        let mut i: usize = 0;
        while i < n
            invariant
                b@ == self@,
                len == b@.len(),
                e == header.planes,
                n == e.size / PLANE_SIZE,
                e.size % PLANE_SIZE == 0,
                start == e.offset,
                e.offset + e.size <= b@.len(),
                want == Seq::new(n as nat, |i: int| plane_at(b@, e.offset + PLANE_SIZE * i)),
                i <= n,
                out@ == want.subrange(0, i as int),
            decreases n - i,
        {
            proof {
                lemma_record_inside(i as int, e.size as int, PLANE_SIZE as int);
            }
            let p = start + 20 * i;
            out.push(Plane {
                normal: read_vec3_at(b, p),
                dist: read_u32_at(b, p + 12),
                plane_type: read_u32_at(b, p + 16),
            });
            i = i + 1;
            assert(out@ =~= want.subrange(0, i as int));
        }
        assert(out@ =~= want);
        Ok(out)
    }
}

} // verus!
