use vstd::prelude::*;

use crate::error::{truncated, DecodeError};
use crate::names::{lossy_string, name_field, read_name, utf8_lossy};
use crate::reader::{le_u16, le_u32, read_u16_at, read_u32_at};

verus! {

/// Size in bytes of the WAD2 header: name, entry count, directory offset.
pub const WAD_HEADER_SIZE: usize = 12;

/// Size in bytes of one directory record.
pub const WAD_RECORD_SIZE: usize = 32;

/// Size in bytes of the NUL-padded name at the end of a record.
pub const WAD_NAME_SIZE: usize = 16;

/// A WAD2 texture archive blob.
pub struct Wad {
    pub data: Vec<u8>,
}

/// The WAD2 header.
pub struct WadHeader {
    pub name: String,
    pub numentries: u32,
    pub diroffset: u32,
}

/// A directory record of a WAD2 archive.
pub struct WadAsset {
    pub offset: u32,
    /// Size of the entry in the archive.
    pub dsize: u32,
    /// Size of the entry in memory.
    pub size: u32,
    /// `@` raw bytes, `B` status bar picture, `D` mip texture.
    pub entry_type: char,
    /// 0 where the entry is not compressed.
    pub compression: char,
    pub dummy: u16,
    pub name: String,
}

/// A directory record as name, offset, archive size, memory size, type,
/// compression and the unused word.
pub type WadRecord = (Seq<char>, u32, u32, u32, char, char, u16);

impl View for WadAsset {
    type V = WadRecord;

    open spec fn view(&self) -> WadRecord {
        (self.name@, self.offset, self.dsize, self.size, self.entry_type, self.compression, self.dummy)
    }
}

/// The outcome of decoding the header of `b`: the entry count and the
/// directory offset. The name is not checked.
pub open spec fn wad_header(b: Seq<u8>) -> Result<(u32, u32), DecodeError> {
    if b.len() < WAD_HEADER_SIZE {
        Err(truncated(0, WAD_HEADER_SIZE as int, b.len() as int))
    } else {
        Ok((le_u32(b, 4) as u32, le_u32(b, 8) as u32))
    }
}

/// The directory record stored at `b[p..p + 32]`.
pub open spec fn wad_record(b: Seq<u8>, p: int) -> WadRecord {
    (
        name_field(b, p + 16, WAD_NAME_SIZE as int),
        le_u32(b, p) as u32,
        le_u32(b, p + 4) as u32,
        le_u32(b, p + 8) as u32,
        b[p + 12] as char,
        b[p + 13] as char,
        le_u16(b, p + 14) as u16,
    )
}

/// The record's entry lies inside a blob of `len` bytes.
pub open spec fn wad_record_fits(r: WadRecord, len: int) -> bool {
    r.1 + r.2 <= len
}

/// The outcome of decoding the directory of `b`: `numentries` records from
/// `diroffset`. The directory and every record's entry must lie inside the
/// blob.
pub open spec fn wad_directory(b: Seq<u8>) -> Result<Seq<WadRecord>, DecodeError> {
    match wad_header(b) {
        Err(e) => Err(e),
        Ok((n, off)) => {
            if off + WAD_RECORD_SIZE * n > b.len() {
                Err(DecodeError::CorruptOffset)
            } else {
                let d = Seq::new(n as nat, |i: int| wad_record(b, off + WAD_RECORD_SIZE * i));
                if forall|i: int| 0 <= i < d.len() ==> wad_record_fits(#[trigger] d[i], b.len() as int) {
                    Ok(d)
                } else {
                    Err(DecodeError::CorruptOffset)
                }
            }
        },
    }
}

/// `j` is the first record of `d` named `path`.
pub open spec fn is_first_wad_named(d: Seq<WadRecord>, path: Seq<char>, j: int) -> bool {
    &&& 0 <= j < d.len()
    &&& d[j].0 == path
    &&& forall|k: int| 0 <= k < j ==> d[k].0 != path
}

/// The outcome of looking `path` up in the archive `b`: the stored bytes of
/// the first record with that exact name.
pub open spec fn wad_find(b: Seq<u8>, path: Seq<char>) -> Result<Seq<u8>, DecodeError> {
    match wad_directory(b) {
        Err(e) => Err(e),
        Ok(d) => {
            if exists|j: int| is_first_wad_named(d, path, j) {
                let r = d[choose|j: int| is_first_wad_named(d, path, j)];
                Ok(b.subrange(r.1 as int, r.1 + r.2))
            } else {
                Err(DecodeError::NotFound)
            }
        },
    }
}

proof fn lemma_wad_find_first(b: Seq<u8>, path: Seq<char>, d: Seq<WadRecord>, j: int)
    requires
        wad_directory(b) == Ok::<Seq<WadRecord>, DecodeError>(d),
        is_first_wad_named(d, path, j),
    ensures
        wad_find(b, path) == Ok::<Seq<u8>, DecodeError>(b.subrange(d[j].1 as int, d[j].1 + d[j].2)),
        wad_record_fits(d[j], b.len() as int),
{
    assert forall|x: int| is_first_wad_named(d, path, x) implies x == j by {
        if x < j {
            assert(d[x].0 != path);
        }
        if x > j {
            assert(d[j].0 == path);
        }
    }
    assert(wad_directory(b) is Ok);
    assert(wad_directory(b)->Ok_0 == d);
    assert(exists|x: int| is_first_wad_named(wad_directory(b)->Ok_0, path, x));
}

impl Wad {
    /// Wraps an archive blob.
    pub fn new(data: Vec<u8>) -> (r: Wad)
        ensures
            r.data@ == data@,
    {
        Wad { data }
    }

    /// Decodes the header: a four-byte name, the entry count and the
    /// directory offset.
    pub fn read_header(&self) -> (r: Result<WadHeader, DecodeError>)
        ensures
            match r {
                Ok(h) => wad_header(self.data@) == Ok::<(u32, u32), DecodeError>(
                    (h.numentries, h.diroffset),
                ) && h.name@ == utf8_lossy(self.data@.subrange(0, 4)),
                Err(e) => wad_header(self.data@) == Err::<(u32, u32), DecodeError>(e),
            },
    {
        let b = self.data.as_slice();
        let len = b.len();
        if len < WAD_HEADER_SIZE {
            return Err(DecodeError::Truncated {
                offset: 0,
                len: WAD_HEADER_SIZE as u64,
                available: len as u64,
            });
        }
        let name = lossy_string(b, 0, 4);
        let numentries = read_u32_at(b, 4);
        let diroffset = read_u32_at(b, 8);
        Ok(WadHeader { name, numentries, diroffset })
    }

    /// Decodes the directory: `numentries` records of 32 bytes. Fails with
    /// `CorruptOffset` where the directory or a record's entry does not lie
    /// inside the blob.
    pub fn read_directory(&self) -> (r: Result<Vec<WadAsset>, DecodeError>)
        ensures
            match r {
                Ok(v) => wad_directory(self.data@) == Ok::<Seq<WadRecord>, DecodeError>(
                    v@.map_values(|a: WadAsset| a@),
                ),
                Err(e) => wad_directory(self.data@) == Err::<Seq<WadRecord>, DecodeError>(e),
            },
    {
        let header = self.read_header()?;
        let b = self.data.as_slice();
        let len = b.len();
        let n = header.numentries;
        let off = header.diroffset;
        if off as u64 + 32 * (n as u64) > len as u64 {
            return Err(DecodeError::CorruptOffset);
        }
        let ghost want = Seq::new(n as nat, |i: int| wad_record(b@, off + WAD_RECORD_SIZE * i));
        let mut out: Vec<WadAsset> = Vec::new();
        let mut i: usize = 0;
        while i < n as usize
            invariant
                b@ == self.data@,
                len == b@.len(),
                wad_header(b@) == Ok::<(u32, u32), DecodeError>((n, off)),
                off + WAD_RECORD_SIZE * n <= len,
                want == Seq::new(n as nat, |i: int| wad_record(b@, off + WAD_RECORD_SIZE * i)),
                i <= n,
                out@.len() == i,
                out@.map_values(|a: WadAsset| a@) == want.subrange(0, i as int),
                forall|k: int| 0 <= k < i ==> wad_record_fits(#[trigger] want[k], len as int),
            decreases n - i,
        {
            let p = off as usize + 32 * i;
            let a = WadAsset {
                offset: read_u32_at(b, p),
                dsize: read_u32_at(b, p + 4),
                size: read_u32_at(b, p + 8),
                entry_type: b[p + 12] as char,
                compression: b[p + 13] as char,
                dummy: read_u16_at(b, p + 14),
                name: read_name(b, p + 16, p + 32),
            };
            assert(a@ == want[i as int]);
            if a.offset as u64 + a.dsize as u64 > len as u64 {
                assert(!wad_record_fits(want[i as int], len as int));
                return Err(DecodeError::CorruptOffset);
            }
            let ghost before = out@;
            out.push(a);
            assert(out@ == before.push(a));
            i = i + 1;
            assert forall|k: int| 0 <= k < i implies #[trigger] out@[k]@ == want[k] by {
                if k < i - 1 {
                    assert(out@[k] == before[k]);
                    assert(before.map_values(|a: WadAsset| a@)[k] == want.subrange(0, i - 1)[k]);
                }
            }
            assert(out@.map_values(|a: WadAsset| a@) =~= want.subrange(0, i as int));
        }
        assert(out@.map_values(|a: WadAsset| a@) =~= want);
        Ok(out)
    }

    /// Returns the stored bytes `[offset, offset + dsize)` of the first
    /// record whose name is exactly `path`.
    pub fn find_file(&self, path: &str) -> (r: Result<Vec<u8>, DecodeError>)
        ensures
            match r {
                Ok(v) => wad_find(self.data@, path@) == Ok::<Seq<u8>, DecodeError>(v@),
                Err(e) => wad_find(self.data@, path@) == Err::<Seq<u8>, DecodeError>(e),
            },
    {
        let dir = self.read_directory()?;
        let ghost d = dir@.map_values(|a: WadAsset| a@);
        let wanted = path.to_owned();
        let len = self.data.len();
        let mut i: usize = 0;
        while i < dir.len()
            invariant
                wad_directory(self.data@) == Ok::<Seq<WadRecord>, DecodeError>(d),
                d == dir@.map_values(|a: WadAsset| a@),
                wanted@ == path@,
                len == self.data@.len(),
                i <= dir@.len(),
                forall|k: int| 0 <= k < i ==> d[k].0 != path@,
            decreases dir@.len() - i,
        {
            if dir[i].name == wanted {
                let ghost j = i as int;
                assert(is_first_wad_named(d, path@, j));
                proof {
                    lemma_wad_find_first(self.data@, path@, d, j);
                }
                assert(d[j] == dir@[j]@);
                let start = dir[i].offset as usize;
                let end = start + dir[i].dsize as usize;
                let bytes = vstd::slice::slice_to_vec(&self.data.as_slice()[start..end]);
                return Ok(bytes);
            }
            i = i + 1;
        }
        assert forall|x: int| !is_first_wad_named(d, path@, x) by {
            if 0 <= x < d.len() {
                assert(d[x].0 != path@);
            }
        }
        Err(DecodeError::NotFound)
    }
}

} // verus!
