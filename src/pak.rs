use vstd::prelude::*;

use crate::error::{truncated, DecodeError};
use crate::names::{is_first_nonzero, is_last_nonzero, name_field, nul_trimmed, read_name, utf8_lossy};
use crate::reader::{le_u32, read_u32_at};

verus! {

/// Size in bytes of the PAK header: magic, directory offset, directory size.
pub const PAK_HEADER_SIZE: usize = 12;

/// Size in bytes of one directory record.
pub const PAK_RECORD_SIZE: u32 = 64;

/// Size in bytes of the NUL-padded name at the start of a record.
pub const PAK_NAME_SIZE: usize = 56;

/// A PAK archive blob.
pub struct Pak {
    pub data: Vec<u8>,
}

/// The PAK header.
pub struct PakHeader {
    pub id: String,
    pub dir_offset: u32,
    pub dir_size: u32,
}

/// A directory record: a file's name and its byte range in the archive.
pub struct PakFile {
    pub name: String,
    pub file_offset: u32,
    pub file_size: u32,
}

/// A directory record as name, offset and size.
pub type PakRecord = (Seq<char>, u32, u32);

impl View for PakFile {
    type V = PakRecord;

    open spec fn view(&self) -> PakRecord {
        (self.name@, self.file_offset, self.file_size)
    }
}

/// `b` starts with the four bytes `PACK`.
pub open spec fn has_pack_magic(b: Seq<u8>) -> bool {
    b[0] == 0x50 && b[1] == 0x41 && b[2] == 0x43 && b[3] == 0x4B
}

/// The outcome of decoding the header of `b`: the directory's offset and size.
pub open spec fn pak_header(b: Seq<u8>) -> Result<(u32, u32), DecodeError> {
    let len = b.len() as int;
    if len < 4 {
        Err(truncated(0, 4, len))
    } else if !has_pack_magic(b) {
        Err(DecodeError::BadMagic)
    } else if len < PAK_HEADER_SIZE {
        Err(truncated(4, 8, len))
    } else {
        Ok((le_u32(b, 4) as u32, le_u32(b, 8) as u32))
    }
}

/// The directory record stored at `b[p..p + 64]`.
pub open spec fn pak_record(b: Seq<u8>, p: int) -> PakRecord {
    (name_field(b, p, PAK_NAME_SIZE as int), le_u32(b, p + 56) as u32, le_u32(b, p + 60) as u32)
}

/// The record's file lies inside a blob of `len` bytes.
pub open spec fn record_fits(r: PakRecord, len: int) -> bool {
    r.1 + r.2 <= len
}

/// The outcome of decoding the directory of `b`: `dir_size / 64` records
/// from `dir_offset`. The directory window and every record's file must lie
/// inside the blob.
pub open spec fn pak_directory(b: Seq<u8>) -> Result<Seq<PakRecord>, DecodeError> {
    match pak_header(b) {
        Err(e) => Err(e),
        Ok((off, size)) => {
            if off + size > b.len() {
                Err(DecodeError::CorruptOffset)
            } else {
                let d = Seq::new(
                    (size / PAK_RECORD_SIZE) as nat,
                    |i: int| pak_record(b, off + PAK_RECORD_SIZE * i),
                );
                if forall|i: int| 0 <= i < d.len() ==> record_fits(#[trigger] d[i], b.len() as int) {
                    Ok(d)
                } else {
                    Err(DecodeError::CorruptOffset)
                }
            }
        },
    }
}

/// `j` is the first record of `d` named `path`.
pub open spec fn is_first_named(d: Seq<PakRecord>, path: Seq<char>, j: int) -> bool {
    &&& 0 <= j < d.len()
    &&& d[j].0 == path
    &&& forall|k: int| 0 <= k < j ==> d[k].0 != path
}

/// The bytes of the record's file.
pub open spec fn record_bytes(b: Seq<u8>, r: PakRecord) -> Seq<u8> {
    b.subrange(r.1 as int, r.1 + r.2)
}

/// The outcome of looking `path` up in the archive `b`: the bytes of the
/// first record with that exact name.
pub open spec fn pak_find(b: Seq<u8>, path: Seq<char>) -> Result<Seq<u8>, DecodeError> {
    match pak_directory(b) {
        Err(e) => Err(e),
        Ok(d) => {
            if exists|j: int| is_first_named(d, path, j) {
                Ok(record_bytes(b, d[choose|j: int| is_first_named(d, path, j)]))
            } else {
                Err(DecodeError::NotFound)
            }
        },
    }
}

/// A lookup yields the file of the first record with the requested name.
pub proof fn lemma_find_first(b: Seq<u8>, path: Seq<char>, d: Seq<PakRecord>, j: int)
    requires
        pak_directory(b) == Ok::<Seq<PakRecord>, DecodeError>(d),
        is_first_named(d, path, j),
    ensures
        pak_find(b, path) == Ok::<Seq<u8>, DecodeError>(record_bytes(b, d[j])),
        record_fits(d[j], b.len() as int),
{
    assert forall|x: int| is_first_named(d, path, x) implies x == j by {
        if x < j {
            assert(d[x].0 != path);
        }
        if x > j {
            assert(d[j].0 == path);
        }
    }
    assert(pak_directory(b) is Ok);
    assert(pak_directory(b)->Ok_0 == d);
    assert(exists|x: int| is_first_named(pak_directory(b)->Ok_0, path, x));
}

/// A record named `path` has a first record named `path` at or before it.
proof fn lemma_first_named_exists(d: Seq<PakRecord>, path: Seq<char>, i: int)
    requires
        0 <= i < d.len(),
        d[i].0 == path,
    ensures
        exists|j: int| 0 <= j <= i && is_first_named(d, path, j),
    decreases i,
{
    if forall|k: int| 0 <= k < i ==> d[k].0 != path {
        assert(is_first_named(d, path, i));
    } else {
        let k = choose|k: int| 0 <= k < i && d[k].0 == path;
        lemma_first_named_exists(d, path, k);
    }
}

/// Every record of a decoded directory is found by its name. The lookup
/// yields the file of the first record with that name, and that file lies
/// inside the blob; where no earlier record has the same name, it is the
/// record's own file. Every record's file lies inside the blob.
pub proof fn lemma_every_record_found(b: Seq<u8>, i: int)
    requires
        pak_directory(b) is Ok,
        0 <= i < pak_directory(b)->Ok_0.len(),
    ensures
        ({
            let d = pak_directory(b)->Ok_0;
            &&& exists|j: int|
                0 <= j <= i && is_first_named(d, d[i].0, j) && pak_find(b, d[i].0) == Ok::<
                    Seq<u8>,
                    DecodeError,
                >(record_bytes(b, d[j]))
            &&& d[i].1 + d[i].2 <= b.len()
            &&& (forall|k: int| 0 <= k < i ==> d[k].0 != d[i].0) ==> pak_find(b, d[i].0) == Ok::<
                Seq<u8>,
                DecodeError,
            >(record_bytes(b, d[i]))
        }),
{
    let d = pak_directory(b)->Ok_0;
    lemma_first_named_exists(d, d[i].0, i);
    let j = choose|j: int| 0 <= j <= i && is_first_named(d, d[i].0, j);
    lemma_find_first(b, d[i].0, d, j);
    assert(record_fits(d[i], b.len() as int));
    if forall|k: int| 0 <= k < i ==> d[k].0 != d[i].0 {
        assert(is_first_named(d, d[i].0, i));
        lemma_find_first(b, d[i].0, d, i);
    }
}

/// `v` as four bytes, least significant first.
pub open spec fn le_bytes(v: int) -> Seq<u8> {
    seq![
        (v % 256) as u8,
        (v / 256 % 256) as u8,
        (v / 256 / 256 % 256) as u8,
        (v / 256 / 256 / 256 % 256) as u8,
    ]
}

/// An archive holding one file: the header, a directory of one record right
/// after it, then the file's bytes.
pub open spec fn single_file_pak(name: Seq<u8>, payload: Seq<u8>) -> Seq<u8> {
    let header = seq![0x50u8, 0x41, 0x43, 0x4B] + le_bytes(12) + le_bytes(64);
    let record = name + Seq::new((56 - name.len()) as nat, |i: int| 0u8) + le_bytes(76) + le_bytes(
        payload.len() as int,
    );
    header + record + payload
}

proof fn lemma_le_bytes(v: int)
    requires
        0 <= v < 0x1_0000_0000,
    ensures
        le_u32(le_bytes(v), 0) == v,
{
    let q0 = v / 256;
    let q1 = q0 / 256;
    let q2 = q1 / 256;
    vstd::arithmetic::div_mod::lemma_fundamental_div_mod(v, 256);
    vstd::arithmetic::div_mod::lemma_fundamental_div_mod(q0, 256);
    vstd::arithmetic::div_mod::lemma_fundamental_div_mod(q1, 256);
    vstd::arithmetic::div_mod::lemma_mod_pos_bound(v, 256);
    vstd::arithmetic::div_mod::lemma_mod_pos_bound(q0, 256);
    vstd::arithmetic::div_mod::lemma_mod_pos_bound(q1, 256);
    vstd::arithmetic::div_mod::lemma_div_pos_is_pos(v, 256);
    vstd::arithmetic::div_mod::lemma_div_pos_is_pos(q0, 256);
    vstd::arithmetic::div_mod::lemma_div_pos_is_pos(q1, 256);
    vstd::arithmetic::div_mod::lemma_small_mod(q2 as nat, 256);
}

proof fn lemma_le_u32_window(b: Seq<u8>, p: int, w: Seq<u8>)
    requires
        0 <= p,
        p + 4 <= b.len(),
        b.subrange(p, p + 4) == w,
    ensures
        le_u32(b, p) == le_u32(w, 0),
{
    assert(b[p] == w[0] && b[p + 1] == w[1] && b[p + 2] == w[2] && b[p + 3] == w[3]);
}

/// A name without NUL bytes at either end, padded with NUL bytes, trims back
/// to itself.
proof fn lemma_trim_padded(name: Seq<u8>, width: int)
    requires
        name.len() <= width,
        name.len() > 0 ==> name[0] != 0 && name.last() != 0,
    ensures
        nul_trimmed(name + Seq::new((width - name.len()) as nat, |i: int| 0u8)) == name,
{
    let s = name + Seq::new((width - name.len()) as nat, |i: int| 0u8);
    if name.len() == 0 {
        assert forall|x: int| !is_first_nonzero(s, x) by {
            if 0 <= x < s.len() {
                assert(s[x] == 0u8);
            }
        }
        assert(nul_trimmed(s) =~= name);
    } else {
        let l = name.len() - 1;
        assert(is_first_nonzero(s, 0));
        assert(is_last_nonzero(s, l));
        assert forall|x: int| is_first_nonzero(s, x) implies x == 0 by {
            if x > 0 {
                assert(s[0] == 0);
            }
        }
        assert forall|x: int| is_last_nonzero(s, x) implies x == l by {
            if x < l {
                assert(s[l] == 0);
            }
            if x > l {
                assert(s[x] == 0u8);
            }
        }
        assert(nul_trimmed(s) =~= name);
    }
}

/// Encoding one file into an archive and looking its name up gives back the
/// file's bytes unchanged.
pub proof fn lemma_single_file_round_trip(name: Seq<u8>, payload: Seq<u8>)
    requires
        name.len() <= PAK_NAME_SIZE,
        name.len() > 0 ==> name[0] != 0 && name.last() != 0,
        76 + payload.len() <= u32::MAX,
    ensures
        pak_find(single_file_pak(name, payload), utf8_lossy(name)) == Ok::<Seq<u8>, DecodeError>(payload),
{
    let b = single_file_pak(name, payload);
    let n = payload.len() as int;
    let pad = Seq::new((56 - name.len()) as nat, |i: int| 0u8);
    assert(b.len() == 76 + n);
    assert(has_pack_magic(b));
    lemma_le_bytes(12);
    lemma_le_bytes(64);
    lemma_le_bytes(76);
    lemma_le_bytes(n);
    assert(b.subrange(4, 8) =~= le_bytes(12));
    assert(b.subrange(8, 12) =~= le_bytes(64));
    assert(b.subrange(68, 72) =~= le_bytes(76));
    assert(b.subrange(72, 76) =~= le_bytes(n));
    lemma_le_u32_window(b, 4, le_bytes(12));
    lemma_le_u32_window(b, 8, le_bytes(64));
    lemma_le_u32_window(b, 68, le_bytes(76));
    lemma_le_u32_window(b, 72, le_bytes(n));
    assert(pak_header(b) == Ok::<(u32, u32), DecodeError>((12u32, 64u32)));
    assert(b.subrange(12, 68) =~= name + pad);
    lemma_trim_padded(name, 56);
    let rec = pak_record(b, 12);
    assert(rec == (utf8_lossy(name), 76u32, n as u32));
    let d = Seq::new(1, |i: int| pak_record(b, 12 + PAK_RECORD_SIZE * i));
    assert(d[0] == rec);
    assert(pak_directory(b) == Ok::<Seq<PakRecord>, DecodeError>(d));
    assert(is_first_named(d, utf8_lossy(name), 0));
    lemma_find_first(b, utf8_lossy(name), d, 0);
    assert(record_bytes(b, d[0]) =~= payload);
}

impl Pak {
    /// Wraps an archive blob.
    pub fn new(data: Vec<u8>) -> (r: Pak)
        ensures
            r.data@ == data@,
    {
        Pak { data }
    }

    /// Decodes the header: the magic `PACK`, then the directory's offset and
    /// size.
    pub fn read_header(&self) -> (r: Result<PakHeader, DecodeError>)
        ensures
            match r {
                Ok(h) => pak_header(self.data@) == Ok::<(u32, u32), DecodeError>(
                    (h.dir_offset, h.dir_size),
                ) && h.id@ == "PACK"@,
                Err(e) => pak_header(self.data@) == Err::<(u32, u32), DecodeError>(e),
            },
    {
        let b = self.data.as_slice();
        let len = b.len();
        if len < 4 {
            return Err(DecodeError::Truncated { offset: 0, len: 4, available: len as u64 });
        }
        if !(b[0] == 0x50 && b[1] == 0x41 && b[2] == 0x43 && b[3] == 0x4B) {
            return Err(DecodeError::BadMagic);
        }
        if len < PAK_HEADER_SIZE {
            return Err(DecodeError::Truncated { offset: 4, len: 8, available: len as u64 });
        }
        let dir_offset = read_u32_at(b, 4);
        let dir_size = read_u32_at(b, 8);
        Ok(PakHeader { id: "PACK".to_owned(), dir_offset, dir_size })
    }

    /// Decodes the directory: `dir_size / 64` records of a 56-byte name and
    /// the file's offset and size. Fails with `CorruptOffset` where the
    /// directory or a record's file does not lie inside the blob.
    pub fn read_directory(&self) -> (r: Result<Vec<PakFile>, DecodeError>)
        ensures
            match r {
                Ok(v) => pak_directory(self.data@) == Ok::<Seq<PakRecord>, DecodeError>(
                    v@.map_values(|f: PakFile| f@),
                ),
                Err(e) => pak_directory(self.data@) == Err::<Seq<PakRecord>, DecodeError>(e),
            },
    {
        let header = self.read_header()?;
        let b = self.data.as_slice();
        let len = b.len();
        let off = header.dir_offset;
        let size = header.dir_size;
        if off as u64 + size as u64 > len as u64 {
            return Err(DecodeError::CorruptOffset);
        }
        let n = (size / PAK_RECORD_SIZE) as usize;
        let ghost want = Seq::new(n as nat, |i: int| pak_record(b@, off + PAK_RECORD_SIZE * i));
        let mut out: Vec<PakFile> = Vec::new();
        let mut i: usize = 0;
        while i < n
            invariant
                b@ == self.data@,
                len == b@.len(),
                pak_header(b@) == Ok::<(u32, u32), DecodeError>((off, size)),
                off + size <= len,
                n == size / PAK_RECORD_SIZE,
                want == Seq::new(n as nat, |i: int| pak_record(b@, off + PAK_RECORD_SIZE * i)),
                i <= n,
                out@.len() == i,
                out@.map_values(|f: PakFile| f@) == want.subrange(0, i as int),
                forall|k: int| 0 <= k < i ==> record_fits(#[trigger] want[k], len as int),
            decreases n - i,
        {
            proof {
                crate::bsp::lemma_record_inside(i as int, size as int, PAK_RECORD_SIZE as int);
            }
            let p = off as usize + 64 * i;
            let name = read_name(b, p, p + PAK_NAME_SIZE);
            let file_offset = read_u32_at(b, p + 56);
            let file_size = read_u32_at(b, p + 60);
            let f = PakFile { name, file_offset, file_size };
            assert(f@ == want[i as int]);
            if file_offset as u64 + file_size as u64 > len as u64 {
                assert(!record_fits(want[i as int], len as int));
                return Err(DecodeError::CorruptOffset);
            }
            let ghost before = out@;
            let ghost fv = f@;
            out.push(f);
            assert(out@ == before.push(f));
            i = i + 1;
            assert forall|k: int| 0 <= k < i implies #[trigger] out@[k]@ == want[k] by {
                if k < i - 1 {
                    assert(out@[k] == before[k]);
                    assert(before.map_values(|f: PakFile| f@)[k] == want.subrange(0, i - 1)[k]);
                }
            }
            assert(out@.map_values(|f: PakFile| f@) =~= want.subrange(0, i as int));
        }
        assert(out@.map_values(|f: PakFile| f@) =~= want);
        Ok(out)
    }

    /// Returns the bytes `[offset, offset + size)` of the first record whose
    /// name is exactly `path`, such as `"maps/e1m1.bsp"`.
    pub fn find_file(&self, path: &str) -> (r: Result<Vec<u8>, DecodeError>)
        ensures
            match r {
                Ok(v) => pak_find(self.data@, path@) == Ok::<Seq<u8>, DecodeError>(v@),
                Err(e) => pak_find(self.data@, path@) == Err::<Seq<u8>, DecodeError>(e),
            },
    {
        let dir = self.read_directory()?;
        let ghost d = dir@.map_values(|f: PakFile| f@);
        let wanted = path.to_owned();
        let len = self.data.len();
        let mut i: usize = 0;
        while i < dir.len()
            invariant
                pak_directory(self.data@) == Ok::<Seq<PakRecord>, DecodeError>(d),
                d == dir@.map_values(|f: PakFile| f@),
                wanted@ == path@,
                len == self.data@.len(),
                i <= dir@.len(),
                forall|k: int| 0 <= k < i ==> d[k].0 != path@,
            decreases dir@.len() - i,
        {
            if dir[i].name == wanted {
                let ghost j = i as int;
                assert(is_first_named(d, path@, j));
                proof {
                    lemma_find_first(self.data@, path@, d, j);
                }
                assert(d[j] == dir@[j]@);
                assert(record_fits(d[j], self.data@.len() as int));
                let start = dir[i].file_offset as usize;
                let end = start + dir[i].file_size as usize;
                let bytes = vstd::slice::slice_to_vec(&self.data.as_slice()[start..end]);
                assert(bytes@ == record_bytes(self.data@, d[j]));
                return Ok(bytes);
            }
            i = i + 1;
        }
        assert forall|x: int| !is_first_named(d, path@, x) by {
            if 0 <= x < d.len() {
                assert(d[x].0 != path@);
            }
        }
        Err(DecodeError::NotFound)
    }
}

} // verus!
