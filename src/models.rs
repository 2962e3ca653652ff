use vstd::prelude::*;

use crate::error::{truncated, DecodeError};
use crate::reader::{le_u32, ByteReader};
use crate::vec3::{vec3_at, Vec3Bits};

verus! {

/// `IDPO` read as a little-endian word.
pub const MDL_IDENT: u32 = 0x4F50_4449;

/// The only model version this decoder reads.
pub const MDL_VERSION: u32 = 6;

/// Size in bytes of the MDL header.
pub const MDL_HEADER_SIZE: usize = 84;

/// The header of an MDL v6 model. Float fields hold IEEE-754 bit patterns.
#[derive(Debug, Clone, Copy, PartialEq, Eq, Structural)]
pub struct ModelHeader {
    pub ident: u32,
    pub version: u32,
    pub scale: Vec3Bits,
    pub scale_origin: Vec3Bits,
    pub boundingradius: u32,
    pub eyeposition: Vec3Bits,
    pub numskins: u32,
    pub skinwidth: u32,
    pub skinheight: u32,
    pub numverts: u32,
    pub numtriangles: u32,
    pub numframes: u32,
    pub synctype: u32,
    pub flags: u32,
    pub size: u32,
}

/// A model: its header and the raw sections that follow it.
pub struct Model {
    pub header: ModelHeader,
    pub skin_data: Vec<u8>,
    pub skin_vertices: Vec<u8>,
    pub model_triangles: Vec<u8>,
}

/// The header fields stored at `b[p..p + 84]`.
pub open spec fn header_fields(b: Seq<u8>, p: int) -> ModelHeader {
    ModelHeader {
        ident: le_u32(b, p) as u32,
        version: le_u32(b, p + 4) as u32,
        scale: vec3_at(b, p + 8),
        scale_origin: vec3_at(b, p + 20),
        boundingradius: le_u32(b, p + 32) as u32,
        eyeposition: vec3_at(b, p + 36),
        numskins: le_u32(b, p + 48) as u32,
        skinwidth: le_u32(b, p + 52) as u32,
        skinheight: le_u32(b, p + 56) as u32,
        numverts: le_u32(b, p + 60) as u32,
        numtriangles: le_u32(b, p + 64) as u32,
        numframes: le_u32(b, p + 68) as u32,
        synctype: le_u32(b, p + 72) as u32,
        flags: le_u32(b, p + 76) as u32,
        size: le_u32(b, p + 80) as u32,
    }
}

/// The outcome of decoding an MDL header at offset `p` of `b`: the magic is
/// checked as soon as it is read, then the version, then the rest must fit.
pub open spec fn mdl_header(b: Seq<u8>, p: int) -> Result<ModelHeader, DecodeError> {
    let len = b.len() as int;
    if p + 4 > len {
        Err(truncated(p, 4, len))
    } else if le_u32(b, p) != MDL_IDENT {
        Err(DecodeError::BadMagic)
    } else if p + 8 > len {
        Err(truncated(p + 4, 4, len))
    } else if le_u32(b, p + 4) != MDL_VERSION {
        Err(DecodeError::UnsupportedVersion)
    } else if p + 84 > len {
        Err(truncated(p + 8, 76, len))
    } else {
        Ok(header_fields(b, p))
    }
}

fn read_vec3(reader: &mut ByteReader) -> (r: Result<Vec3Bits, DecodeError>)
    requires
        old(reader).has(12),
    ensures
        final(reader).bytes() == old(reader).bytes(),
        r == Ok::<Vec3Bits, DecodeError>(vec3_at(old(reader).bytes(), old(reader).pos())),
        final(reader).pos() == old(reader).pos() + 12,
{
    let x = reader.read_f32_bits()?;
    let y = reader.read_f32_bits()?;
    let z = reader.read_f32_bits()?;
    Ok(Vec3Bits { x, y, z })
}

fn parse_header(reader: &mut ByteReader) -> (r: Result<ModelHeader, DecodeError>)
    ensures
        final(reader).bytes() == old(reader).bytes(),
        r == mdl_header(old(reader).bytes(), old(reader).pos()),
        r is Ok ==> final(reader).pos() == old(reader).pos() + 84,
{
    let ghost b = reader.bytes();
    let ghost p = reader.pos();
    let ident = reader.read_u32()?;
    if ident != MDL_IDENT {
        return Err(DecodeError::BadMagic);
    }
    let version = reader.read_u32()?;
    if version != MDL_VERSION {
        return Err(DecodeError::UnsupportedVersion);
    }
    reader.need(76)?;
    let scale = read_vec3(reader)?;
    let scale_origin = read_vec3(reader)?;
    let boundingradius = reader.read_f32_bits()?;
    let eyeposition = read_vec3(reader)?;
    let numskins = reader.read_u32()?;
    let skinwidth = reader.read_u32()?;
    let skinheight = reader.read_u32()?;
    let numverts = reader.read_u32()?;
    let numtriangles = reader.read_u32()?;
    let numframes = reader.read_u32()?;
    let synctype = reader.read_u32()?;
    let flags = reader.read_u32()?;
    let size = reader.read_f32_bits()?;
    let h = ModelHeader {
        ident,
        version,
        scale,
        scale_origin,
        boundingradius,
        eyeposition,
        numskins,
        skinwidth,
        skinheight,
        numverts,
        numtriangles,
        numframes,
        synctype,
        flags,
        size,
    };
    assert(h == header_fields(b, p));
    Ok(h)
}

impl ModelHeader {
    /// Decodes the 84-byte header at the reader's position. On success the
    /// reader stands just past the header; on failure it has not moved.
    pub fn from_reader(reader: &mut ByteReader) -> (r: Result<ModelHeader, DecodeError>)
        ensures
            final(reader).bytes() == old(reader).bytes(),
            r == mdl_header(old(reader).bytes(), old(reader).pos()),
            r is Ok ==> final(reader).pos() == old(reader).pos() + MDL_HEADER_SIZE,
            r is Err ==> final(reader).pos() == old(reader).pos(),
    {
        let start = reader.position();
        let r = parse_header(reader);
        if r.is_err() {
            let _ = reader.set_position(start);
        }
        r
    }
}

/// Reads the first skin: `skinwidth * skinheight` palette indices, row-major.
/// On failure the reader has not moved.
pub fn parse_skins(reader: &mut ByteReader, header: &ModelHeader) -> (r: Result<Vec<u8>, DecodeError>)
    ensures
        final(reader).bytes() == old(reader).bytes(),
        ({
            let n = header.skinwidth as int * header.skinheight as int;
            let b = old(reader).bytes();
            let p = old(reader).pos();
            &&& p + n <= b.len() ==> (r matches Ok(v) && v@ == b.subrange(p, p + n)
                && final(reader).pos() == p + n)
            &&& p + n > b.len() ==> r == Err::<Vec<u8>, DecodeError>(truncated(p, n, b.len() as int))
                && final(reader).pos() == p
        }),
{
    let w = header.skinwidth as u64;
    let h = header.skinheight as u64;
    proof {
        assert(w * h <= 0xFFFF_FFFF * 0xFFFF_FFFF) by (nonlinear_arith)
            requires
                w <= 0xFFFF_FFFF,
                h <= 0xFFFF_FFFF,
        ;
    }
    let n: u64 = w * h;
    let pos = reader.position();
    let len = reader.blob_len();
    if pos > len || n > (len - pos) as u64 {
        return Err(DecodeError::Truncated { offset: pos as u64, len: n, available: len as u64 });
    }
    reader.read_bytes(n as usize)
}

} // verus!
