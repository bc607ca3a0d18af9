use vstd::prelude::*;

use crate::encoding::{
    i32_bits, i32_from_bits, i32_of_u32, lemma_i32_bits_roundtrip, lemma_le_bytes_len, lemma_le_roundtrip,
    lemma_le_value_bound, lemma_pow256_values, le_bytes, le_value, pow256, push_le, read_le, u32_of_i32,
};
use crate::mask::{has_bit, mask_end, mask_index, SubchunkMask};
use crate::palette::{min_cap, pal_of_bytes, states_valid, Palette};
use crate::voxels::Voxels;
use crate::words::Words;
use crate::zip::{max_unzipped_size, unzipped, zstd_zipped, SpanReader, UnzipError, UnzippedSpan};
use crate::chunk::Chunk;
use crate::region::region_id_of;
use crate::world::{find_region, World};
use crate::space::{IVec2, IVec3};
use crate::voxels::bits_for_cap;
use crate::words::{indices_of, words_of_bytes};

verus! {

/// The stage a chunk is in.
#[derive(Copy, Clone, Eq, PartialEq, Debug, Ord, PartialOrd, Hash, Structural)]
pub enum ChunkState {
    /// The chunk is in the process of being generated.
    Generating,
    /// The chunk's data has not been read from disk yet.
    Unloaded,
    /// The chunk is loaded and ready to be sent to clients.
    Loaded,
}

impl ChunkState {
    /// The state stored as v in a chunk header.
    pub fn from_u16(value: u16) -> (r: ChunkState)
        requires
            value <= 2,
        ensures
            value == 0 ==> r == ChunkState::Generating,
            value == 1 ==> r == ChunkState::Unloaded,
            value == 2 ==> r == ChunkState::Loaded,
    {
        if value == 0 {
            ChunkState::Generating
        } else if value == 1 {
            ChunkState::Unloaded
        } else {
            ChunkState::Loaded
        }
    }

    /// The number stored for the state in a chunk header.
    pub fn as_u16(self) -> (r: u16)
        ensures
            r <= 2,
            ChunkState::from_u16_spec(r) == self,
    {
        match self {
            ChunkState::Generating => 0,
            ChunkState::Unloaded => 1,
            ChunkState::Loaded => 2,
        }
    }

    pub open spec fn from_u16_spec(value: u16) -> ChunkState {
        if value == 0 {
            ChunkState::Generating
        } else if value == 1 {
            ChunkState::Unloaded
        } else {
            ChunkState::Loaded
        }
    }
}

/// The format a chunk was encoded in.
#[derive(Copy, Clone, Eq, PartialEq, Debug, Structural)]
pub enum ChunkFormat {
    /// The format belongs to a future version.
    /// The game will still try to parse it, but may not be successful.
    Unknown,
    V1,
}

impl ChunkFormat {
    /// The format that chunks are written in.
    pub fn latest() -> (r: ChunkFormat)
        ensures
            r == ChunkFormat::V1,
    {
        ChunkFormat::V1
    }

    pub fn from_u16(v: u16) -> (r: ChunkFormat)
        ensures
            r == (if v == 1 {
                ChunkFormat::V1
            } else {
                ChunkFormat::Unknown
            }),
    {
        if v == 1 {
            ChunkFormat::V1
        } else {
            ChunkFormat::Unknown
        }
    }

    /// The number stored for the format in a chunk header.
    pub fn as_u16(self) -> (r: u16)
        ensures
            self == ChunkFormat::V1 ==> r == 1,
            self == ChunkFormat::Unknown ==> r == 0,
    {
        match self {
            ChunkFormat::Unknown => 0,
            ChunkFormat::V1 => 1,
        }
    }
}

/// Why chunk data could not be read.
#[derive(Clone, Debug)]
pub enum ChunkReadError {
    /// Expected more information to be in the chunk span, but it did not have it.
    UnexpectedEoi { requested: usize, available: usize },
    /// Chunks may try and load regions when reading. If it is disabled,
    /// this error is returned if the region has not been loaded.
    RegionNotExists(IVec2),
    /// The `format` field of the header is not a known format.
    UnsupportedFormat(u32),
    /// The padding that aligns a palette to an 8-byte boundary must be less than 8.
    InvalidPadding(usize),
    /// All word buffers must be aligned to an 8-byte boundary.
    WordsNotAligned(IVec3),
    /// Palette buffers must be aligned to a 2-byte boundary.
    PaletteNotAligned(IVec3),
    /// The length of the palette buffer must not be 0 or 1. Empty subchunks are not written.
    InvalidPaletteLength(usize),
    /// The BPI is not one of 4, 8 or 16.
    InvalidBpi { bpi: u8, palette_len: usize },
    /// A subchunk occurred more than once in a chunk.
    DuplicateSubchunk(IVec3),
    /// A subchunk's y origin is not a multiple of 32.
    InvalidYOrigin(i32),
    /// A subchunk's palette does not start with air, holds the reserved empty marker, or holds
    /// more than 32768 states.
    InvalidPalette(IVec3),
    /// A subchunk's words hold an index past the end of its palette.
    IndexOutOfPalette(IVec3),
}

/// Header of each subchunk section of encoded chunk data. Its size is 8 bytes.
#[derive(Copy, Clone, Eq, PartialEq, Debug, Structural)]
pub struct SubchunkHeader {
    /// Y-coordinate of the subchunk within the chunk.
    pub y_origin: i32,
    /// Number of ELEMENTS in the palette.
    pub palette_len: u16,
    /// Number of BYTES to pad the palette with.
    pub padding_size: u8,
    /// The number of bits per index.
    pub bpi: u8,
}

/// The number of bytes of words stored with a bpi, if the bpi is one that is stored.
pub open spec fn words_size_for(bpi: u8) -> Option<usize> {
    if bpi == 4 {
        Some(16384)
    } else if bpi == 8 {
        Some(32768)
    } else if bpi == 16 {
        Some(65536)
    } else {
        None
    }
}

impl SubchunkHeader {
    /// The y origin, which must be a multiple of 32.
    pub fn y_origin(&self) -> (r: Result<i32, ChunkReadError>)
        ensures
            self.y_origin % 32 == 0 ==> r == Ok::<i32, ChunkReadError>(self.y_origin),
            self.y_origin % 32 != 0 ==> (r matches Err(ChunkReadError::InvalidYOrigin(y)) && y
                == self.y_origin),
    {
        let y = self.y_origin;
        assert((y & 31i32 == 0) == (y % 32 == 0)) by (bit_vector);
        if self.y_origin & 31 != 0 {
            Err(ChunkReadError::InvalidYOrigin(self.y_origin))
        } else {
            Ok(self.y_origin)
        }
    }

    /// The padding after the palette, which must be less than 8.
    pub fn padding(&self) -> (r: Result<usize, ChunkReadError>)
        ensures
            self.padding_size <= 7 ==> r == Ok::<usize, ChunkReadError>(self.padding_size as usize),
            self.padding_size > 7 ==> (r matches Err(ChunkReadError::InvalidPadding(p)) && p
                == self.padding_size),
    {
        let padding = self.padding_size as usize;
        if padding > 7 {
            Err(ChunkReadError::InvalidPadding(padding))
        } else {
            Ok(padding)
        }
    }

    /// Size of the palette in bytes. A stored palette has at least 2 entries.
    pub fn palette_size(&self) -> (r: Result<usize, ChunkReadError>)
        ensures
            self.palette_len >= 2 ==> r == Ok::<usize, ChunkReadError>(
                (2 * self.palette_len) as usize,
            ),
            self.palette_len < 2 ==> (r matches Err(ChunkReadError::InvalidPaletteLength(l)) && l
                == self.palette_len),
    {
        if self.palette_len < 2 {
            Err(ChunkReadError::InvalidPaletteLength(self.palette_len as usize))
        } else {
            Ok((self.palette_len as usize) * 2)
        }
    }

    /// Number of BYTES in words.
    pub fn words_size(&self) -> (r: Result<usize, ChunkReadError>)
        ensures
            words_size_for(self.bpi) matches Some(n) ==> r == Ok::<usize, ChunkReadError>(n),
            words_size_for(self.bpi) is None ==> (r matches Err(
                ChunkReadError::InvalidBpi { bpi, palette_len },
            ) && bpi == self.bpi && palette_len == self.palette_len),
    {
        if self.bpi == 4 {
            Ok(16384)
        } else if self.bpi == 8 {
            Ok(32768)
        } else if self.bpi == 16 {
            Ok(65536)
        } else {
            Err(ChunkReadError::InvalidBpi { bpi: self.bpi, palette_len: self.palette_len as usize })
        }
    }
}

/// Chunk headers that always exist, regardless of format version. Its size is 32 bytes.
#[derive(Copy, Clone, Eq, PartialEq, Debug, Structural)]
pub struct ChunkHeader {
    /// Origin of the chunk in world-space.
    pub origin: IVec3,
    /// Distance between origin.y and extent.y
    pub height: i32,
    /// ChunkState as u16
    pub state: u16,
    /// Format used when the chunk was encoded.
    pub format: u16,
    /// Number of non-empty subchunks present.
    pub length: u16,
    pub unused: u16,
    /// The version number of the chunk.
    pub revision: u64,
}

impl Default for ChunkHeader {
    fn default() -> (r: ChunkHeader)
        ensures
            r.origin == (IVec3 { x: 0, y: 0, z: 0 }),
            r.height == 0 && r.state == 0 && r.format == 0 && r.length == 0 && r.unused == 0
                && r.revision == 0,
    {
        ChunkHeader {
            origin: IVec3 { x: 0, y: 0, z: 0 },
            height: 0,
            state: 0,
            format: 0,
            length: 0,
            unused: 0,
            revision: 0,
        }
    }
}

/// The 32 bytes of a chunk header: origin x, y, z and height as i32, state, format, length and
/// the unused field as u16, and the revision as u64, each little-endian.
pub open spec fn chunk_header_bytes(h: ChunkHeader) -> Seq<u8> {
    le_bytes(u32_of_i32(h.origin.x), 4) + le_bytes(u32_of_i32(h.origin.y), 4) + le_bytes(
        u32_of_i32(h.origin.z),
        4,
    ) + le_bytes(u32_of_i32(h.height), 4) + le_bytes(h.state as nat, 2) + le_bytes(h.format as nat, 2)
        + le_bytes(h.length as nat, 2) + le_bytes(h.unused as nat, 2) + le_bytes(h.revision as nat, 8)
}

/// The chunk header that the first 32 bytes of s encode.
pub open spec fn chunk_header_of(s: Seq<u8>) -> ChunkHeader {
    ChunkHeader {
        origin: IVec3 {
            x: i32_of_u32(le_value(s.subrange(0, 4))),
            y: i32_of_u32(le_value(s.subrange(4, 8))),
            z: i32_of_u32(le_value(s.subrange(8, 12))),
        },
        height: i32_of_u32(le_value(s.subrange(12, 16))),
        state: le_value(s.subrange(16, 18)) as u16,
        format: le_value(s.subrange(18, 20)) as u16,
        length: le_value(s.subrange(20, 22)) as u16,
        unused: le_value(s.subrange(22, 24)) as u16,
        revision: le_value(s.subrange(24, 32)) as u64,
    }
}

/// The 8 bytes of a subchunk header: the y origin as i32, the palette length as u16, then the
/// padding and the bpi, each little-endian.
pub open spec fn subchunk_header_bytes(h: SubchunkHeader) -> Seq<u8> {
    le_bytes(u32_of_i32(h.y_origin), 4) + le_bytes(h.palette_len as nat, 2) + le_bytes(
        h.padding_size as nat,
        1,
    ) + le_bytes(h.bpi as nat, 1)
}

/// The subchunk header that the first 8 bytes of s encode.
pub open spec fn subchunk_header_of(s: Seq<u8>) -> SubchunkHeader {
    SubchunkHeader {
        y_origin: i32_of_u32(le_value(s.subrange(0, 4))),
        palette_len: le_value(s.subrange(4, 6)) as u16,
        padding_size: le_value(s.subrange(6, 7)) as u8,
        bpi: le_value(s.subrange(7, 8)) as u8,
    }
}

impl ChunkHeader {
    /// The 32 bytes that encode the header.
    pub fn to_bytes(&self) -> (r: Vec<u8>)
        ensures
            r@ == chunk_header_bytes(*self),
            r@.len() == 32,
    {
        let mut out: Vec<u8> = Vec::new();
        push_le(&mut out, i32_bits(self.origin.x), 4);
        push_le(&mut out, i32_bits(self.origin.y), 4);
        push_le(&mut out, i32_bits(self.origin.z), 4);
        push_le(&mut out, i32_bits(self.height), 4);
        push_le(&mut out, self.state as u64, 2);
        push_le(&mut out, self.format as u64, 2);
        push_le(&mut out, self.length as u64, 2);
        push_le(&mut out, self.unused as u64, 2);
        push_le(&mut out, self.revision, 8);
        proof {
            lemma_chunk_header_bytes_len(*self);
            assert(out@ =~= chunk_header_bytes(*self));
        }
        out
    }

    /// The header that the first 32 bytes of s encode.
    pub fn from_bytes(s: &[u8]) -> (r: ChunkHeader)
        requires
            s@.len() >= 32,
        ensures
            r == chunk_header_of(s@),
    {
        proof {
            lemma_pow256_values();
            lemma_le_value_bound(s@.subrange(0, 4));
            lemma_le_value_bound(s@.subrange(4, 8));
            lemma_le_value_bound(s@.subrange(8, 12));
            lemma_le_value_bound(s@.subrange(12, 16));
        }
        ChunkHeader {
            origin: IVec3 {
                x: i32_from_bits(read_le(s, 0, 4)),
                y: i32_from_bits(read_le(s, 4, 4)),
                z: i32_from_bits(read_le(s, 8, 4)),
            },
            height: i32_from_bits(read_le(s, 12, 4)),
            state: read_le(s, 16, 2) as u16,
            format: read_le(s, 18, 2) as u16,
            length: read_le(s, 20, 2) as u16,
            unused: read_le(s, 22, 2) as u16,
            revision: read_le(s, 24, 8),
        }
    }
}

impl SubchunkHeader {
    /// The 8 bytes that encode the header.
    pub fn to_bytes(&self) -> (r: Vec<u8>)
        ensures
            r@ == subchunk_header_bytes(*self),
            r@.len() == 8,
    {
        let mut out: Vec<u8> = Vec::new();
        push_le(&mut out, i32_bits(self.y_origin), 4);
        push_le(&mut out, self.palette_len as u64, 2);
        push_le(&mut out, self.padding_size as u64, 1);
        push_le(&mut out, self.bpi as u64, 1);
        proof {
            lemma_subchunk_header_bytes_len(*self);
            assert(out@ =~= subchunk_header_bytes(*self));
        }
        out
    }

    /// The header that the first 8 bytes of s encode.
    pub fn from_bytes(s: &[u8]) -> (r: SubchunkHeader)
        requires
            s@.len() >= 8,
        ensures
            r == subchunk_header_of(s@),
    {
        proof {
            lemma_pow256_values();
            lemma_le_value_bound(s@.subrange(0, 4));
            lemma_le_value_bound(s@.subrange(4, 6));
            lemma_le_value_bound(s@.subrange(6, 7));
            lemma_le_value_bound(s@.subrange(7, 8));
            reveal_with_fuel(pow256, 3);
        }
        SubchunkHeader {
            y_origin: i32_from_bits(read_le(s, 0, 4)),
            palette_len: read_le(s, 4, 2) as u16,
            padding_size: read_le(s, 6, 1) as u8,
            bpi: read_le(s, 7, 1) as u8,
        }
    }
}

proof fn lemma_chunk_header_bytes_len(h: ChunkHeader)
    ensures
        chunk_header_bytes(h).len() == 32,
{
    lemma_le_bytes_len(u32_of_i32(h.origin.x), 4);
    lemma_le_bytes_len(u32_of_i32(h.origin.y), 4);
    lemma_le_bytes_len(u32_of_i32(h.origin.z), 4);
    lemma_le_bytes_len(u32_of_i32(h.height), 4);
    lemma_le_bytes_len(h.state as nat, 2);
    lemma_le_bytes_len(h.format as nat, 2);
    lemma_le_bytes_len(h.length as nat, 2);
    lemma_le_bytes_len(h.unused as nat, 2);
    lemma_le_bytes_len(h.revision as nat, 8);
}

pub proof fn lemma_subchunk_header_len(h: SubchunkHeader)
    ensures
        subchunk_header_bytes(h).len() == 8,
{
    lemma_subchunk_header_bytes_len(h);
}

proof fn lemma_subchunk_header_bytes_len(h: SubchunkHeader)
    ensures
        subchunk_header_bytes(h).len() == 8,
{
    lemma_le_bytes_len(u32_of_i32(h.y_origin), 4);
    lemma_le_bytes_len(h.palette_len as nat, 2);
    lemma_le_bytes_len(h.padding_size as nat, 1);
    lemma_le_bytes_len(h.bpi as nat, 1);
}

/// Reading a chunk header back from its bytes, whatever follows them, gives the header.
pub proof fn lemma_chunk_header_roundtrip(h: ChunkHeader, rest: Seq<u8>)
    ensures
        chunk_header_of(chunk_header_bytes(h) + rest) == h,
        chunk_header_bytes(h).len() == 32,
{
    lemma_pow256_values();
    lemma_i32_bits_roundtrip(h.origin.x);
    lemma_i32_bits_roundtrip(h.origin.y);
    lemma_i32_bits_roundtrip(h.origin.z);
    lemma_i32_bits_roundtrip(h.height);
    lemma_le_roundtrip(u32_of_i32(h.origin.x), 4);
    lemma_le_roundtrip(u32_of_i32(h.origin.y), 4);
    lemma_le_roundtrip(u32_of_i32(h.origin.z), 4);
    lemma_le_roundtrip(u32_of_i32(h.height), 4);
    lemma_le_roundtrip(h.state as nat, 2);
    lemma_le_roundtrip(h.format as nat, 2);
    lemma_le_roundtrip(h.length as nat, 2);
    lemma_le_roundtrip(h.unused as nat, 2);
    lemma_le_roundtrip(h.revision as nat, 8);
    let s = chunk_header_bytes(h) + rest;
    assert(s.subrange(0, 4) =~= le_bytes(u32_of_i32(h.origin.x), 4));
    assert(s.subrange(4, 8) =~= le_bytes(u32_of_i32(h.origin.y), 4));
    assert(s.subrange(8, 12) =~= le_bytes(u32_of_i32(h.origin.z), 4));
    assert(s.subrange(12, 16) =~= le_bytes(u32_of_i32(h.height), 4));
    assert(s.subrange(16, 18) =~= le_bytes(h.state as nat, 2));
    assert(s.subrange(18, 20) =~= le_bytes(h.format as nat, 2));
    assert(s.subrange(20, 22) =~= le_bytes(h.length as nat, 2));
    assert(s.subrange(22, 24) =~= le_bytes(h.unused as nat, 2));
    assert(s.subrange(24, 32) =~= le_bytes(h.revision as nat, 8));
}

/// A chunk header reads only the first 32 bytes.
pub proof fn lemma_chunk_header_prefix(s: Seq<u8>)
    requires
        s.len() >= 32,
    ensures
        chunk_header_of(s.subrange(0, 32)) == chunk_header_of(s),
{
    let t = s.subrange(0, 32);
    assert(t.subrange(0, 4) =~= s.subrange(0, 4));
    assert(t.subrange(4, 8) =~= s.subrange(4, 8));
    assert(t.subrange(8, 12) =~= s.subrange(8, 12));
    assert(t.subrange(12, 16) =~= s.subrange(12, 16));
    assert(t.subrange(16, 18) =~= s.subrange(16, 18));
    assert(t.subrange(18, 20) =~= s.subrange(18, 20));
    assert(t.subrange(20, 22) =~= s.subrange(20, 22));
    assert(t.subrange(22, 24) =~= s.subrange(22, 24));
    assert(t.subrange(24, 32) =~= s.subrange(24, 32));
}

/// Reading a subchunk header back from its bytes, whatever follows them, gives the header.
pub proof fn lemma_subchunk_header_roundtrip(h: SubchunkHeader, rest: Seq<u8>)
    ensures
        subchunk_header_of(subchunk_header_bytes(h) + rest) == h,
        subchunk_header_bytes(h).len() == 8,
{
    lemma_pow256_values();
    lemma_i32_bits_roundtrip(h.y_origin);
    lemma_le_roundtrip(u32_of_i32(h.y_origin), 4);
    lemma_le_roundtrip(h.palette_len as nat, 2);
    lemma_le_roundtrip(h.padding_size as nat, 1);
    lemma_le_roundtrip(h.bpi as nat, 1);
    let s = subchunk_header_bytes(h) + rest;
    assert(s.subrange(0, 4) =~= le_bytes(u32_of_i32(h.y_origin), 4));
    assert(s.subrange(4, 6) =~= le_bytes(h.palette_len as nat, 2));
    assert(s.subrange(6, 7) =~= le_bytes(h.padding_size as nat, 1));
    assert(s.subrange(7, 8) =~= le_bytes(h.bpi as nat, 1));
}

/// The position of the subchunk at height y in a chunk with origin o.
pub open spec fn section_origin(o: IVec3, y: i32) -> IVec3 {
    IVec3 { x: o.x, y, z: o.z }
}

/// The section of encoded chunk data at pos: its header, where its palette and words start,
/// and where the next section starts; or the error that reading it meets first. Positions
/// count from the start of the data, which lies on an 8-byte boundary.
pub open spec fn parse_section(b: Seq<u8>, pos: nat, o: IVec3) -> Result<
    (SubchunkHeader, nat, nat, nat),
    ChunkReadError,
> {
    if b.len() < pos + 8 {
        Err(ChunkReadError::UnexpectedEoi { requested: 8, available: (b.len() - pos) as usize })
    } else {
        let h = subchunk_header_of(b.subrange(pos as int, (pos + 8) as int));
        let p0 = pos + 8;
        let ps = 2 * h.palette_len as nat;
        let pad = h.padding_size as nat;
        if h.y_origin % 32 != 0 {
            Err(ChunkReadError::InvalidYOrigin(h.y_origin))
        } else if h.padding_size > 7 {
            Err(ChunkReadError::InvalidPadding(h.padding_size as usize))
        } else if h.palette_len < 2 {
            Err(ChunkReadError::InvalidPaletteLength(h.palette_len as usize))
        } else if words_size_for(h.bpi) is None {
            Err(ChunkReadError::InvalidBpi { bpi: h.bpi, palette_len: h.palette_len as usize })
        } else if b.len() < p0 + ps {
            Err(ChunkReadError::UnexpectedEoi { requested: ps as usize, available: (b.len() - p0) as usize })
        } else if b.len() < p0 + ps + pad {
            Err(
                ChunkReadError::UnexpectedEoi {
                    requested: pad as usize,
                    available: (b.len() - (p0 + ps)) as usize,
                },
            )
        } else if b.len() < p0 + ps + pad + words_size_for(h.bpi).unwrap() {
            Err(
                ChunkReadError::UnexpectedEoi {
                    requested: words_size_for(h.bpi).unwrap(),
                    available: (b.len() - (p0 + ps + pad)) as usize,
                },
            )
        } else if p0 % 2 != 0 {
            Err(ChunkReadError::PaletteNotAligned(section_origin(o, h.y_origin)))
        } else if (p0 + ps + pad) % 8 != 0 {
            Err(ChunkReadError::WordsNotAligned(section_origin(o, h.y_origin)))
        } else {
            Ok((h, p0, p0 + ps + pad, (p0 + ps + pad + words_size_for(h.bpi).unwrap()) as nat))
        }
    }
}

/// The voxels that a section with header h, palette bytes `pal` and word bytes `words` holds:
/// its y origin, palette, bits per index and raw words; or why they cannot be stored.
pub open spec fn decode_parts(h: SubchunkHeader, pal: Seq<u8>, words: Seq<u8>, o: IVec3) -> Result<
    (i32, Seq<u16>, u8, Seq<u64>),
    ChunkReadError,
> {
    let states = pal_of_bytes(pal);
    let raw = words_of_bytes(words);
    if h.palette_len > 32768 || !states_valid(states) {
        Err(ChunkReadError::InvalidPalette(section_origin(o, h.y_origin)))
    } else if h.bpi as nat != bits_for_cap(min_cap(states.len())) {
        Err(ChunkReadError::InvalidBpi { bpi: h.bpi, palette_len: h.palette_len as usize })
    } else if exists|i: int| 0 <= i < 32768 && #[trigger] indices_of(h.bpi as nat, raw)[i] >= states.len() {
        Err(ChunkReadError::IndexOutOfPalette(section_origin(o, h.y_origin)))
    } else {
        Ok((h.y_origin, states, h.bpi, raw))
    }
}

/// The voxels of a section whose header is h, palette starts at p0 and words at p2.
pub open spec fn decode_section(b: Seq<u8>, h: SubchunkHeader, p0: nat, p2: nat, o: IVec3) -> Result<
    (i32, Seq<u16>, u8, Seq<u64>),
    ChunkReadError,
> {
    decode_parts(
        h,
        b.subrange(p0 as int, p0 + 2 * h.palette_len),
        b.subrange(p2 as int, p2 + words_size_for(h.bpi).unwrap()),
        o,
    )
}

/// The value of each voxel stored as this palette and these raw words.
pub open spec fn stored_values(pal: Seq<u16>, bits: u8, raw: Seq<u64>) -> Seq<u16> {
    Seq::new(32768, |i: int| pal[indices_of(bits as nat, raw)[i] as int])
}

/// Take the next section of encoded chunk data from the reader: its header, palette bytes and
/// word bytes.
pub fn take_section<'a>(reader: &mut SpanReader<'a>, o: IVec3) -> (r: Result<
    (SubchunkHeader, &'a [u8], &'a [u8]),
    ChunkReadError,
>)
    requires
        old(reader).wf(),
    ensures
        final(reader).wf(),
        final(reader).total() == old(reader).total(),
        match parse_section(old(reader).total(), old(reader).consumed(), o) {
            Ok((h, p0, p2, next)) => r matches Ok((h2, pal, words)) && h2 == h && pal@ == old(
                reader,
            ).total().subrange(p0 as int, p0 + 2 * h.palette_len) && words@ == old(reader).total().subrange(
                p2 as int,
                next as int,
            ) && final(reader).consumed() == next,
            Err(e) => r matches Err(e2) && e2 == e,
        },
{
    proof {
        reader.lemma_parts();
    }
    let ghost b = old(reader).total();
    let ghost pos = old(reader).consumed();
    let hb = match reader.take(8) {
        Ok(s) => s,
        Err(e) => {
            return Err(ChunkReadError::UnexpectedEoi { requested: e.requested, available: e.available });
        },
    };
    assert(hb@ =~= b.subrange(pos as int, (pos + 8) as int));
    let h = SubchunkHeader::from_bytes(hb);
    let p0 = reader.position();
    let y = match h.y_origin() {
        Ok(y) => y,
        Err(e) => {
            return Err(e);
        },
    };
    let pad = match h.padding() {
        Ok(p) => p,
        Err(e) => {
            return Err(e);
        },
    };
    let ps = match h.palette_size() {
        Ok(p) => p,
        Err(e) => {
            return Err(e);
        },
    };
    let ws = match h.words_size() {
        Ok(w) => w,
        Err(e) => {
            return Err(e);
        },
    };
    proof {
        reader.lemma_parts();
    }
    let pal = match reader.take(ps) {
        Ok(s) => s,
        Err(e) => {
            return Err(ChunkReadError::UnexpectedEoi { requested: e.requested, available: e.available });
        },
    };
    proof {
        reader.lemma_parts();
        assert(pal@ =~= b.subrange(p0 as int, p0 + ps));
    }
    match reader.advance(pad) {
        Ok(()) => {},
        Err(e) => {
            return Err(ChunkReadError::UnexpectedEoi { requested: e.requested, available: e.available });
        },
    }
    proof {
        reader.lemma_parts();
    }
    let p2 = reader.position();
    let words = match reader.take(ws) {
        Ok(s) => s,
        Err(e) => {
            return Err(ChunkReadError::UnexpectedEoi { requested: e.requested, available: e.available });
        },
    };
    proof {
        reader.lemma_parts();
        assert(words@ =~= b.subrange(p2 as int, p2 + ws));
    }
    if p0 % 2 != 0 {
        return Err(ChunkReadError::PaletteNotAligned(IVec3 { x: o.x, y, z: o.z }));
    }
    if p2 % 8 != 0 {
        return Err(ChunkReadError::WordsNotAligned(IVec3 { x: o.x, y, z: o.z }));
    }
    Ok((h, pal, words))
}

/// The voxels that a section stores, checked: a palette that starts with air and holds
/// neither the empty marker nor more than 32768 states, a bpi that fits the palette's
/// capacity, and indices that lie in the palette.
pub fn decode_voxels(h: &SubchunkHeader, pal: &[u8], words: &[u8], o: IVec3) -> (r: Result<
    Voxels,
    ChunkReadError,
>)
    requires
        h.palette_len >= 2,
        pal@.len() == 2 * h.palette_len,
        words_size_for(h.bpi) is Some,
        words@.len() == words_size_for(h.bpi).unwrap(),
    ensures
        match decode_parts(*h, pal@, words@, o) {
            Ok((y, states, bits, raw)) => r matches Ok(v) && v.wf() && v.palette_view() == states
                && v.bits() == bits && v.words_raw() == raw && v@ == stored_values(states, bits, raw),
            Err(e) => r matches Err(e2) && e2 == e,
        },
{
    let origin = IVec3 { x: o.x, y: h.y_origin, z: o.z };
    if h.palette_len > 32768 {
        return Err(ChunkReadError::InvalidPalette(origin));
    }
    let palette = match Palette::from_le_bytes(pal) {
        Some(p) => p,
        None => {
            return Err(ChunkReadError::InvalidPalette(origin));
        },
    };
    proof {
        palette.lemma_len_cap();
    }
    let cap = palette.capacity();
    let bits: u8 = if cap == 16 {
        4
    } else if cap <= 256 {
        8
    } else {
        16
    };
    if h.bpi != bits {
        return Err(ChunkReadError::InvalidBpi { bpi: h.bpi, palette_len: h.palette_len as usize });
    }
    let w = Words::from_le_bytes(words, h.bpi);
    proof {
        crate::words::lemma_indices_of(w);
    }
    match Voxels::from_parts(palette, w) {
        Some(v) => {
            assert(v@ =~= stored_values(pal_of_bytes(pal@), h.bpi, words_of_bytes(words@)));
            Ok(v)
        },
        None => {
            let ghost i = choose|i: int| 0 <= i < 32768 && #[trigger] w@[i] >= palette@.len();
            assert(indices_of(h.bpi as nat, words_of_bytes(words@))[i] >= pal_of_bytes(pal@).len());
            Err(ChunkReadError::IndexOutOfPalette(origin))
        },
    }
}

/// Whether a subchunk at height y lies in a chunk whose subchunk mask runs from bit lo up to,
/// not including, bit hi.
pub open spec fn in_bounds(lo: u32, hi: u32, y: i32) -> bool {
    -1024 <= y < 1024 && lo <= mask_index(y) < hi
}

/// The n sections from pos: the decoded voxels of those in bounds, in order, and where the
/// data after them starts; or the first error. `seen` holds the mask bits of the subchunks
/// read so far.
pub open spec fn parse_sections(
    b: Seq<u8>,
    pos: nat,
    n: nat,
    o: IVec3,
    lo: u32,
    hi: u32,
    seen: Set<u32>,
) -> Result<(Seq<(i32, Seq<u16>, u8, Seq<u64>)>, nat), ChunkReadError>
    decreases n,
{
    if n == 0 {
        Ok((Seq::empty(), pos))
    } else {
        match parse_section(b, pos, o) {
            Err(e) => Err(e),
            Ok((h, p0, p2, next)) => if in_bounds(lo, hi, h.y_origin) {
                if seen.contains(mask_index(h.y_origin)) {
                    Err(ChunkReadError::DuplicateSubchunk(section_origin(o, h.y_origin)))
                } else {
                    match decode_section(b, h, p0, p2, o) {
                        Err(e) => Err(e),
                        Ok(d) => match parse_sections(
                            b,
                            next,
                            (n - 1) as nat,
                            o,
                            lo,
                            hi,
                            seen.insert(mask_index(h.y_origin)),
                        ) {
                            Err(e) => Err(e),
                            Ok((ds, end)) => Ok((seq![d] + ds, end)),
                        },
                    }
                }
            } else {
                parse_sections(b, next, (n - 1) as nat, o, lo, hi, seen)
            },
        }
    }
}

/// A decoded section: its y origin, palette, bits per index and raw words.
pub type Decoded = (i32, Seq<u16>, u8, Seq<u64>);

/// A result of reading sections, with `acc` read before it.
pub open spec fn prepend(acc: Seq<Decoded>, r: Result<(Seq<Decoded>, nat), ChunkReadError>) -> Result<
    (Seq<Decoded>, nat),
    ChunkReadError,
> {
    match r {
        Ok((ds, end)) => Ok((acc + ds, end)),
        Err(e) => Err(e),
    }
}

/// `new` is `old` after reading the decoded sections ds into it at revision rev: each
/// subchunk that a section names holds that section's voxels, every other subchunk is air,
/// and lights and everything else stay.
pub open spec fn chunk_read_into(new: Chunk, old: Chunk, ds: Seq<Decoded>, rev: u64) -> bool {
    &&& new.wf()
    &&& new.origin_spec() == old.origin_spec()
    &&& new.height_spec() == old.height_spec()
    &&& new.columns_view() == old.columns_view()
    &&& new.revision_spec() == rev
    &&& new.subchunks_view().len() == old.subchunks_view().len()
    &&& forall|j: int|
        0 <= j < new.subchunks_view().len() ==> {
            let s = #[trigger] new.subchunks_view()[j];
            let y = old.origin_spec().y + 32 * j;
            &&& s.lights_view() == old.subchunks_view()[j].lights_view()
            &&& s.origin_spec() == old.subchunks_view()[j].origin_spec()
            &&& forall|i: int|
                0 <= i < ds.len() && ds[i].0 == y ==> s.voxels_view() == stored_values(ds[i].1, ds[i].2, ds[i].3)
                    && s.palette_view() == ds[i].1 && s.bits() == ds[i].2 && s.words_raw() == ds[i].3
            &&& (forall|i: int| 0 <= i < ds.len() ==> ds[i].0 != y) ==> s.voxels_view() == Seq::new(
                32768,
                |k: int| 0u16,
            ) && s.palette_view() == seq![0u16] && s.bits() == 0
        }
}

/// A subchunk height that lies in a chunk's mask range lies in the chunk.
proof fn lemma_in_bounds_slot(oy: i32, h: i32, y: i32)
    requires
        oy % 32 == 0,
        h % 32 == 0,
        h >= 0,
        oy + h <= i32::MAX - 1024,
        y % 32 == 0,
        in_bounds(mask_end(oy), mask_end((oy + h) as i32), y),
    ensures
        oy <= y < oy + h,
        (y - oy) / 32 < h / 32,
        -1024 <= y < 1024,
{
}

/// The mask bit of a subchunk height, for any height.
fn mask_index_any(y: i32) -> (r: u32)
    ensures
        r == mask_index(y),
{
    if y > i32::MAX - 1024 {
        63
    } else {
        crate::mask::to_mask_index(y)
    }
}

/// Read a chunk's sections, in format V1, from the reader into the chunk: each section in the
/// chunk's bounds replaces the voxels of its subchunk, and every other subchunk becomes air.
/// All sections are read and checked before the chunk changes, so on an error it stays as it
/// was.
#[verifier::spinoff_prover]
pub fn read_chunk_from_span_v1(reader: &mut SpanReader, chunk: &mut Chunk, header: &ChunkHeader) -> (r:
    Result<(), ChunkReadError>)
    requires
        old(reader).wf(),
        old(chunk).wf(),
        old(chunk).origin_spec().y % 32 == 0,
        old(chunk).height_spec() % 32 == 0,
    ensures
        final(reader).wf(),
        final(reader).total() == old(reader).total(),
        match parse_sections(
            old(reader).total(),
            old(reader).consumed(),
            header.length as nat,
            old(chunk).origin_spec(),
            mask_end(old(chunk).origin_spec().y),
            mask_end((old(chunk).origin_spec().y + old(chunk).height_spec()) as i32),
            Set::empty(),
        ) {
            Ok((ds, end)) => r is Ok && chunk_read_into(*final(chunk), *old(chunk), ds, header.revision),
            Err(e) => r matches Err(e2) && e2 == e && *final(chunk) == *old(chunk),
        },
{
    proof {
        chunk.lemma_len_of_height();
    }
    let o = chunk.origin();
    let lo = crate::mask::to_mask_end(chunk.min_y());
    let hi = crate::mask::to_mask_end(chunk.max_y());
    let ghost b = old(reader).total();
    let ghost start = old(reader).consumed();
    let ghost whole = parse_sections(b, start, header.length as nat, o, lo, hi, Set::empty());
    let n = header.length as usize;
    let mut changed = SubchunkMask::empty();
    let mut intermediate: Vec<(i32, Voxels)> = Vec::new();
    let ghost mut acc: Seq<Decoded> = Seq::empty();
    let ghost mut seen: Set<u32> = Set::empty();
    let mut i: usize = 0;
    proof {
        assert(acc + Seq::<Decoded>::empty() =~= Seq::<Decoded>::empty());
        assert forall|k: u64| k < 64 implies #[trigger] has_bit(changed.0, k) == seen.contains(k as u32) by {
            assert((0u64 >> k) & 1u64 == 0u64) by (bit_vector);
        }
    }
    while i < n
        invariant
            reader.wf(),
            reader.total() == b,
            b == old(reader).total(),
            start == old(reader).consumed(),
            *chunk == *old(chunk),
            o.y % 32 == 0,
            chunk.height_spec() % 32 == 0,
            chunk.wf(),
            o == chunk.origin_spec(),
            lo == mask_end(o.y),
            hi == mask_end((o.y + chunk.height_spec()) as i32),
            n == header.length,
            i <= n,
            whole == parse_sections(b, start, header.length as nat, o, lo, hi, Set::empty()),
            whole == prepend(acc, parse_sections(b, reader.consumed(), (n - i) as nat, o, lo, hi, seen)),
            intermediate@.len() == acc.len(),
            forall|k: int| 0 <= k < acc.len() ==> {
                &&& (#[trigger] intermediate@[k]).0 == acc[k].0
                &&& intermediate@[k].1.wf()
                &&& intermediate@[k].1@ == stored_values(acc[k].1, acc[k].2, acc[k].3)
                &&& intermediate@[k].1.palette_view() == acc[k].1
                &&& intermediate@[k].1.bits() == acc[k].2
                &&& intermediate@[k].1.words_raw() == acc[k].3
                &&& in_bounds(lo, hi, acc[k].0)
                &&& acc[k].0 % 32 == 0
                &&& seen.contains(mask_index(acc[k].0))
            },
            forall|k1: int, k2: int| 0 <= k1 < k2 < acc.len() ==> acc[k1].0 != acc[k2].0,
            forall|k: u64| k < 64 ==> #[trigger] has_bit(changed.0, k) == seen.contains(k as u32),
        decreases n - i,
    {
        let ghost pos = reader.consumed();
        let (h, pal, words) = match take_section(reader, o) {
            Ok(t) => t,
            Err(e) => {
                return Err(e);
            },
        };
        let y = h.y_origin;
        let k = mask_index_any(y);
        if -1024 <= y && y < 1024 && lo <= k && k < hi {
            proof {
                chunk.lemma_len_of_height();
                lemma_in_bounds_slot(o.y, chunk.height_spec(), y);
            }
            let ghost before_bits = changed.0;
            assert(has_bit(before_bits, k as u64) == seen.contains(k));
            if !changed.set(y) {
                assert(seen.contains(k));
                return Err(ChunkReadError::DuplicateSubchunk(IVec3 { x: o.x, y, z: o.z }));
            }
            let res = decode_voxels(&h, pal, words, o);
            proof {
                if decode_parts(h, pal@, words@, o) is Err {
                    assert(res is Err);
                }
            }
            let v = match res {
                Ok(v) => v,
                Err(e) => {
                    return Err(e);
                },
            };
            let ghost p2 = (reader.consumed() - words_size_for(h.bpi).unwrap()) as nat;
            let ghost d = decode_section(b, h, pos + 8, p2, o)->Ok_0;
            proof {
                assert(parse_section(b, pos, o) is Ok);
                let ps = parse_section(b, pos, o)->Ok_0;
                assert(ps.1 == pos + 8);
                assert(ps.2 == p2);
                assert(pal@ == b.subrange((pos + 8) as int, pos + 8 + 2 * h.palette_len));
                assert(words@ == b.subrange(p2 as int, p2 + words_size_for(h.bpi).unwrap()));
                assert(decode_section(b, h, pos + 8, p2, o) == decode_parts(h, pal@, words@, o));
                assert(decode_parts(h, pal@, words@, o) is Ok);
                let ghost rest = parse_sections(b, reader.consumed(), (n - i - 1) as nat, o, lo, hi, seen.insert(k));
                assert(prepend(acc, prepend(seq![d], rest)) == prepend(acc.push(d), rest)) by {
                    match rest {
                        Ok((ds, end)) => {
                            assert(acc + (seq![d] + ds) =~= acc.push(d) + ds);
                        },
                        Err(e) => {},
                    }
                }
                assert forall|kk: u64| kk < 64 implies #[trigger] has_bit(changed.0, kk) == seen.insert(k).contains(kk as u32) by {}
                assert(d.0 == y);
                assert(!seen.contains(k));
                assert forall|kk: int| 0 <= kk < acc.len() implies acc[kk].0 != y by {
                    assert(intermediate@[kk].0 == acc[kk].0);
                    assert(seen.contains(mask_index(acc[kk].0)));
                }
                seen = seen.insert(k);
                acc = acc.push(d);
            }
            intermediate.push((y, v));
        }
        i = i + 1;
    }
    proof {
        assert(acc + Seq::<Decoded>::empty() =~= acc);
        assert forall|k: int| 0 <= k < acc.len() implies in_bounds(lo, hi, #[trigger] acc[k].0) && acc[k].0 % 32 == 0 by {
            assert(intermediate@[k].0 == acc[k].0);
        }
    }
    chunk.fill_air();
    let ghost aired = *chunk;
    while intermediate.len() > 0
        invariant
            chunk.wf(),
            chunk.origin_spec() == old(chunk).origin_spec(),
            chunk.height_spec() == old(chunk).height_spec(),
            chunk.columns_view() == old(chunk).columns_view(),
            chunk.revision_spec() == old(chunk).revision_spec(),
            chunk.subchunks_view().len() == old(chunk).subchunks_view().len(),
            o == chunk.origin_spec(),
            lo == mask_end(o.y),
            hi == mask_end((o.y + chunk.height_spec()) as i32),
            o.y % 32 == 0,
            chunk.height_spec() % 32 == 0,
            intermediate@.len() <= acc.len(),
            forall|k: int| 0 <= k < intermediate@.len() ==> {
                &&& (#[trigger] intermediate@[k]).0 == acc[k].0
                &&& intermediate@[k].1.wf()
                &&& intermediate@[k].1@ == stored_values(acc[k].1, acc[k].2, acc[k].3)
                &&& intermediate@[k].1.palette_view() == acc[k].1
                &&& intermediate@[k].1.bits() == acc[k].2
                &&& intermediate@[k].1.words_raw() == acc[k].3
            },
            forall|k: int| 0 <= k < acc.len() ==> in_bounds(lo, hi, #[trigger] acc[k].0) && acc[k].0 % 32 == 0,
            forall|k1: int, k2: int| 0 <= k1 < k2 < acc.len() ==> acc[k1].0 != acc[k2].0,
            forall|j: int|
                0 <= j < chunk.subchunks_view().len() ==> {
                    let s = #[trigger] chunk.subchunks_view()[j];
                    let y = o.y + 32 * j;
                    &&& s.lights_view() == old(chunk).subchunks_view()[j].lights_view()
                    &&& s.origin_spec() == old(chunk).subchunks_view()[j].origin_spec()
                    &&& forall|k: int|
                        intermediate@.len() <= k < acc.len() && acc[k].0 == y ==> s.voxels_view()
                            == stored_values(acc[k].1, acc[k].2, acc[k].3) && s.palette_view() == acc[k].1
                            && s.bits() == acc[k].2 && s.words_raw() == acc[k].3
                    &&& (forall|k: int| intermediate@.len() <= k < acc.len() ==> acc[k].0 != y) ==> s.voxels_view()
                        == Seq::new(32768, |q: int| 0u16) && s.palette_view() == seq![0u16] && s.bits() == 0
                },
        decreases intermediate@.len(),
    {
        let ghost m = intermediate@.len() - 1;
        let (y, v) = intermediate.pop().unwrap();
        proof {
            chunk.lemma_len_of_height();
            lemma_in_bounds_slot(o.y, chunk.height_spec(), y);
        }
        let slot = ((y - o.y) / 32) as usize;
        let ghost before = *chunk;
        chunk.assign_subchunk_voxels(slot, v);
        proof {
            assert forall|j: int| 0 <= j < chunk.subchunks_view().len() implies {
                let s = #[trigger] chunk.subchunks_view()[j];
                let yj = o.y + 32 * j;
                &&& s.lights_view() == old(chunk).subchunks_view()[j].lights_view()
                &&& s.origin_spec() == old(chunk).subchunks_view()[j].origin_spec()
                &&& forall|k: int|
                    intermediate@.len() <= k < acc.len() && acc[k].0 == yj ==> s.voxels_view()
                        == stored_values(acc[k].1, acc[k].2, acc[k].3) && s.palette_view() == acc[k].1
                        && s.bits() == acc[k].2 && s.words_raw() == acc[k].3
                &&& (forall|k: int| intermediate@.len() <= k < acc.len() ==> acc[k].0 != yj) ==> s.voxels_view()
                    == Seq::new(32768, |q: int| 0u16) && s.palette_view() == seq![0u16] && s.bits() == 0
            } by {
                let yj = o.y + 32 * j;
                let s0 = before.subchunks_view()[j];
                if j == slot {
                    assert(yj == y);
                    assert forall|k: int| intermediate@.len() <= k < acc.len() && acc[k].0 == yj implies k == m by {
                        if k != m {
                            assert(acc[k].0 != acc[m].0);
                        }
                    }
                } else {
                    assert(yj != y);
                    assert(chunk.subchunks_view()[j] == s0);
                    if forall|k: int| intermediate@.len() <= k < acc.len() ==> acc[k].0 != yj {
                        assert forall|k: int| intermediate@.len() + 1 <= k < acc.len() implies acc[k].0 != yj by {}
                    }
                }
            }
        }
    }
    proof {
        assert forall|j: int| 0 <= j < chunk.subchunks_view().len() implies {
            let s = #[trigger] chunk.subchunks_view()[j];
            let yj = o.y + 32 * j;
            &&& forall|k: int|
                0 <= k < acc.len() && acc[k].0 == yj ==> s.voxels_view() == stored_values(acc[k].1, acc[k].2, acc[k].3)
                    && s.palette_view() == acc[k].1 && s.bits() == acc[k].2 && s.words_raw() == acc[k].3
        } by {
        }
    }
    chunk.set_revision(header.revision);
    Ok(())
}

/// What reading a chunk gives when it succeeds: the origin in its header and its format.
pub struct ChunkReadSuccess {
    pub origin: IVec3,
    pub format: ChunkFormat,
}

/// Whether a region with this id can be added: its origin leaves room for a region below the
/// largest coordinate.
pub open spec fn region_loadable(id: u64) -> bool {
    crate::region::id_x(id) <= i32::MAX - 512 && crate::region::id_z(id) <= i32::MAX - 512
}

/// The chunk c holds the decoded sections ds at revision rev: each subchunk that a section
/// names holds that section's voxels, and every other subchunk is air.
pub open spec fn chunk_holds(c: Chunk, ds: Seq<Decoded>, rev: u64) -> bool {
    &&& c.revision_spec() == rev
    &&& forall|j: int|
        0 <= j < c.subchunks_view().len() ==> {
            let s = #[trigger] c.subchunks_view()[j];
            let y = c.origin_spec().y + 32 * j;
            &&& forall|i: int|
                0 <= i < ds.len() && ds[i].0 == y ==> s.voxels_view() == stored_values(ds[i].1, ds[i].2, ds[i].3)
                    && s.palette_view() == ds[i].1 && s.bits() == ds[i].2 && s.words_raw() == ds[i].3
            &&& (forall|i: int| 0 <= i < ds.len() ==> ds[i].0 != y) ==> s.voxels_view() == Seq::new(
                32768,
                |k: int| 0u16,
            ) && s.palette_view() == seq![0u16] && s.bits() == 0
        }
}

/// What reading the encoded chunk b into the world leaves in w: the chunk that the header
/// names holds its sections, or the result is the error that reading them meets first.
pub open spec fn span_read_outcome(w: World, b: Seq<u8>, r: Result<ChunkReadSuccess, ChunkReadError>) -> bool {
    let hdr = chunk_header_of(b);
    let xz = IVec2 { x: hdr.origin.x, y: hdr.origin.z };
    find_region(w.regions_view(), region_id_of(xz)) matches Some(j) && {
        let c = w.regions_view()[j].chunks_view()[crate::region::chunk_index(xz)];
        let parsed = parse_sections(
            b,
            32,
            hdr.length as nat,
            c.origin_spec(),
            mask_end(c.origin_spec().y),
            mask_end((c.origin_spec().y + c.height_spec()) as i32),
            Set::empty(),
        );
        &&& hdr.format != 1 ==> (r matches Err(ChunkReadError::UnsupportedFormat(f)) && f == hdr.format)
        &&& hdr.format == 1 ==> match parsed {
            Ok((ds, end)) => r matches Ok(s) && s.origin == hdr.origin && s.format == ChunkFormat::V1
                && chunk_holds(c, ds, hdr.revision),
            Err(e) => r matches Err(e2) && e2 == e,
        }
    }
}

/// Reading a chunk's own encoded data into a world that has its region puts the chunk's
/// revision into the chunk at its origin, where the read succeeds.
pub proof fn lemma_read_back_revision(
    w: World,
    c: crate::chunk::Chunk,
    r: Result<ChunkReadSuccess, ChunkReadError>,
)
    requires
        span_read_outcome(w, crate::chunk::chunk_bytes(c), r),
        r is Ok,
    ensures
        ({
            let xz = IVec2 { x: c.origin_spec().x, y: c.origin_spec().z };
            find_region(w.regions_view(), region_id_of(xz)) matches Some(j)
                && w.regions_view()[j].chunks_view()[crate::region::chunk_index(xz)].revision_spec()
                == c.revision_spec()
        }),
{
    crate::chunk::lemma_chunk_bytes_header(c);
}

/// Zipped chunk data, unzipped.
pub struct UnzippedChunk(pub UnzippedSpan);

impl UnzippedChunk {
    /// Unzip zipped chunk data.
    pub fn unzip(data: &[u8]) -> (r: Result<UnzippedChunk, UnzipError>)
        ensures
            r is Ok <==> unzipped(data@) is Some,
            r matches Ok(c) ==> Some(c.0@) == unzipped(data@),
            forall|input: Seq<u8>, level: i32|
                data@ == #[trigger] zstd_zipped(input, level) && input.len() <= max_unzipped_size() ==> (r matches Ok(c)
                    && c.0@ == input),
    {
        match UnzippedSpan::unzip(data) {
            Ok(span) => Ok(UnzippedChunk(span)),
            Err(e) => Err(e),
        }
    }

    /// The chunk header at the start of the data, if the data is long enough.
    pub fn header(&self) -> (r: Option<ChunkHeader>)
        ensures
            self.0@.len() < 32 ==> r is None,
            self.0@.len() >= 32 ==> r == Some(chunk_header_of(self.0@)),
    {
        let s = self.0.as_slice();
        if s.len() < 32 {
            None
        } else {
            Some(ChunkHeader::from_bytes(s))
        }
    }
}

/// Read a chunk's data from an unzipped span into the world. If `allow_region_load` is set, the
/// region that holds the chunk is added when the world does not have it yet.
pub fn read_chunk_from_span(world: &mut World, span: UnzippedSpan, allow_region_load: bool) -> (r: Result<
    ChunkReadSuccess,
    ChunkReadError,
>)
    requires
        old(world).wf(),
    ensures
        final(world).wf(),
        final(world).min_y_spec() == old(world).min_y_spec(),
        final(world).max_y_spec() == old(world).max_y_spec(),
        span@.len() < 32 ==> (r matches Err(ChunkReadError::UnexpectedEoi { requested, available })
            && requested == 32 && available == span@.len() && *final(world) == *old(world)),
        span@.len() >= 32 ==> {
            let hdr = chunk_header_of(span@);
            let xz = IVec2 { x: hdr.origin.x, y: hdr.origin.z };
            let id = region_id_of(xz);
            &&& (find_region(old(world).regions_view(), id) is None && !(allow_region_load
                && region_loadable(id))) ==> (r matches Err(ChunkReadError::RegionNotExists(v)) && v
                == xz && *final(world) == *old(world))
            &&& (find_region(old(world).regions_view(), id) is Some || (allow_region_load
                && region_loadable(id))) ==> span_read_outcome(*final(world), span@, r)
        },
{
    world.read_span(&span, allow_region_load)
}

} // verus!
