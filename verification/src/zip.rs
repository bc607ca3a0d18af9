use vstd::prelude::*;

verus! {

#[verifier::external_type_specification]
#[verifier::external_body]
pub struct ExIoError(std::io::Error);

#[verifier::external_type_specification]
#[verifier::external_body]
pub struct ExDecompressError(lz4_flex::block::DecompressError);

/// A zstd streaming encoder that writes its frame into memory.
#[verifier::external_body]
pub struct ZstdStream {
    encoder: zstd::stream::write::Encoder<'static, Vec<u8>>,
}

/// An lz4 frame encoder that writes its frame into memory.
#[verifier::external_body]
pub struct Lz4Stream {
    encoder: lz4_flex::frame::FrameEncoder<Vec<u8>>,
}

/// What zstd decompresses src into, into a buffer of `capacity` bytes: None where it fails.
pub uninterp spec fn zstd_decompressed(src: Seq<u8>, capacity: usize) -> Option<Seq<u8>>;

/// The zstd frame that zstd's streaming encoder writes for input at a compression level.
pub uninterp spec fn zstd_frame(input: Seq<u8>, level: i32) -> Seq<u8>;

/// The bytes written so far into a zstd streaming encoder.
pub uninterp spec fn zstd_encoder_written(e: ZstdStream) -> Seq<u8>;

/// The compression level that a zstd streaming encoder was made with.
pub uninterp spec fn zstd_encoder_level(e: ZstdStream) -> i32;

/// What the lz4 block decompressor makes of src, into a buffer of `capacity` bytes: None where
/// it fails.
pub uninterp spec fn lz4_block_decompressed(src: Seq<u8>, capacity: usize) -> Option<Seq<u8>>;

/// The lz4 frame that lz4_flex's frame encoder, with its default settings, writes for input
/// when its first non-empty write held `first_write` bytes: that length picks the frame's block
/// size.
pub uninterp spec fn lz4_frame(input: Seq<u8>, first_write: nat) -> Seq<u8>;

/// The length of the first non-empty write into an lz4 frame encoder, or 0 before one.
pub uninterp spec fn lz4_encoder_first_write(e: Lz4Stream) -> nat;

/// The bytes written so far into an lz4 frame encoder.
pub uninterp spec fn lz4_encoder_written(e: Lz4Stream) -> Seq<u8>;

/// The bytes of an Ok result.
pub open spec fn ok_bytes<E>(r: Result<Vec<u8>, E>) -> Option<Seq<u8>> {
    match r {
        Ok(v) => Some(v@),
        Err(_) => None,
    }
}

/// Whether `out` is the input of src, wherever src is a zstd frame of an input that fits in
/// `capacity` bytes.
pub open spec fn gives_back_every_frame(src: Seq<u8>, capacity: usize, out: Option<Seq<u8>>) -> bool {
    forall|input: Seq<u8>, level: i32|
        src == #[trigger] zstd_frame(input, level) && input.len() <= capacity ==> out == Some(input)
}

/// Calls `zstd::bulk::decompress_to_buffer` with a zeroed buffer of `capacity` bytes and keeps
/// the bytes it reports written. The result is named by `zstd_decompressed`; zstd is lossless,
/// so a frame that zstd's encoder made of an input no longer than `capacity` gives the input
/// back.
#[verifier::external_body]
fn zstd_decompress_to_buffer(src: &[u8], capacity: usize) -> (r: Result<Vec<u8>, std::io::Error>)
    ensures
        r is Ok <==> zstd_decompressed(src@, capacity) is Some,
        r matches Ok(v) ==> zstd_decompressed(src@, capacity) == Some(v@),
        gives_back_every_frame(src@, capacity, ok_bytes(r)),
{
    let mut buf = vec![0u8; capacity];
    match zstd::bulk::decompress_to_buffer(src, &mut buf) {
        Ok(n) => {
            buf.truncate(n);
            Ok(buf)
        },
        Err(e) => Err(e),
    }
}

/// Calls `lz4_flex::decompress_into` (the block format) with a zeroed buffer of `capacity`
/// bytes and keeps the bytes it reports written. The result is named by
/// `lz4_block_decompressed`.
#[verifier::external_body]
fn lz4_decompress_into(src: &[u8], capacity: usize) -> (r: Result<
    Vec<u8>,
    lz4_flex::block::DecompressError,
>)
    ensures
        r is Ok <==> lz4_block_decompressed(src@, capacity) is Some,
        r matches Ok(v) ==> lz4_block_decompressed(src@, capacity) == Some(v@),
{
    let mut buf = vec![0u8; capacity];
    match lz4_flex::decompress_into(src, &mut buf) {
        Ok(n) => {
            buf.truncate(n);
            Ok(buf)
        },
        Err(e) => Err(e),
    }
}

/// Calls `zstd::stream::write::Encoder::new` on an empty Vec at a level. zstd accepts the
/// levels 1 to 22 and reports no error for them.
#[verifier::external_body]
fn zstd_encoder_new(level: i32) -> (r: ZstdStream)
    requires
        1 <= level <= 22,
    ensures
        zstd_encoder_written(r) == Seq::<u8>::empty(),
        zstd_encoder_level(r) == level,
{
    ZstdStream { encoder: zstd::stream::write::Encoder::new(Vec::new(), level).unwrap() }
}

/// Calls `std::io::Write::write_all` on a zstd streaming encoder, which takes all the bytes;
/// writing into memory reports no error.
#[verifier::external_body]
fn zstd_encoder_write(e: &mut ZstdStream, data: &[u8])
    ensures
        zstd_encoder_written(*final(e)) == zstd_encoder_written(*old(e)) + data@,
        zstd_encoder_level(*final(e)) == zstd_encoder_level(*old(e)),
{
    std::io::Write::write_all(&mut e.encoder, data).unwrap()
}

/// Calls `zstd::stream::write::Encoder::finish`, which returns the Vec that holds the frame of
/// everything written; finishing into memory reports no error.
#[verifier::external_body]
fn zstd_encoder_finish(e: ZstdStream) -> (r: Vec<u8>)
    ensures
        r@ == zstd_frame(zstd_encoder_written(e), zstd_encoder_level(e)),
{
    e.encoder.finish().unwrap()
}

/// Calls `lz4_flex::frame::FrameEncoder::new` on an empty Vec.
#[verifier::external_body]
fn lz4_encoder_new() -> (r: Lz4Stream)
    ensures
        lz4_encoder_written(r) == Seq::<u8>::empty(),
        lz4_encoder_first_write(r) == 0,
{
    Lz4Stream { encoder: lz4_flex::frame::FrameEncoder::new(Vec::new()) }
}

/// Calls `std::io::Write::write_all` on an lz4 frame encoder, which takes all the bytes;
/// writing into memory reports no error. The first non-empty write opens the frame, and its
/// length is kept: it picks the block size.
#[verifier::external_body]
fn lz4_encoder_write(e: &mut Lz4Stream, data: &[u8])
    ensures
        lz4_encoder_written(*final(e)) == lz4_encoder_written(*old(e)) + data@,
        lz4_encoder_first_write(*final(e)) == if lz4_encoder_first_write(*old(e)) == 0 {
            data@.len()
        } else {
            lz4_encoder_first_write(*old(e))
        },
{
    std::io::Write::write_all(&mut e.encoder, data).unwrap()
}

/// Calls `lz4_flex::frame::FrameEncoder::finish`, which returns the Vec that holds the frame of
/// everything written, with the block size that the first non-empty write picked; finishing
/// into memory reports no error.
#[verifier::external_body]
fn lz4_encoder_finish(e: Lz4Stream) -> (r: Vec<u8>)
    ensures
        r@ == lz4_frame(lz4_encoder_written(e), lz4_encoder_first_write(e)),
{
    e.encoder.finish().unwrap()
}

/// The little-endian u32 at offset i of s.
pub open spec fn le_u32(s: Seq<u8>, i: int) -> nat {
    (s[i] + 256 * s[i + 1] + 65536 * s[i + 2] + 16777216 * s[i + 3]) as nat
}

/// The four little-endian bytes of v.
pub open spec fn le_bytes_u32(v: nat) -> Seq<u8> {
    seq![(v % 256) as u8, ((v / 256) % 256) as u8, ((v / 65536) % 256) as u8, ((v / 16777216) % 256) as u8]
}

/// The little-endian u32 at offset i of s.
pub fn read_u32_le(s: &[u8], i: usize) -> (r: u32)
    requires
        i + 4 <= s@.len(),
    ensures
        r == le_u32(s@, i as int),
{
    (s[i] as u32) + (s[i + 1] as u32) * 256 + (s[i + 2] as u32) * 65536 + (s[i + 3] as u32) * 16777216
}

/// Push the four little-endian bytes of v.
pub fn push_u32_le(buf: &mut Vec<u8>, v: u32)
    ensures
        final(buf)@ == old(buf)@ + le_bytes_u32(v as nat),
{
    buf.push((v % 256) as u8);
    buf.push(((v / 256) % 256) as u8);
    buf.push(((v / 65536) % 256) as u8);
    buf.push(((v / 16777216) % 256) as u8);
    assert(buf@ =~= old(buf)@ + le_bytes_u32(v as nat));
}

/// Reading the little-endian bytes of v gives v back.
pub proof fn lemma_le_u32_roundtrip(v: u32, prefix: Seq<u8>, suffix: Seq<u8>)
    ensures
        le_u32(prefix + le_bytes_u32(v as nat) + suffix, prefix.len() as int) == v,
{
    let s = prefix + le_bytes_u32(v as nat) + suffix;
    let i = prefix.len() as int;
    assert(s[i] == (v % 256) as u8);
    assert(s[i + 1] == ((v / 256) % 256) as u8);
    assert(s[i + 2] == ((v / 65536) % 256) as u8);
    assert(s[i + 3] == ((v / 16777216) % 256) as u8);
    assert((v % 256) + 256 * ((v / 256) % 256) + 65536 * ((v / 65536) % 256) + 16777216 * ((v
        / 16777216) % 256) == v) by (nonlinear_arith);
}

/// The compression algorithm of zipped data.
#[derive(Copy, Clone, Eq, PartialEq, Debug, Structural)]
pub enum Algorithm {
    Zstd,
    Lz4,
}

/// Why zipped data could not be unzipped.
#[derive(Debug)]
pub enum UnzipError {
    /// The data ended before its header did.
    UnexpectedEoi { requested: usize, available: usize },
    /// The unzipped size is over 5_000_000 bytes.
    TooBig(usize),
    /// The algorithm id is not one of the known algorithms.
    UnknownAlgorithm(u32),
    /// zstd failed while unzipping.
    AlgorithmFailed(std::io::Error),
    /// lz4 failed while unzipping.
    Lz4Failed(lz4_flex::block::DecompressError),
}

/// The id stored for an algorithm.
pub open spec fn algorithm_id(a: Algorithm) -> u32 {
    match a {
        Algorithm::Zstd => 0,
        Algorithm::Lz4 => 1,
    }
}

impl Algorithm {
    /// The algorithm with this id.
    pub fn from_u32(u: u32) -> (r: Result<Algorithm, UnzipError>)
        ensures
            u == 0 ==> r matches Ok(Algorithm::Zstd),
            u == 1 ==> r matches Ok(Algorithm::Lz4),
            u > 1 ==> (r matches Err(UnzipError::UnknownAlgorithm(v)) && v == u),
    {
        if u == 0 {
            Ok(Algorithm::Zstd)
        } else if u == 1 {
            Ok(Algorithm::Lz4)
        } else {
            Err(UnzipError::UnknownAlgorithm(u))
        }
    }

    /// The id stored for the algorithm.
    pub fn as_u32(self) -> (r: u32)
        ensures
            r == algorithm_id(self),
    {
        match self {
            Algorithm::Zstd => 0,
            Algorithm::Lz4 => 1,
        }
    }
}

impl Default for Algorithm {
    fn default() -> (r: Algorithm)
        ensures
            r == Algorithm::Zstd,
    {
        Algorithm::Zstd
    }
}

/// How hard to compress.
#[derive(Copy, Clone, Eq, PartialEq, Debug, Structural)]
pub enum ZipLevel {
    Low,
    Medium,
    High,
    Ultra,
}

impl Default for ZipLevel {
    fn default() -> (r: ZipLevel)
        ensures
            r == ZipLevel::Medium,
    {
        ZipLevel::Medium
    }
}

/// The zstd level of a zip level.
pub open spec fn zstd_level_of(level: ZipLevel) -> i32 {
    match level {
        ZipLevel::Low => 1,
        ZipLevel::Medium => 3,
        ZipLevel::High => 5,
        ZipLevel::Ultra => 7,
    }
}

impl ZipLevel {
    /// The zstd compression level used for this zip level.
    pub fn zstd_level(self) -> (r: i32)
        ensures
            r == zstd_level_of(self),
    {
        match self {
            ZipLevel::Low => 1,
            ZipLevel::Medium => 3,
            ZipLevel::High => 5,
            ZipLevel::Ultra => 7,
        }
    }
}

/// The most bytes that zipped data may unzip to.
pub open spec fn max_unzipped_size() -> nat {
    5_000_000
}

/// What zipped data unzips to: the unzipped size and the algorithm, each a little-endian u32,
/// then the compressed bytes.
pub open spec fn unzipped(src: Seq<u8>) -> Option<Seq<u8>> {
    if src.len() < 8 || le_u32(src, 0) > max_unzipped_size() {
        None
    } else if le_u32(src, 4) == 0 {
        zstd_decompressed(src.subrange(8, src.len() as int), le_u32(src, 0) as usize)
    } else if le_u32(src, 4) == 1 {
        lz4_block_decompressed(src.subrange(8, src.len() as int), le_u32(src, 0) as usize)
    } else {
        None
    }
}

/// The data that a zstd zipper writes for input at a zstd level.
pub open spec fn zstd_zipped(input: Seq<u8>, level: i32) -> Seq<u8> {
    le_bytes_u32(input.len() % 0x1_0000_0000) + le_bytes_u32(0) + zstd_frame(input, level)
}

/// The data that an lz4 zipper writes for input.
pub open spec fn lz4_zipped(input: Seq<u8>, first_write: nat) -> Seq<u8> {
    le_bytes_u32(input.len() % 0x1_0000_0000) + le_bytes_u32(1) + lz4_frame(input, first_write)
}

/// The bytes of a span that was made by decompressing zipped data.
pub struct UnzippedSpan {
    data: Vec<u8>,
}

impl UnzippedSpan {
    pub closed spec fn view(&self) -> Seq<u8> {
        self.data@
    }

    /// Decompress zipped data. The unzipped size (u32) and algorithm (u32) are the first 8
    /// bytes of src.
    pub fn unzip(src: &[u8]) -> (r: Result<UnzippedSpan, UnzipError>)
        ensures
            r is Ok <==> unzipped(src@) is Some,
            r matches Ok(span) ==> Some(span@) == unzipped(src@),
            src@.len() < 4 ==> (r matches Err(UnzipError::UnexpectedEoi { requested, available })
                && requested == 4 && available == src@.len()),
            src@.len() >= 4 && le_u32(src@, 0) > max_unzipped_size() ==> (r matches Err(
                UnzipError::TooBig(n),
            ) && n == le_u32(src@, 0)),
            src@.len() >= 4 && le_u32(src@, 0) <= max_unzipped_size() && src@.len() < 8 ==> (
            r matches Err(UnzipError::UnexpectedEoi { requested, available }) && requested == 4
                && available == src@.len() - 4),
            src@.len() >= 8 && le_u32(src@, 0) <= max_unzipped_size() && le_u32(src@, 4) > 1 ==> (
            r matches Err(UnzipError::UnknownAlgorithm(a)) && a == le_u32(src@, 4)),
            forall|input: Seq<u8>, level: i32|
                src@ == #[trigger] zstd_zipped(input, level) && input.len()
                    <= max_unzipped_size() ==> (r matches Ok(span) && span@ == input),
    {
        let n = src.len();
        if n < 4 {
            return Err(UnzipError::UnexpectedEoi { requested: 4, available: n });
        }
        let unzipped_size = read_u32_le(src, 0) as usize;
        if unzipped_size > 5_000_000 {
            return Err(UnzipError::TooBig(unzipped_size));
        }
        if n < 8 {
            return Err(UnzipError::UnexpectedEoi { requested: 4, available: n - 4 });
        }
        let algorithm = match Algorithm::from_u32(read_u32_le(src, 4)) {
            Ok(a) => a,
            Err(e) => {
                return Err(e);
            },
        };
        let rest = &src[8..n];
        proof {
            assert(rest@ == src@.subrange(8, src@.len() as int));
            assert forall|input: Seq<u8>, level: i32|
                src@ == #[trigger] zstd_zipped(input, level) && input.len()
                    <= max_unzipped_size() implies le_u32(src@, 0) == input.len() && le_u32(src@, 4)
                == 0 && rest@ == zstd_frame(input, level) by {
                let a = le_bytes_u32(input.len() % 0x1_0000_0000);
                let b = le_bytes_u32(0);
                lemma_le_u32_roundtrip((input.len() % 0x1_0000_0000) as u32, Seq::empty(), b + zstd_frame(input, level));
                assert(Seq::<u8>::empty() + a + (b + zstd_frame(input, level)) =~= src@);
                lemma_le_u32_roundtrip(0, a, zstd_frame(input, level));
                assert(a + b + zstd_frame(input, level) =~= src@);
                assert(rest@ =~= zstd_frame(input, level));
            }
        }
        match algorithm {
            Algorithm::Zstd => match zstd_decompress_to_buffer(rest, unzipped_size) {
                Ok(data) => Ok(UnzippedSpan { data }),
                Err(e) => Err(UnzipError::AlgorithmFailed(e)),
            },
            Algorithm::Lz4 => match lz4_decompress_into(rest, unzipped_size) {
                Ok(data) => Ok(UnzippedSpan { data }),
                Err(e) => Err(UnzipError::Lz4Failed(e)),
            },
        }
    }

    /// A reader over the span's bytes.
    pub fn reader(&self) -> (r: SpanReader<'_>)
        ensures
            r.wf(),
            r@ == self@,
            r.total() == self@,
            r.consumed() == 0,
    {
        let r = SpanReader { data: self.data.as_slice(), pos: 0 };
        assert(r@ =~= self@);
        r
    }

    /// The span's bytes.
    pub fn as_slice(&self) -> (r: &[u8])
        ensures
            r@ == self@,
    {
        self.data.as_slice()
    }
}

/// A request for more bytes than a reader had left.
#[derive(Copy, Clone, Eq, PartialEq, Debug, Structural)]
pub struct EndOfInput {
    pub requested: usize,
    pub available: usize,
}

/// A reader for getting bytes from an unzipped span, front to back.
pub struct SpanReader<'a> {
    data: &'a [u8],
    pos: usize,
}

impl<'a> SpanReader<'a> {
    /// The bytes that are left.
    pub closed spec fn view(&self) -> Seq<u8> {
        self.data@.subrange(self.pos as int, self.data@.len() as int)
    }

    pub closed spec fn wf(&self) -> bool {
        self.pos <= self.data@.len()
    }

    /// All the bytes the reader reads from, taken or not.
    pub closed spec fn total(&self) -> Seq<u8> {
        self.data@
    }

    /// The number of bytes taken so far.
    pub closed spec fn consumed(&self) -> nat {
        self.pos as nat
    }

    /// The bytes left are those of the total after the ones taken.
    pub proof fn lemma_parts(&self)
        requires
            self.wf(),
        ensures
            self@ == self.total().subrange(self.consumed() as int, self.total().len() as int),
            self.consumed() <= self.total().len(),
    {
    }

    /// The number of bytes taken so far.
    pub fn position(&self) -> (r: usize)
        ensures
            r == self.consumed(),
    {
        self.pos
    }

    /// A reader over all of data.
    pub fn new(data: &'a [u8]) -> (r: SpanReader<'a>)
        ensures
            r.wf(),
            r@ == data@,
            r.total() == data@,
            r.consumed() == 0,
    {
        let r = SpanReader { data, pos: 0 };
        assert(r@ =~= data@);
        r
    }

    /// The bytes that are left.
    pub fn as_slice(&self) -> (r: &'a [u8])
        requires
            self.wf(),
        ensures
            r@ == self@,
    {
        &self.data[self.pos..self.data.len()]
    }

    /// The number of bytes that are left.
    pub fn remaining(&self) -> (r: usize)
        requires
            self.wf(),
        ensures
            r == self@.len(),
    {
        self.data.len() - self.pos
    }

    /// Take the next `count` bytes.
    pub fn take_slice(&mut self, count: usize) -> (r: Result<&'a [u8], EndOfInput>)
        requires
            old(self).wf(),
        ensures
            final(self).wf(),
            count <= old(self)@.len() ==> (r matches Ok(s) && s@ == old(self)@.subrange(0, count as int)
                && final(self)@ == old(self)@.subrange(count as int, old(self)@.len() as int)),
            count > old(self)@.len() ==> r == Err::<&[u8], EndOfInput>(
                EndOfInput { requested: count, available: old(self)@.len() as usize },
            ) && final(self)@ == old(self)@,
            final(self).total() == old(self).total(),
            count <= old(self)@.len() ==> final(self).consumed() == old(self).consumed() + count,
            count > old(self)@.len() ==> final(self).consumed() == old(self).consumed(),
    {
        self.take(count)
    }

    /// Take the next `count` bytes.
    pub fn take(&mut self, count: usize) -> (r: Result<&'a [u8], EndOfInput>)
        requires
            old(self).wf(),
        ensures
            final(self).wf(),
            count <= old(self)@.len() ==> (r matches Ok(s) && s@ == old(self)@.subrange(0, count as int)
                && final(self)@ == old(self)@.subrange(count as int, old(self)@.len() as int)),
            count > old(self)@.len() ==> r == Err::<&[u8], EndOfInput>(
                EndOfInput { requested: count, available: old(self)@.len() as usize },
            ) && final(self)@ == old(self)@,
            final(self).total() == old(self).total(),
            count <= old(self)@.len() ==> final(self).consumed() == old(self).consumed() + count,
            count > old(self)@.len() ==> final(self).consumed() == old(self).consumed(),
    {
        let rem = self.data.len() - self.pos;
        if rem < count {
            return Err(EndOfInput { requested: count, available: rem });
        }
        let start = self.pos;
        self.pos = self.pos + count;
        let s = &self.data[start..start + count];
        assert(s@ =~= old(self)@.subrange(0, count as int));
        assert(self@ =~= old(self)@.subrange(count as int, old(self)@.len() as int));
        Ok(s)
    }

    /// Skip the next `count` bytes.
    pub fn advance(&mut self, count: usize) -> (r: Result<(), EndOfInput>)
        requires
            old(self).wf(),
        ensures
            final(self).wf(),
            count <= old(self)@.len() ==> r is Ok && final(self)@ == old(self)@.subrange(
                count as int,
                old(self)@.len() as int,
            ),
            count > old(self)@.len() ==> r == Err::<(), EndOfInput>(
                EndOfInput { requested: count, available: old(self)@.len() as usize },
            ) && final(self)@ == old(self)@,
            final(self).total() == old(self).total(),
            count <= old(self)@.len() ==> final(self).consumed() == old(self).consumed() + count,
            count > old(self)@.len() ==> final(self).consumed() == old(self).consumed(),
    {
        match self.take(count) {
            Ok(_) => Ok(()),
            Err(e) => Err(e),
        }
    }
}

pub(crate) proof fn lemma_truncate_u32(n: usize)
    ensures
        (n as u32) == (n as int) % 0x1_0000_0000,
{
    let m = n as u64;
    assert((m as u32) == m % 0x1_0000_0000u64) by (bit_vector);
}

/// Writes compressed data, framed by the unzipped size and the algorithm id.
pub trait Zipper: Sized {
    /// The bytes put so far.
    spec fn input(&self) -> Seq<u8>;

    /// The data that finishing now gives.
    spec fn zipped(&self) -> Seq<u8>;

    spec fn wf(&self) -> bool;

    /// The settings the zipper compresses with, which putting bytes keeps.
    spec fn config(&self) -> int;

    /// The length of the first non-empty put, or 0 before one.
    spec fn first_put(&self) -> nat;

    /// A zipper with nothing put yet. `buf` is a buffer that may be reused.
    fn init(buf: Vec<u8>, level: ZipLevel) -> (r: Self)
        ensures
            r.wf(),
            r.input() == Seq::<u8>::empty(),
            r.first_put() == 0,
    ;

    /// Put bytes.
    fn put(&mut self, data: &[u8])
        requires
            old(self).wf(),
            old(self).input().len() + data@.len() <= usize::MAX,
        ensures
            final(self).wf(),
            final(self).input() == old(self).input() + data@,
            final(self).config() == old(self).config(),
            final(self).first_put() == if old(self).first_put() == 0 {
                data@.len()
            } else {
                old(self).first_put()
            },
    ;

    /// The zipped data.
    fn finish(self) -> (r: Vec<u8>)
        requires
            self.wf(),
        ensures
            r@ == self.zipped(),
    ;
}

/// Zips with zstd.
pub struct ZstdZipper {
    encoder: ZstdStream,
    unzipped_size: usize,
    first: Ghost<nat>,
}

impl ZstdZipper {
    /// The zstd level the zipper compresses at.
    pub closed spec fn level(&self) -> i32 {
        zstd_encoder_level(self.encoder)
    }

    /// The number of bytes put so far.
    pub fn len(&self) -> (r: usize)
        requires
            self.wf(),
        ensures
            r == self.input().len(),
    {
        self.unzipped_size
    }
}

impl Zipper for ZstdZipper {
    closed spec fn input(&self) -> Seq<u8> {
        zstd_encoder_written(self.encoder)
    }

    open spec fn zipped(&self) -> Seq<u8> {
        zstd_zipped(self.input(), self.level())
    }

    closed spec fn wf(&self) -> bool {
        self.unzipped_size == zstd_encoder_written(self.encoder).len()
    }

    open spec fn config(&self) -> int {
        self.level() as int
    }

    closed spec fn first_put(&self) -> nat {
        self.first@
    }

    fn init(buf: Vec<u8>, level: ZipLevel) -> (r: ZstdZipper)
        ensures
            r.level() == zstd_level_of(level),
    {
        ZstdZipper { encoder: zstd_encoder_new(level.zstd_level()), unzipped_size: 0, first: Ghost(0) }
    }

    fn put(&mut self, data: &[u8]) {
        proof {
            if self.first@ == 0 {
                self.first@ = data@.len();
            }
        }
        zstd_encoder_write(&mut self.encoder, data);
        self.unzipped_size = self.unzipped_size + data.len();
    }

    fn finish(self) -> (r: Vec<u8>) {
        let size = self.unzipped_size;
        let mut frame = zstd_encoder_finish(self.encoder);
        let mut out: Vec<u8> = Vec::new();
        proof {
            lemma_truncate_u32(size);
        }
        push_u32_le(&mut out, size as u32);
        push_u32_le(&mut out, Algorithm::Zstd.as_u32());
        out.append(&mut frame);
        out
    }
}

/// Zips with lz4 frames.
pub struct Lz4Zipper {
    encoder: Lz4Stream,
    unzipped_size: usize,
}

impl Lz4Zipper {
    /// The number of bytes put so far.
    pub fn len(&self) -> (r: usize)
        requires
            self.wf(),
        ensures
            r == self.input().len(),
    {
        self.unzipped_size
    }
}

impl Zipper for Lz4Zipper {
    closed spec fn input(&self) -> Seq<u8> {
        lz4_encoder_written(self.encoder)
    }

    open spec fn zipped(&self) -> Seq<u8> {
        lz4_zipped(self.input(), self.first_put())
    }

    closed spec fn wf(&self) -> bool {
        self.unzipped_size == lz4_encoder_written(self.encoder).len()
    }

    open spec fn config(&self) -> int {
        0
    }

    closed spec fn first_put(&self) -> nat {
        lz4_encoder_first_write(self.encoder)
    }

    fn init(buf: Vec<u8>, level: ZipLevel) -> (r: Lz4Zipper) {
        Lz4Zipper { encoder: lz4_encoder_new(), unzipped_size: 0 }
    }

    fn put(&mut self, data: &[u8]) {
        self.unzipped_size = self.unzipped_size + data.len();
        lz4_encoder_write(&mut self.encoder, data);
    }

    fn finish(self) -> (r: Vec<u8>) {
        let size = self.unzipped_size;
        let mut frame = lz4_encoder_finish(self.encoder);
        let mut out: Vec<u8> = Vec::new();
        proof {
            lemma_truncate_u32(size);
        }
        push_u32_le(&mut out, size as u32);
        push_u32_le(&mut out, Algorithm::Lz4.as_u32());
        out.append(&mut frame);
        out
    }
}

/// Decompress zipped data into a span. The unzipped size (u32) and algorithm (u32) are the
/// first 8 bytes of src.
pub fn unzip_to_span(src: &[u8]) -> (r: Result<UnzippedSpan, UnzipError>)
    ensures
        r is Ok <==> unzipped(src@) is Some,
        r matches Ok(span) ==> Some(span@) == unzipped(src@),
        src@.len() < 4 ==> (r matches Err(UnzipError::UnexpectedEoi { requested, available })
            && requested == 4 && available == src@.len()),
        src@.len() >= 4 && le_u32(src@, 0) > max_unzipped_size() ==> (r matches Err(
            UnzipError::TooBig(n),
        ) && n == le_u32(src@, 0)),
        src@.len() >= 4 && le_u32(src@, 0) <= max_unzipped_size() && src@.len() < 8 ==> (
        r matches Err(UnzipError::UnexpectedEoi { requested, available }) && requested == 4
            && available == src@.len() - 4),
        src@.len() >= 8 && le_u32(src@, 0) <= max_unzipped_size() && le_u32(src@, 4) > 1 ==> (
        r matches Err(UnzipError::UnknownAlgorithm(a)) && a == le_u32(src@, 4)),
        forall|input: Seq<u8>, level: i32|
            src@ == #[trigger] zstd_zipped(input, level) && input.len()
                <= max_unzipped_size() ==> (r matches Ok(span) && span@ == input),
{
    UnzippedSpan::unzip(src)
}

} // verus!
