//! Blocks: the 64-byte-quantum size rule, block trailers (size, signature,
//! CRC, owning block id), and leaf data blocks with their codec handling.
//! A block's on-disk footprint is `block_size(payload + trailer)`; the
//! trailer sits at the end of the footprint after zero padding, and its CRC
//! covers the (encoded) payload bytes only.

use vstd::prelude::*;
use crate::bytes::{
    read_u16, read_u32, read_u64, write_u16, write_u32, write_u64, spec_u16_at, spec_u32_at,
    spec_u64_at, spec_u16_bytes, spec_u32_bytes, spec_u64_bytes, lemma_u16_round_trip,
    lemma_u32_round_trip, lemma_u64_round_trip, lemma_u16_bytes_inverse, lemma_u32_bytes_inverse,
    lemma_u64_bytes_inverse, zero_bytes, write_zeros,
};
use crate::crc::{spec_crc, compute_crc};
use crate::encode::{NdbCryptMethod, decode_seq, encode_seq, decode_block, encode_block};
use crate::block_id::{UnicodeBlockId, AnsiBlockId};
use crate::error::{NdbError, NdbResult};

verus! {

broadcast use vstd::slice::group_slice_axioms;

pub const MAX_BLOCK_SIZE: u16 = 8192;

/// On-disk size of a block holding `size` bytes: at least 64, rounded up to
/// the next multiple of 64, capped at 8192.
pub open spec fn spec_block_size(size: u16) -> u16 {
    if size >= 8192 {
        8192
    } else if size <= 64 {
        64
    } else if size % 64 == 0 {
        size
    } else {
        (size - (size % 64) + 64) as u16
    }
}

pub fn block_size(size: u16) -> (r: u16)
    ensures
        r == spec_block_size(size),
{
    if size >= MAX_BLOCK_SIZE {
        MAX_BLOCK_SIZE
    } else {
        let size = if size < 64 { 64 } else { size };
        let tail = size % 64;
        if tail == 0 {
            size
        } else {
            size - tail + 64
        }
    }
}

/// Within the uncapped range, the size rule is exactly rounding up to a
/// multiple of 64.
pub proof fn lemma_block_size_round_up(n: u16)
    requires
        64 <= n <= 8192,
    ensures
        spec_block_size(n) == ((n + 63) / 64) * 64,
{
    let q = n as int / 64;
    let r = n as int % 64;
    vstd::arithmetic::div_mod::lemma_fundamental_div_mod(n as int, 64);
    if r == 0 {
        assert((n as int + 63) / 64 == q) by (nonlinear_arith)
            requires
                n == 64 * q + r && r == 0 && 1 <= q,
        ;
    } else {
        assert((n as int + 63) / 64 == q + 1) by (nonlinear_arith)
            requires
                n == 64 * q + r && 0 < r < 64 && 1 <= q,
        ;
    }
}

/// The footprint is always a multiple of 64 in `[64, 8192]`, and covers the
/// payload whenever the payload is not beyond the cap.
pub proof fn lemma_block_size_bounds(n: u16)
    ensures
        64 <= spec_block_size(n) <= 8192,
        spec_block_size(n) % 64 == 0,
        n <= 8192 ==> n <= spec_block_size(n),
{
}

pub const UNICODE_BLOCK_TRAILER_SIZE: u16 = 16;

pub const ANSI_BLOCK_TRAILER_SIZE: u16 = 12;

/// Common contract of the two block trailer widths, for code generic over
/// the variant: whether the trailer's block id carries the internal bit,
/// and the error a mismatch raises.
pub trait BlockTrailer: Sized {
    spec fn is_internal_spec(&self) -> bool;

    /// The error a kind mismatch raises: the width's trailer-id error,
    /// carrying the masked block id.
    spec fn id_error_spec(&self) -> NdbError;

    /// Checks that the trailer's block id agrees with the kind of block it
    /// closes (internal for tree blocks, external for data leaves).
    fn verify_block_id(&self, is_internal: bool) -> (r: NdbResult<()>)
        ensures
            (r matches Ok(_)) <==> self.is_internal_spec() == is_internal,
            r matches Err(e) ==> e == self.id_error_spec(),
    ;
}

/// BLOCKTRAILER, 64-bit width: `{ size, signature, crc, block id }`, 16
/// bytes, CRC before block id.
#[derive(Clone, Copy, Debug, Default, PartialEq, Eq, Structural)]
pub struct UnicodeBlockTrailer {
    pub size: u16,
    pub signature: u16,
    pub crc: u32,
    pub block_id: UnicodeBlockId,
}

impl UnicodeBlockTrailer {
    /// A trailer is well formed when its payload size fits between one byte
    /// and the largest footprint minus the trailer itself.
    pub open spec fn wf(&self) -> bool {
        1 <= self.size <= MAX_BLOCK_SIZE - UNICODE_BLOCK_TRAILER_SIZE
    }

    pub open spec fn cyclic_key_spec(&self) -> u32 {
        (self.block_id.masked_spec() & 0xFFFF_FFFF) as u32
    }

    pub fn new(size: u16, signature: u16, crc: u32, block_id: UnicodeBlockId) -> (r: NdbResult<
        Self,
    >)
        ensures
            (1 <= size <= MAX_BLOCK_SIZE - UNICODE_BLOCK_TRAILER_SIZE) ==> r == NdbResult::<
                Self,
            >::Ok(
                (UnicodeBlockTrailer { size, signature, crc, block_id }),
            ),
            !(1 <= size <= MAX_BLOCK_SIZE - UNICODE_BLOCK_TRAILER_SIZE) ==> r == NdbResult::<
                Self,
            >::Err(NdbError::InvalidBlockSize(size)),
    {
        if size < 1 || size > MAX_BLOCK_SIZE - UNICODE_BLOCK_TRAILER_SIZE {
            return Err(NdbError::InvalidBlockSize(size));
        }
        Ok(UnicodeBlockTrailer { size, signature, crc, block_id })
    }

    pub fn size(&self) -> (r: u16)
        ensures
            r == self.size,
    {
        self.size
    }

    pub fn signature(&self) -> (r: u16)
        ensures
            r == self.signature,
    {
        self.signature
    }

    pub fn crc(&self) -> (r: u32)
        ensures
            r == self.crc,
    {
        self.crc
    }

    pub fn block_id(&self) -> (r: UnicodeBlockId)
        ensures
            r == self.block_id,
    {
        self.block_id
    }

    /// The key of the cyclic codec: the low 32 bits of the owning block id,
    /// mutation bit masked.
    pub fn cyclic_key(&self) -> (r: u32)
        ensures
            r == self.cyclic_key_spec(),
    {
        (self.block_id.masked() & 0xFFFF_FFFF) as u32
    }
}

impl BlockTrailer for UnicodeBlockTrailer {
    open spec fn is_internal_spec(&self) -> bool {
        self.block_id.is_internal_spec()
    }

    open spec fn id_error_spec(&self) -> NdbError {
        NdbError::InvalidUnicodeBlockTrailerId(self.block_id.masked_spec())
    }

    fn verify_block_id(&self, is_internal: bool) -> (r: NdbResult<()>) {
        if self.block_id.is_internal() != is_internal {
            Err(NdbError::InvalidUnicodeBlockTrailerId(self.block_id.masked()))
        } else {
            Ok(())
        }
    }
}

/// The trailer decoded from 16 bytes at offset `i` of `s`.
pub open spec fn spec_parse_unicode_block_trailer(s: Seq<u8>, i: int) -> NdbResult<
    UnicodeBlockTrailer,
>
    recommends
        0 <= i,
        i + 16 <= s.len(),
{
    let size = spec_u16_at(s, i);
    if !(1 <= size <= MAX_BLOCK_SIZE - UNICODE_BLOCK_TRAILER_SIZE) {
        Err(NdbError::InvalidBlockSize(size))
    } else {
        Ok(
            (UnicodeBlockTrailer {
                size,
                signature: spec_u16_at(s, i + 2),
                crc: spec_u32_at(s, i + 4),
                block_id: UnicodeBlockId(spec_u64_at(s, i + 8)),
            }),
        )
    }
}

/// The 16 bytes of a trailer, in on-disk order.
pub open spec fn spec_unicode_block_trailer_bytes(t: UnicodeBlockTrailer) -> Seq<u8> {
    spec_u16_bytes(t.size) + spec_u16_bytes(t.signature) + spec_u32_bytes(t.crc) + spec_u64_bytes(
        t.block_id.raw_spec(),
    )
}

pub fn parse_unicode_block_trailer(b: &[u8], off: usize) -> (r: NdbResult<UnicodeBlockTrailer>)
    requires
        off + 16 <= b@.len(),
    ensures
        r == spec_parse_unicode_block_trailer(b@, off as int),
{
    let n: usize = b.len();
    let size = read_u16(b, off);
    if size < 1 || size > MAX_BLOCK_SIZE - UNICODE_BLOCK_TRAILER_SIZE {
        return Err(NdbError::InvalidBlockSize(size));
    }
    let signature = read_u16(b, off + 2);
    let crc = read_u32(b, off + 4);
    let block_id = UnicodeBlockId::from_raw(read_u64(b, off + 8));
    Ok(UnicodeBlockTrailer { size, signature, crc, block_id })
}

pub fn serialize_unicode_block_trailer(t: &UnicodeBlockTrailer, out: &mut Vec<u8>)
    ensures
        final(out)@ == old(out)@ + spec_unicode_block_trailer_bytes(*t),
{
    write_u16(out, t.size);
    write_u16(out, t.signature);
    write_u32(out, t.crc);
    write_u64(out, t.block_id.to_raw());
    proof {
        assert(out@ =~= old(out)@ + spec_unicode_block_trailer_bytes(*t));
    }
}

/// Parsing the serialized bytes of a well-formed trailer restores it.
pub proof fn lemma_unicode_block_trailer_round_trip(t: UnicodeBlockTrailer)
    requires
        t.wf(),
    ensures
        spec_parse_unicode_block_trailer(spec_unicode_block_trailer_bytes(t), 0) == NdbResult::<
            UnicodeBlockTrailer,
        >::Ok(t),
{
    let s = spec_unicode_block_trailer_bytes(t);
    assert(s.len() == 16);
    lemma_u16_round_trip(t.size);
    lemma_u16_round_trip(t.signature);
    lemma_u32_round_trip(t.crc);
    lemma_u64_round_trip(t.block_id.raw_spec());
    assert(spec_u16_at(s, 0) == t.size);
    assert(spec_u16_at(s, 2) == t.signature);
    assert(spec_u32_at(s, 4) == t.crc);
    assert(spec_u64_at(s, 8) == t.block_id.raw_spec());
}

/// Serializing a parsed trailer reproduces the 16 bytes it came from.
pub proof fn lemma_unicode_block_trailer_bytes_exact(s: Seq<u8>, i: int, t: UnicodeBlockTrailer)
    requires
        0 <= i,
        i + 16 <= s.len(),
        spec_parse_unicode_block_trailer(s, i) == NdbResult::<UnicodeBlockTrailer>::Ok(t),
    ensures
        spec_unicode_block_trailer_bytes(t) == s.subrange(i, i + 16),
{
    lemma_u16_bytes_inverse(s[i], s[i + 1]);
    lemma_u16_bytes_inverse(s[i + 2], s[i + 3]);
    lemma_u32_bytes_inverse(s[i + 4], s[i + 5], s[i + 6], s[i + 7]);
    lemma_u64_bytes_inverse(
        s[i + 8],
        s[i + 9],
        s[i + 10],
        s[i + 11],
        s[i + 12],
        s[i + 13],
        s[i + 14],
        s[i + 15],
    );
    assert(spec_unicode_block_trailer_bytes(t) =~= s.subrange(i, i + 16));
}

/// BLOCKTRAILER, 32-bit width: 12 bytes, block id before CRC.
#[derive(Clone, Copy, Debug, Default, PartialEq, Eq, Structural)]
pub struct AnsiBlockTrailer {
    pub size: u16,
    pub signature: u16,
    pub block_id: AnsiBlockId,
    pub crc: u32,
}

impl AnsiBlockTrailer {
    /// A trailer is well formed when its payload size fits between one byte
    /// and the largest footprint minus the trailer itself.
    pub open spec fn wf(&self) -> bool {
        1 <= self.size <= MAX_BLOCK_SIZE - ANSI_BLOCK_TRAILER_SIZE
    }

    pub open spec fn cyclic_key_spec(&self) -> u32 {
        self.block_id.masked_spec()
    }

    pub fn new(size: u16, signature: u16, crc: u32, block_id: AnsiBlockId) -> (r: NdbResult<Self>)
        ensures
            (1 <= size <= MAX_BLOCK_SIZE - ANSI_BLOCK_TRAILER_SIZE) ==> r == NdbResult::<
                Self,
            >::Ok(
                (AnsiBlockTrailer { size, signature, block_id, crc }),
            ),
            !(1 <= size <= MAX_BLOCK_SIZE - ANSI_BLOCK_TRAILER_SIZE) ==> r == NdbResult::<
                Self,
            >::Err(NdbError::InvalidBlockSize(size)),
    {
        if size < 1 || size > MAX_BLOCK_SIZE - ANSI_BLOCK_TRAILER_SIZE {
            return Err(NdbError::InvalidBlockSize(size));
        }
        Ok(AnsiBlockTrailer { size, signature, block_id, crc })
    }

    pub fn size(&self) -> (r: u16)
        ensures
            r == self.size,
    {
        self.size
    }

    pub fn signature(&self) -> (r: u16)
        ensures
            r == self.signature,
    {
        self.signature
    }

    pub fn crc(&self) -> (r: u32)
        ensures
            r == self.crc,
    {
        self.crc
    }

    pub fn block_id(&self) -> (r: AnsiBlockId)
        ensures
            r == self.block_id,
    {
        self.block_id
    }

    /// The key of the cyclic codec: the owning block id with the mutation
    /// bit masked.
    pub fn cyclic_key(&self) -> (r: u32)
        ensures
            r == self.cyclic_key_spec(),
    {
        self.block_id.masked()
    }
}

impl BlockTrailer for AnsiBlockTrailer {
    open spec fn is_internal_spec(&self) -> bool {
        self.block_id.is_internal_spec()
    }

    open spec fn id_error_spec(&self) -> NdbError {
        NdbError::InvalidAnsiBlockTrailerId(self.block_id.masked_spec())
    }

    fn verify_block_id(&self, is_internal: bool) -> (r: NdbResult<()>) {
        if self.block_id.is_internal() != is_internal {
            Err(NdbError::InvalidAnsiBlockTrailerId(self.block_id.masked()))
        } else {
            Ok(())
        }
    }
}

/// The trailer decoded from 12 bytes at offset `i` of `s`.
pub open spec fn spec_parse_ansi_block_trailer(s: Seq<u8>, i: int) -> NdbResult<AnsiBlockTrailer>
    recommends
        0 <= i,
        i + 12 <= s.len(),
{
    let size = spec_u16_at(s, i);
    if !(1 <= size <= MAX_BLOCK_SIZE - ANSI_BLOCK_TRAILER_SIZE) {
        Err(NdbError::InvalidBlockSize(size))
    } else {
        Ok(
            (AnsiBlockTrailer {
                size,
                signature: spec_u16_at(s, i + 2),
                block_id: AnsiBlockId(spec_u32_at(s, i + 4)),
                crc: spec_u32_at(s, i + 8),
            }),
        )
    }
}

/// The 12 bytes of a trailer, in on-disk order.
pub open spec fn spec_ansi_block_trailer_bytes(t: AnsiBlockTrailer) -> Seq<u8> {
    spec_u16_bytes(t.size) + spec_u16_bytes(t.signature) + spec_u32_bytes(t.block_id.raw_spec())
        + spec_u32_bytes(t.crc)
}

pub fn parse_ansi_block_trailer(b: &[u8], off: usize) -> (r: NdbResult<AnsiBlockTrailer>)
    requires
        off + 12 <= b@.len(),
    ensures
        r == spec_parse_ansi_block_trailer(b@, off as int),
{
    let n: usize = b.len();
    let size = read_u16(b, off);
    if size < 1 || size > MAX_BLOCK_SIZE - ANSI_BLOCK_TRAILER_SIZE {
        return Err(NdbError::InvalidBlockSize(size));
    }
    let signature = read_u16(b, off + 2);
    let block_id = AnsiBlockId::from_raw(read_u32(b, off + 4));
    let crc = read_u32(b, off + 8);
    Ok(AnsiBlockTrailer { size, signature, block_id, crc })
}

pub fn serialize_ansi_block_trailer(t: &AnsiBlockTrailer, out: &mut Vec<u8>)
    ensures
        final(out)@ == old(out)@ + spec_ansi_block_trailer_bytes(*t),
{
    write_u16(out, t.size);
    write_u16(out, t.signature);
    write_u32(out, t.block_id.to_raw());
    write_u32(out, t.crc);
    proof {
        assert(out@ =~= old(out)@ + spec_ansi_block_trailer_bytes(*t));
    }
}

/// Parsing the serialized bytes of a well-formed trailer restores it.
pub proof fn lemma_ansi_block_trailer_round_trip(t: AnsiBlockTrailer)
    requires
        t.wf(),
    ensures
        spec_parse_ansi_block_trailer(spec_ansi_block_trailer_bytes(t), 0) == NdbResult::<
            AnsiBlockTrailer,
        >::Ok(t),
{
    let s = spec_ansi_block_trailer_bytes(t);
    assert(s.len() == 12);
    lemma_u16_round_trip(t.size);
    lemma_u16_round_trip(t.signature);
    lemma_u32_round_trip(t.block_id.raw_spec());
    lemma_u32_round_trip(t.crc);
    assert(spec_u16_at(s, 0) == t.size);
    assert(spec_u16_at(s, 2) == t.signature);
    assert(spec_u32_at(s, 4) == t.block_id.raw_spec());
    assert(spec_u32_at(s, 8) == t.crc);
}

/// The trailer parse reads nothing outside its 16-byte window.
pub proof fn lemma_unicode_block_trailer_parse_window(s: Seq<u8>, i: int)
    requires
        0 <= i,
        i + 16 <= s.len(),
    ensures
        spec_parse_unicode_block_trailer(s, i) == spec_parse_unicode_block_trailer(
            s.subrange(i, i + 16),
            0,
        ),
{
    let w = s.subrange(i, i + 16);
    assert(spec_u16_at(w, 0) == spec_u16_at(s, i));
    assert(spec_u16_at(w, 2) == spec_u16_at(s, i + 2));
    assert(spec_u32_at(w, 4) == spec_u32_at(s, i + 4));
    assert(spec_u64_at(w, 8) == spec_u64_at(s, i + 8));
}

/// The trailer parse reads nothing outside its 12-byte window.
pub proof fn lemma_ansi_block_trailer_parse_window(s: Seq<u8>, i: int)
    requires
        0 <= i,
        i + 12 <= s.len(),
    ensures
        spec_parse_ansi_block_trailer(s, i) == spec_parse_ansi_block_trailer(
            s.subrange(i, i + 12),
            0,
        ),
{
    let w = s.subrange(i, i + 12);
    assert(spec_u16_at(w, 0) == spec_u16_at(s, i));
    assert(spec_u16_at(w, 2) == spec_u16_at(s, i + 2));
    assert(spec_u32_at(w, 4) == spec_u32_at(s, i + 4));
    assert(spec_u32_at(w, 8) == spec_u32_at(s, i + 8));
}

/// Serializing a parsed trailer reproduces the 12 bytes it came from.
pub proof fn lemma_ansi_block_trailer_bytes_exact(s: Seq<u8>, i: int, t: AnsiBlockTrailer)
    requires
        0 <= i,
        i + 12 <= s.len(),
        spec_parse_ansi_block_trailer(s, i) == NdbResult::<AnsiBlockTrailer>::Ok(t),
    ensures
        spec_ansi_block_trailer_bytes(t) == s.subrange(i, i + 12),
{
    lemma_u16_bytes_inverse(s[i], s[i + 1]);
    lemma_u16_bytes_inverse(s[i + 2], s[i + 3]);
    lemma_u32_bytes_inverse(s[i + 4], s[i + 5], s[i + 6], s[i + 7]);
    lemma_u32_bytes_inverse(s[i + 8], s[i + 9], s[i + 10], s[i + 11]);
    assert(spec_ansi_block_trailer_bytes(t) =~= s.subrange(i, i + 12));
}

/// The mathematical content of a leaf data block: its (decoded) payload,
/// the codec it travels under, and its trailer.
#[verifier::ext_equal]
pub ghost struct UnicodeDataBlockModel {
    pub encoding: NdbCryptMethod,
    pub data: Seq<u8>,
    pub trailer: UnicodeBlockTrailer,
}

/// A leaf data block, 64-bit width: an opaque byte payload and a trailer
/// whose block id must be external.
#[derive(Clone, Debug, Default, PartialEq, Eq)]
pub struct UnicodeDataBlock {
    pub encoding: NdbCryptMethod,
    pub data: Vec<u8>,
    pub trailer: UnicodeBlockTrailer,
}

impl View for UnicodeDataBlock {
    type V = UnicodeDataBlockModel;

    open spec fn view(&self) -> UnicodeDataBlockModel {
        UnicodeDataBlockModel { encoding: self.encoding, data: self.data@, trailer: self.trailer }
    }
}

impl UnicodeDataBlock {
    /// The decoded payload, trailer and codec agree with each other: what
    /// parsing establishes and serialization relies on.
    pub open spec fn wf(m: UnicodeDataBlockModel) -> bool {
        &&& 1 <= m.data.len() <= MAX_BLOCK_SIZE - UNICODE_BLOCK_TRAILER_SIZE
        &&& m.trailer.size == m.data.len()
        &&& !m.trailer.block_id.is_internal_spec()
        &&& m.trailer.crc == spec_crc(
            0,
            encode_seq(m.data, m.encoding, m.trailer.cyclic_key_spec()),
        )
    }

    pub fn new(encoding: NdbCryptMethod, data: Vec<u8>, trailer: UnicodeBlockTrailer) -> (r:
        NdbResult<Self>)
        ensures
            !trailer.block_id.is_internal_spec() ==> (r matches Ok(b) && b@ == (
            UnicodeDataBlockModel { encoding, data: data@, trailer })),
            trailer.block_id.is_internal_spec() ==> r == NdbResult::<Self>::Err(
                NdbError::InvalidUnicodeBlockTrailerId(trailer.block_id.masked_spec()),
            ),
    {
        let check = trailer.verify_block_id(false);
        match check {
            Ok(_) => Ok(UnicodeDataBlock { encoding, data, trailer }),
            Err(_) => Err(NdbError::InvalidUnicodeBlockTrailerId(trailer.block_id.masked())),
        }
    }

    pub fn encoding(&self) -> (r: NdbCryptMethod)
        ensures
            r == self.encoding,
    {
        self.encoding
    }

    pub fn data(&self) -> (r: &Vec<u8>)
        ensures
            r@ == self@.data,
    {
        &self.data
    }

    pub fn trailer(&self) -> (r: &UnicodeBlockTrailer)
        ensures
            *r == self.trailer,
    {
        &self.trailer
    }
}

/// The data block whose footprint starts at offset `off` of `s` and whose
/// logical size (from the block B-tree) is `size`. Checks the trailer's
/// size, the external block id, and that the computed CRC of the stored
/// payload equals the stored CRC, then decodes the payload.
pub open spec fn spec_parse_unicode_data_block(
    s: Seq<u8>,
    off: int,
    size: u16,
    encoding: NdbCryptMethod,
) -> NdbResult<UnicodeDataBlockModel> {
    if !(1 <= size <= MAX_BLOCK_SIZE - UNICODE_BLOCK_TRAILER_SIZE) {
        Err(NdbError::InvalidBlockSize(size))
    } else {
        let fp = spec_block_size((size + 16) as u16) as int;
        if !(0 <= off && off + fp <= s.len()) {
            Err(NdbError::InvalidBlockSize(size))
        } else {
            match spec_parse_unicode_block_trailer(s, off + fp - 16) {
                Err(e) => Err(e),
                Ok(t) => if t.size != size {
                    Err(NdbError::InvalidBlockSize(t.size))
                } else if t.block_id.is_internal_spec() {
                    Err(NdbError::InvalidUnicodeBlockTrailerId(t.block_id.masked_spec()))
                } else {
                    let raw = s.subrange(off, off + size);
                    let c = spec_crc(0, raw);
                    if c != t.crc {
                        Err(NdbError::InvalidBlockCrc(c))
                    } else {
                        Ok(
                            (UnicodeDataBlockModel {
                                encoding,
                                data: decode_seq(raw, encoding, t.cyclic_key_spec()),
                                trailer: t,
                            }),
                        )
                    }
                },
            }
        }
    }
}

pub fn parse_unicode_data_block(b: &[u8], off: usize, size: u16, encoding: NdbCryptMethod) -> (r:
    NdbResult<UnicodeDataBlock>)
    ensures
        (r matches Ok(blk) && spec_parse_unicode_data_block(b@, off as int, size, encoding)
            matches Ok(m) && blk@ == m) || (r matches Err(e)
            && spec_parse_unicode_data_block(b@, off as int, size, encoding) == NdbResult::<
        UnicodeDataBlockModel,
        >::Err(e)),
        r matches Ok(blk) ==> spec_crc(0, b@.subrange(off as int, off + size as int))
            == blk.trailer.crc,
    {
    let n: usize = b.len();
    if size < 1 || size > MAX_BLOCK_SIZE - UNICODE_BLOCK_TRAILER_SIZE {
        return Err(NdbError::InvalidBlockSize(size));
    }
    let fp: usize = block_size(size + 16) as usize;
    if off > n || fp > n - off {
        return Err(NdbError::InvalidBlockSize(size));
    }
    let t = match parse_unicode_block_trailer(b, off + fp - 16) {
        Ok(t) => t,
        Err(e) => {
            return Err(e);
        },
    };
    if t.size != size {
        return Err(NdbError::InvalidBlockSize(t.size));
    }
    if t.block_id.is_internal() {
        return Err(NdbError::InvalidUnicodeBlockTrailerId(t.block_id.masked()));
    }
    let raw = vstd::slice::slice_subrange(b, off, off + size as usize);
    let c = compute_crc(0, raw);
    if c != t.crc {
        return Err(NdbError::InvalidBlockCrc(c));
    }
    let mut data = vstd::slice::slice_to_vec(raw);
    let key = t.cyclic_key();
    decode_block(&mut data, encoding, key);
    Ok(UnicodeDataBlock { encoding, data, trailer: t })
}

/// The on-disk image of a data block: the encoded payload, zero padding up
/// to the footprint, and a trailer stamped with the payload length and the
/// CRC of the encoded bytes.
pub open spec fn spec_unicode_data_block_bytes(m: UnicodeDataBlockModel) -> Seq<u8>
    recommends
        1 <= m.data.len() <= MAX_BLOCK_SIZE - UNICODE_BLOCK_TRAILER_SIZE,
{
    let sz = m.data.len() as u16;
    let enc = encode_seq(m.data, m.encoding, m.trailer.cyclic_key_spec());
    let fp = spec_block_size((sz + 16) as u16) as int;
    enc + zero_bytes(fp - 16 - sz) + spec_unicode_block_trailer_bytes(
        (UnicodeBlockTrailer {
            size: sz,
            signature: m.trailer.signature,
            crc: spec_crc(0, enc),
            block_id: m.trailer.block_id,
        }),
    )
}

impl UnicodeDataBlock {
    /// Appends the block's on-disk image: encoded payload, padding, and a
    /// trailer restamped with the payload length and the CRC of the encoded
    /// bytes.
    pub fn write_to(&self, out: &mut Vec<u8>)
        requires
            1 <= self.data@.len() <= MAX_BLOCK_SIZE - UNICODE_BLOCK_TRAILER_SIZE,
        ensures
            final(out)@ == old(out)@ + spec_unicode_data_block_bytes(self@),
    {
        let sz: u16 = self.data.len() as u16;
        let mut enc = vstd::slice::slice_to_vec(self.data.as_slice());
        let key = self.trailer.cyclic_key();
        encode_block(&mut enc, self.encoding, key);
        let c = compute_crc(0, enc.as_slice());
        let fp: usize = block_size(sz + 16) as usize;
        proof {
            lemma_block_size_bounds((sz + 16) as u16);
        }
        let pad: usize = fp - 16 - sz as usize;
        let t = UnicodeBlockTrailer {
            size: sz,
            signature: self.trailer.signature,
            crc: c,
            block_id: self.trailer.block_id,
        };
        out.append(&mut enc);
        write_zeros(out, pad);
        serialize_unicode_block_trailer(&t, out);
        proof {
            assert(out@ =~= old(out)@ + spec_unicode_data_block_bytes(self@));
        }
    }
}

/// Parsing the image written for a consistent block restores the block:
/// payload, codec, and trailer, byte for byte through the stored CRC.
pub proof fn lemma_unicode_data_block_round_trip(m: UnicodeDataBlockModel)
    requires
        UnicodeDataBlock::wf(m),
    ensures
        spec_parse_unicode_data_block(
            spec_unicode_data_block_bytes(m),
            0,
            m.trailer.size,
            m.encoding,
        ) == NdbResult::<UnicodeDataBlockModel>::Ok(m),
{
    let sz = m.data.len() as u16;
    let enc = encode_seq(m.data, m.encoding, m.trailer.cyclic_key_spec());
    let fp = spec_block_size((sz + 16) as u16) as int;
    let t = (UnicodeBlockTrailer {
        size: sz,
        signature: m.trailer.signature,
        crc: spec_crc(0, enc),
        block_id: m.trailer.block_id,
    });
    let s = spec_unicode_data_block_bytes(m);
    assert(t == m.trailer);
    lemma_block_size_bounds((sz + 16) as u16);
    assert(s.len() == fp);
    assert(s.subrange(fp - 16, fp) =~= spec_unicode_block_trailer_bytes(t));
    lemma_unicode_block_trailer_parse_window(s, fp - 16);
    lemma_unicode_block_trailer_round_trip(t);
    assert(spec_parse_unicode_block_trailer(s, fp - 16) == NdbResult::<
        UnicodeBlockTrailer,
    >::Ok(t));
    assert(s.subrange(0, sz as int) =~= enc);
    crate::encode::lemma_decode_encode(m.data, m.encoding, m.trailer.cyclic_key_spec());
    assert(spec_parse_unicode_data_block(s, 0, sz, m.encoding) matches Ok(m2) && m2 =~= m);
}

/// The mathematical content of a leaf data block, 32-bit width.
#[verifier::ext_equal]
pub ghost struct AnsiDataBlockModel {
    pub encoding: NdbCryptMethod,
    pub data: Seq<u8>,
    pub trailer: AnsiBlockTrailer,
}

/// A leaf data block, 32-bit width.
#[derive(Clone, Debug, Default, PartialEq, Eq)]
pub struct AnsiDataBlock {
    pub encoding: NdbCryptMethod,
    pub data: Vec<u8>,
    pub trailer: AnsiBlockTrailer,
}

impl View for AnsiDataBlock {
    type V = AnsiDataBlockModel;

    open spec fn view(&self) -> AnsiDataBlockModel {
        AnsiDataBlockModel { encoding: self.encoding, data: self.data@, trailer: self.trailer }
    }
}

impl AnsiDataBlock {
    /// The decoded payload, trailer and codec agree with each other.
    pub open spec fn wf(m: AnsiDataBlockModel) -> bool {
        &&& 1 <= m.data.len() <= MAX_BLOCK_SIZE - ANSI_BLOCK_TRAILER_SIZE
        &&& m.trailer.size == m.data.len()
        &&& !m.trailer.block_id.is_internal_spec()
        &&& m.trailer.crc == spec_crc(
            0,
            encode_seq(m.data, m.encoding, m.trailer.cyclic_key_spec()),
        )
    }

    pub fn new(encoding: NdbCryptMethod, data: Vec<u8>, trailer: AnsiBlockTrailer) -> (r:
        NdbResult<Self>)
        ensures
            !trailer.block_id.is_internal_spec() ==> (r matches Ok(b) && b@ == (
            AnsiDataBlockModel { encoding, data: data@, trailer })),
            trailer.block_id.is_internal_spec() ==> r == NdbResult::<Self>::Err(
                NdbError::InvalidAnsiBlockTrailerId(trailer.block_id.masked_spec()),
            ),
    {
        let check = trailer.verify_block_id(false);
        match check {
            Ok(_) => Ok(AnsiDataBlock { encoding, data, trailer }),
            Err(_) => Err(NdbError::InvalidAnsiBlockTrailerId(trailer.block_id.masked())),
        }
    }

    pub fn encoding(&self) -> (r: NdbCryptMethod)
        ensures
            r == self.encoding,
    {
        self.encoding
    }

    pub fn data(&self) -> (r: &Vec<u8>)
        ensures
            r@ == self@.data,
    {
        &self.data
    }

    pub fn trailer(&self) -> (r: &AnsiBlockTrailer)
        ensures
            *r == self.trailer,
    {
        &self.trailer
    }
}

/// The data block whose footprint starts at offset `off` of `s`, 32-bit
/// width; the same checks as the 64-bit parse.
pub open spec fn spec_parse_ansi_data_block(
    s: Seq<u8>,
    off: int,
    size: u16,
    encoding: NdbCryptMethod,
) -> NdbResult<AnsiDataBlockModel> {
    if !(1 <= size <= MAX_BLOCK_SIZE - ANSI_BLOCK_TRAILER_SIZE) {
        Err(NdbError::InvalidBlockSize(size))
    } else {
        let fp = spec_block_size((size + 12) as u16) as int;
        if !(0 <= off && off + fp <= s.len()) {
            Err(NdbError::InvalidBlockSize(size))
        } else {
            match spec_parse_ansi_block_trailer(s, off + fp - 12) {
                Err(e) => Err(e),
                Ok(t) => if t.size != size {
                    Err(NdbError::InvalidBlockSize(t.size))
                } else if t.block_id.is_internal_spec() {
                    Err(NdbError::InvalidAnsiBlockTrailerId(t.block_id.masked_spec()))
                } else {
                    let raw = s.subrange(off, off + size);
                    let c = spec_crc(0, raw);
                    if c != t.crc {
                        Err(NdbError::InvalidBlockCrc(c))
                    } else {
                        Ok(
                            (AnsiDataBlockModel {
                                encoding,
                                data: decode_seq(raw, encoding, t.cyclic_key_spec()),
                                trailer: t,
                            }),
                        )
                    }
                },
            }
        }
    }
}

pub fn parse_ansi_data_block(b: &[u8], off: usize, size: u16, encoding: NdbCryptMethod) -> (r:
    NdbResult<AnsiDataBlock>)
    ensures
        (r matches Ok(blk) && spec_parse_ansi_data_block(b@, off as int, size, encoding)
            matches Ok(m) && blk@ == m) || (r matches Err(e)
            && spec_parse_ansi_data_block(b@, off as int, size, encoding) == NdbResult::<
        AnsiDataBlockModel,
        >::Err(e)),
        r matches Ok(blk) ==> spec_crc(0, b@.subrange(off as int, off + size as int))
            == blk.trailer.crc,
    {
    let n: usize = b.len();
    if size < 1 || size > MAX_BLOCK_SIZE - ANSI_BLOCK_TRAILER_SIZE {
        return Err(NdbError::InvalidBlockSize(size));
    }
    let fp: usize = block_size(size + 12) as usize;
    if off > n || fp > n - off {
        return Err(NdbError::InvalidBlockSize(size));
    }
    let t = match parse_ansi_block_trailer(b, off + fp - 12) {
        Ok(t) => t,
        Err(e) => {
            return Err(e);
        },
    };
    if t.size != size {
        return Err(NdbError::InvalidBlockSize(t.size));
    }
    if t.block_id.is_internal() {
        return Err(NdbError::InvalidAnsiBlockTrailerId(t.block_id.masked()));
    }
    let raw = vstd::slice::slice_subrange(b, off, off + size as usize);
    let c = compute_crc(0, raw);
    if c != t.crc {
        return Err(NdbError::InvalidBlockCrc(c));
    }
    let mut data = vstd::slice::slice_to_vec(raw);
    let key = t.cyclic_key();
    decode_block(&mut data, encoding, key);
    Ok(AnsiDataBlock { encoding, data, trailer: t })
}

/// The on-disk image of a data block, 32-bit width.
pub open spec fn spec_ansi_data_block_bytes(m: AnsiDataBlockModel) -> Seq<u8>
    recommends
        1 <= m.data.len() <= MAX_BLOCK_SIZE - ANSI_BLOCK_TRAILER_SIZE,
{
    let sz = m.data.len() as u16;
    let enc = encode_seq(m.data, m.encoding, m.trailer.cyclic_key_spec());
    let fp = spec_block_size((sz + 12) as u16) as int;
    enc + zero_bytes(fp - 12 - sz) + spec_ansi_block_trailer_bytes(
        (AnsiBlockTrailer {
            size: sz,
            signature: m.trailer.signature,
            block_id: m.trailer.block_id,
            crc: spec_crc(0, enc),
        }),
    )
}

impl AnsiDataBlock {
    /// Appends the block's on-disk image, as the 64-bit variant does.
    pub fn write_to(&self, out: &mut Vec<u8>)
        requires
            1 <= self.data@.len() <= MAX_BLOCK_SIZE - ANSI_BLOCK_TRAILER_SIZE,
        ensures
            final(out)@ == old(out)@ + spec_ansi_data_block_bytes(self@),
    {
        let sz: u16 = self.data.len() as u16;
        let mut enc = vstd::slice::slice_to_vec(self.data.as_slice());
        let key = self.trailer.cyclic_key();
        encode_block(&mut enc, self.encoding, key);
        let c = compute_crc(0, enc.as_slice());
        let fp: usize = block_size(sz + 12) as usize;
        proof {
            lemma_block_size_bounds((sz + 12) as u16);
        }
        let pad: usize = fp - 12 - sz as usize;
        let t = AnsiBlockTrailer {
            size: sz,
            signature: self.trailer.signature,
            block_id: self.trailer.block_id,
            crc: c,
        };
        out.append(&mut enc);
        write_zeros(out, pad);
        serialize_ansi_block_trailer(&t, out);
        proof {
            assert(out@ =~= old(out)@ + spec_ansi_data_block_bytes(self@));
        }
    }
}

/// Parsing the image written for a consistent block restores the block,
/// 32-bit width.
pub proof fn lemma_ansi_data_block_round_trip(m: AnsiDataBlockModel)
    requires
        AnsiDataBlock::wf(m),
    ensures
        spec_parse_ansi_data_block(
            spec_ansi_data_block_bytes(m),
            0,
            m.trailer.size,
            m.encoding,
        ) == NdbResult::<AnsiDataBlockModel>::Ok(m),
{
    let sz = m.data.len() as u16;
    let enc = encode_seq(m.data, m.encoding, m.trailer.cyclic_key_spec());
    let fp = spec_block_size((sz + 12) as u16) as int;
    let t = (AnsiBlockTrailer {
        size: sz,
        signature: m.trailer.signature,
        block_id: m.trailer.block_id,
        crc: spec_crc(0, enc),
    });
    let s = spec_ansi_data_block_bytes(m);
    assert(t == m.trailer);
    lemma_block_size_bounds((sz + 12) as u16);
    assert(s.len() == fp);
    assert(s.subrange(fp - 12, fp) =~= spec_ansi_block_trailer_bytes(t));
    lemma_ansi_block_trailer_parse_window(s, fp - 12);
    lemma_ansi_block_trailer_round_trip(t);
    assert(spec_parse_ansi_block_trailer(s, fp - 12) == NdbResult::<AnsiBlockTrailer>::Ok(t));
    assert(s.subrange(0, sz as int) =~= enc);
    crate::encode::lemma_decode_encode(m.data, m.encoding, m.trailer.cyclic_key_spec());
    assert(spec_parse_ansi_data_block(s, 0, sz, m.encoding) matches Ok(m2) && m2 =~= m);
}


/// Serializing the block parsed from an exact-footprint buffer whose
/// padding bytes are zero reproduces the buffer: parse then serialize is
/// the identity on well-formed data-block images.
#[verifier::rlimit(100)]
pub proof fn lemma_unicode_data_block_buffer_identity(
    s: Seq<u8>,
    size: u16,
    encoding: NdbCryptMethod,
)
    requires
        spec_parse_unicode_data_block(s, 0, size, encoding) is Ok,
        s.len() == spec_block_size((size + 16) as u16) as int,
        forall|j: int| size <= j < s.len() - 16 ==> #[trigger] s[j] == 0,
    ensures
        spec_unicode_data_block_bytes(spec_parse_unicode_data_block(s, 0, size, encoding)->Ok_0)
            == s,
{
    let m = spec_parse_unicode_data_block(s, 0, size, encoding)->Ok_0;
    let fp = spec_block_size((size + 16) as u16) as int;
    let raw = s.subrange(0, size as int);
    let t = spec_parse_unicode_block_trailer(s, fp - 16)->Ok_0;
    assert(t.size == size && !t.block_id.is_internal_spec() && t.crc == spec_crc(0, raw));
    assert(m.data == decode_seq(raw, encoding, t.cyclic_key_spec()));
    assert(m.trailer == t && m.encoding == encoding);
    crate::encode::lemma_encode_decode(raw, encoding, t.cyclic_key_spec());
    assert(m.data.len() == size);
    let enc = encode_seq(m.data, m.encoding, m.trailer.cyclic_key_spec());
    assert(enc == raw);
    let out = spec_unicode_data_block_bytes(m);
    assert(spec_crc(0, enc) == t.crc);
    lemma_block_size_bounds((size + 16) as u16);
    assert(out.len() == fp);
    assert forall|j: int| 0 <= j < fp - 16 implies out[j] == s[j] by {
        if j < size {
            assert(out[j] == enc[j]);
            assert(enc[j] == s[j]);
        } else {
            assert(out[j] == 0);
            assert(s[j] == 0);
        }
    }
    crate::block::lemma_unicode_block_trailer_bytes_exact(s, fp - 16, t);
    assert(out =~= s);
}

} // verus!
