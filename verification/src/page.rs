//! Pages: the fixed 512-byte page frame, the typed page trailer (both
//! widths), and the allocation-family map pages (AMap, PMap, FMap, FPMap)
//! whose body is one bitmap. A page trailer's CRC covers the bytes before
//! the trailer.

use vstd::prelude::*;
use crate::bytes::{
    read_u8, read_u16, read_u32, read_u64, write_u8, write_u16, write_u32, write_u64, spec_u16_at,
    spec_u32_at, spec_u64_at, spec_u16_bytes, spec_u32_bytes, spec_u64_bytes, lemma_u16_round_trip,
    lemma_u32_round_trip, lemma_u64_round_trip, lemma_u16_bytes_inverse, lemma_u32_bytes_inverse,
    lemma_u64_bytes_inverse,
};
use crate::crc::{spec_crc, compute_crc};
use crate::block_id::{UnicodeBlockId, AnsiBlockId};
use crate::error::{NdbError, NdbResult};

verus! {

broadcast use vstd::slice::group_slice_axioms;

/// Every page is exactly this many bytes and is page-aligned in the file.
pub const PAGE_SIZE: usize = 512;

/// The bitmap body of a map page.
pub const MAP_BITS_SIZE: usize = 496;

/// The page kinds of the NDB layer, with their on-disk type bytes.
#[derive(Clone, Copy, Debug, PartialEq, Eq, Structural)]
pub enum PageType {
    BlockBTree,
    NodeBTree,
    FreeMap,
    AllocationPageMap,
    AllocationMap,
    FreePageMap,
    DensityList,
}

impl PageType {
    pub open spec fn to_u8_spec(&self) -> u8 {
        match self {
            PageType::BlockBTree => 0x80,
            PageType::NodeBTree => 0x81,
            PageType::FreeMap => 0x82,
            PageType::AllocationPageMap => 0x83,
            PageType::AllocationMap => 0x84,
            PageType::FreePageMap => 0x85,
            PageType::DensityList => 0x86,
        }
    }

    pub open spec fn spec_from_u8(value: u8) -> NdbResult<PageType> {
        if value == 0x80 {
            Ok(PageType::BlockBTree)
        } else if value == 0x81 {
            Ok(PageType::NodeBTree)
        } else if value == 0x82 {
            Ok(PageType::FreeMap)
        } else if value == 0x83 {
            Ok(PageType::AllocationPageMap)
        } else if value == 0x84 {
            Ok(PageType::AllocationMap)
        } else if value == 0x85 {
            Ok(PageType::FreePageMap)
        } else if value == 0x86 {
            Ok(PageType::DensityList)
        } else {
            Err(NdbError::UnexpectedPageType(value))
        }
    }

    pub fn to_u8(&self) -> (r: u8)
        ensures
            r == self.to_u8_spec(),
    {
        match self {
            PageType::BlockBTree => 0x80,
            PageType::NodeBTree => 0x81,
            PageType::FreeMap => 0x82,
            PageType::AllocationPageMap => 0x83,
            PageType::AllocationMap => 0x84,
            PageType::FreePageMap => 0x85,
            PageType::DensityList => 0x86,
        }
    }

    pub fn from_u8(value: u8) -> (r: NdbResult<PageType>)
        ensures
            r == Self::spec_from_u8(value),
    {
        if value == 0x80 {
            Ok(PageType::BlockBTree)
        } else if value == 0x81 {
            Ok(PageType::NodeBTree)
        } else if value == 0x82 {
            Ok(PageType::FreeMap)
        } else if value == 0x83 {
            Ok(PageType::AllocationPageMap)
        } else if value == 0x84 {
            Ok(PageType::AllocationMap)
        } else if value == 0x85 {
            Ok(PageType::FreePageMap)
        } else if value == 0x86 {
            Ok(PageType::DensityList)
        } else {
            Err(NdbError::UnexpectedPageType(value))
        }
    }
}

/// PAGETRAILER, 64-bit width: `{ type, repeated type, signature, crc,
/// block id }`, 16 bytes, CRC before block id.
#[derive(Clone, Copy, Debug, PartialEq, Eq, Structural)]
pub struct UnicodePageTrailer {
    pub page_type: PageType,
    pub signature: u16,
    pub crc: u32,
    pub block_id: UnicodeBlockId,
}

impl UnicodePageTrailer {
    pub fn new(page_type: PageType, signature: u16, block_id: UnicodeBlockId, crc: u32) -> (r:
        Self)
        ensures
            r == (UnicodePageTrailer { page_type, signature, crc, block_id }),
    {
        UnicodePageTrailer { page_type, signature, crc, block_id }
    }

    pub fn page_type(&self) -> (r: PageType)
        ensures
            r == self.page_type,
    {
        self.page_type
    }

    pub fn signature(&self) -> (r: u16)
        ensures
            r == self.signature,
    {
        self.signature
    }

    pub fn crc(&self) -> (r: u32)
        ensures
            r == self.crc,
    {
        self.crc
    }

    pub fn block_id(&self) -> (r: UnicodeBlockId)
        ensures
            r == self.block_id,
    {
        self.block_id
    }
}

/// The page trailer decoded from 16 bytes at offset `i` of `s`: the type
/// byte must name a page kind and must equal its duplicate.
pub open spec fn spec_parse_unicode_page_trailer(s: Seq<u8>, i: int) -> NdbResult<
    UnicodePageTrailer,
>
    recommends
        0 <= i,
        i + 16 <= s.len(),
{
    match PageType::spec_from_u8(s[i]) {
        Err(e) => Err(e),
        Ok(pt) => if s[i + 1] != s[i] {
            Err(NdbError::UnexpectedPageType(s[i + 1]))
        } else {
            Ok(
                (UnicodePageTrailer {
                    page_type: pt,
                    signature: spec_u16_at(s, i + 2),
                    crc: spec_u32_at(s, i + 4),
                    block_id: UnicodeBlockId(spec_u64_at(s, i + 8)),
                }),
            )
        },
    }
}

/// The 16 bytes of a page trailer, in on-disk order.
pub open spec fn spec_unicode_page_trailer_bytes(t: UnicodePageTrailer) -> Seq<u8> {
    seq![t.page_type.to_u8_spec(), t.page_type.to_u8_spec()] + spec_u16_bytes(t.signature)
        + spec_u32_bytes(t.crc) + spec_u64_bytes(t.block_id.raw_spec())
}

pub fn parse_unicode_page_trailer(b: &[u8], off: usize) -> (r: NdbResult<UnicodePageTrailer>)
    requires
        off + 16 <= b@.len(),
    ensures
        r == spec_parse_unicode_page_trailer(b@, off as int),
{
    let n: usize = b.len();
    let tb = read_u8(b, off);
    let pt = match PageType::from_u8(tb) {
        Ok(pt) => pt,
        Err(e) => {
            return Err(e);
        },
    };
    let repeat = read_u8(b, off + 1);
    if repeat != tb {
        return Err(NdbError::UnexpectedPageType(repeat));
    }
    let signature = read_u16(b, off + 2);
    let crc = read_u32(b, off + 4);
    let block_id = UnicodeBlockId::from_raw(read_u64(b, off + 8));
    Ok(UnicodePageTrailer { page_type: pt, signature, crc, block_id })
}

pub fn serialize_unicode_page_trailer(t: &UnicodePageTrailer, out: &mut Vec<u8>)
    ensures
        final(out)@ == old(out)@ + spec_unicode_page_trailer_bytes(*t),
{
    let tb = t.page_type.to_u8();
    write_u8(out, tb);
    write_u8(out, tb);
    write_u16(out, t.signature);
    write_u32(out, t.crc);
    write_u64(out, t.block_id.to_raw());
    proof {
        assert(out@ =~= old(out)@ + spec_unicode_page_trailer_bytes(*t));
    }
}

/// Parsing the serialized bytes of a page trailer restores it.
pub proof fn lemma_unicode_page_trailer_round_trip(t: UnicodePageTrailer)
    ensures
        spec_parse_unicode_page_trailer(spec_unicode_page_trailer_bytes(t), 0) == NdbResult::<
            UnicodePageTrailer,
        >::Ok(t),
{
    let s = spec_unicode_page_trailer_bytes(t);
    assert(s.len() == 16);
    assert(s[0] == t.page_type.to_u8_spec());
    assert(PageType::spec_from_u8(t.page_type.to_u8_spec()) == NdbResult::<PageType>::Ok(
        t.page_type,
    ));
    lemma_u16_round_trip(t.signature);
    lemma_u32_round_trip(t.crc);
    lemma_u64_round_trip(t.block_id.raw_spec());
    assert(spec_u16_at(s, 2) == t.signature);
    assert(spec_u32_at(s, 4) == t.crc);
    assert(spec_u64_at(s, 8) == t.block_id.raw_spec());
}

/// The page trailer parse reads nothing outside its 16-byte window.
pub proof fn lemma_unicode_page_trailer_parse_window(s: Seq<u8>, i: int)
    requires
        0 <= i,
        i + 16 <= s.len(),
    ensures
        spec_parse_unicode_page_trailer(s, i) == spec_parse_unicode_page_trailer(
            s.subrange(i, i + 16),
            0,
        ),
{
    let w = s.subrange(i, i + 16);
    assert(w[0] == s[i] && w[1] == s[i + 1]);
    assert(spec_u16_at(w, 2) == spec_u16_at(s, i + 2));
    assert(spec_u32_at(w, 4) == spec_u32_at(s, i + 4));
    assert(spec_u64_at(w, 8) == spec_u64_at(s, i + 8));
}

/// Serializing a parsed page trailer reproduces its 16 bytes.
pub proof fn lemma_unicode_page_trailer_bytes_exact(s: Seq<u8>, i: int, t: UnicodePageTrailer)
    requires
        0 <= i,
        i + 16 <= s.len(),
        spec_parse_unicode_page_trailer(s, i) == NdbResult::<UnicodePageTrailer>::Ok(t),
    ensures
        spec_unicode_page_trailer_bytes(t) == s.subrange(i, i + 16),
{
    lemma_u16_bytes_inverse(s[i + 2], s[i + 3]);
    lemma_u32_bytes_inverse(s[i + 4], s[i + 5], s[i + 6], s[i + 7]);
    lemma_u64_bytes_inverse(
        s[i + 8],
        s[i + 9],
        s[i + 10],
        s[i + 11],
        s[i + 12],
        s[i + 13],
        s[i + 14],
        s[i + 15],
    );
    assert(spec_unicode_page_trailer_bytes(t) =~= s.subrange(i, i + 16));
}

/// PAGETRAILER, 32-bit width: 12 bytes, block id before CRC.
#[derive(Clone, Copy, Debug, PartialEq, Eq, Structural)]
pub struct AnsiPageTrailer {
    pub page_type: PageType,
    pub signature: u16,
    pub block_id: AnsiBlockId,
    pub crc: u32,
}

impl AnsiPageTrailer {
    pub fn new(page_type: PageType, signature: u16, block_id: AnsiBlockId, crc: u32) -> (r: Self)
        ensures
            r == (AnsiPageTrailer { page_type, signature, block_id, crc }),
    {
        AnsiPageTrailer { page_type, signature, block_id, crc }
    }

    pub fn page_type(&self) -> (r: PageType)
        ensures
            r == self.page_type,
    {
        self.page_type
    }

    pub fn signature(&self) -> (r: u16)
        ensures
            r == self.signature,
    {
        self.signature
    }

    pub fn crc(&self) -> (r: u32)
        ensures
            r == self.crc,
    {
        self.crc
    }

    pub fn block_id(&self) -> (r: AnsiBlockId)
        ensures
            r == self.block_id,
    {
        self.block_id
    }
}

/// The page trailer decoded from 12 bytes at offset `i` of `s`.
pub open spec fn spec_parse_ansi_page_trailer(s: Seq<u8>, i: int) -> NdbResult<AnsiPageTrailer>
    recommends
        0 <= i,
        i + 12 <= s.len(),
{
    match PageType::spec_from_u8(s[i]) {
        Err(e) => Err(e),
        Ok(pt) => if s[i + 1] != s[i] {
            Err(NdbError::UnexpectedPageType(s[i + 1]))
        } else {
            Ok(
                (AnsiPageTrailer {
                    page_type: pt,
                    signature: spec_u16_at(s, i + 2),
                    block_id: AnsiBlockId(spec_u32_at(s, i + 4)),
                    crc: spec_u32_at(s, i + 8),
                }),
            )
        },
    }
}

/// The 12 bytes of a page trailer, in on-disk order.
pub open spec fn spec_ansi_page_trailer_bytes(t: AnsiPageTrailer) -> Seq<u8> {
    seq![t.page_type.to_u8_spec(), t.page_type.to_u8_spec()] + spec_u16_bytes(t.signature)
        + spec_u32_bytes(t.block_id.raw_spec()) + spec_u32_bytes(t.crc)
}

pub fn parse_ansi_page_trailer(b: &[u8], off: usize) -> (r: NdbResult<AnsiPageTrailer>)
    requires
        off + 12 <= b@.len(),
    ensures
        r == spec_parse_ansi_page_trailer(b@, off as int),
{
    let n: usize = b.len();
    let tb = read_u8(b, off);
    let pt = match PageType::from_u8(tb) {
        Ok(pt) => pt,
        Err(e) => {
            return Err(e);
        },
    };
    let repeat = read_u8(b, off + 1);
    if repeat != tb {
        return Err(NdbError::UnexpectedPageType(repeat));
    }
    let signature = read_u16(b, off + 2);
    let block_id = AnsiBlockId::from_raw(read_u32(b, off + 4));
    let crc = read_u32(b, off + 8);
    Ok(AnsiPageTrailer { page_type: pt, signature, block_id, crc })
}

pub fn serialize_ansi_page_trailer(t: &AnsiPageTrailer, out: &mut Vec<u8>)
    ensures
        final(out)@ == old(out)@ + spec_ansi_page_trailer_bytes(*t),
{
    let tb = t.page_type.to_u8();
    write_u8(out, tb);
    write_u8(out, tb);
    write_u16(out, t.signature);
    write_u32(out, t.block_id.to_raw());
    write_u32(out, t.crc);
    proof {
        assert(out@ =~= old(out)@ + spec_ansi_page_trailer_bytes(*t));
    }
}

/// Parsing the serialized bytes of a page trailer restores it.
pub proof fn lemma_ansi_page_trailer_round_trip(t: AnsiPageTrailer)
    ensures
        spec_parse_ansi_page_trailer(spec_ansi_page_trailer_bytes(t), 0) == NdbResult::<
            AnsiPageTrailer,
        >::Ok(t),
{
    let s = spec_ansi_page_trailer_bytes(t);
    assert(s.len() == 12);
    assert(s[0] == t.page_type.to_u8_spec());
    assert(PageType::spec_from_u8(t.page_type.to_u8_spec()) == NdbResult::<PageType>::Ok(
        t.page_type,
    ));
    lemma_u16_round_trip(t.signature);
    lemma_u32_round_trip(t.block_id.raw_spec());
    lemma_u32_round_trip(t.crc);
    assert(spec_u16_at(s, 2) == t.signature);
    assert(spec_u32_at(s, 4) == t.block_id.raw_spec());
    assert(spec_u32_at(s, 8) == t.crc);
}

/// The page trailer parse reads nothing outside its 12-byte window.
pub proof fn lemma_ansi_page_trailer_parse_window(s: Seq<u8>, i: int)
    requires
        0 <= i,
        i + 12 <= s.len(),
    ensures
        spec_parse_ansi_page_trailer(s, i) == spec_parse_ansi_page_trailer(
            s.subrange(i, i + 12),
            0,
        ),
{
    let w = s.subrange(i, i + 12);
    assert(w[0] == s[i] && w[1] == s[i + 1]);
    assert(spec_u16_at(w, 2) == spec_u16_at(s, i + 2));
    assert(spec_u32_at(w, 4) == spec_u32_at(s, i + 4));
    assert(spec_u32_at(w, 8) == spec_u32_at(s, i + 8));
}

/// Serializing a parsed page trailer reproduces its 12 bytes.
pub proof fn lemma_ansi_page_trailer_bytes_exact(s: Seq<u8>, i: int, t: AnsiPageTrailer)
    requires
        0 <= i,
        i + 12 <= s.len(),
        spec_parse_ansi_page_trailer(s, i) == NdbResult::<AnsiPageTrailer>::Ok(t),
    ensures
        spec_ansi_page_trailer_bytes(t) == s.subrange(i, i + 12),
{
    lemma_u16_bytes_inverse(s[i + 2], s[i + 3]);
    lemma_u32_bytes_inverse(s[i + 4], s[i + 5], s[i + 6], s[i + 7]);
    lemma_u32_bytes_inverse(s[i + 8], s[i + 9], s[i + 10], s[i + 11]);
    assert(spec_ansi_page_trailer_bytes(t) =~= s.subrange(i, i + 12));
}

/// The mathematical content of an allocation-family page: its bitmap and
/// its trailer.
#[verifier::ext_equal]
pub ghost struct UnicodeMapPageModel {
    pub map_bits: Seq<u8>,
    pub trailer: UnicodePageTrailer,
}

/// An allocation-family page, 64-bit width: 496 bitmap bytes and a page
/// trailer whose CRC covers the bitmap.
#[derive(Clone, Debug, PartialEq, Eq)]
pub struct UnicodeMapPage {
    pub map_bits: Vec<u8>,
    pub trailer: UnicodePageTrailer,
}

impl View for UnicodeMapPage {
    type V = UnicodeMapPageModel;

    open spec fn view(&self) -> UnicodeMapPageModel {
        UnicodeMapPageModel { map_bits: self.map_bits@, trailer: self.trailer }
    }
}

impl UnicodeMapPage {
    pub open spec fn wf(m: UnicodeMapPageModel) -> bool {
        m.map_bits.len() == MAP_BITS_SIZE
    }

    pub fn new(map_bits: Vec<u8>, trailer: UnicodePageTrailer) -> (r: Self)
        requires
            map_bits@.len() == MAP_BITS_SIZE,
        ensures
            r@ == (UnicodeMapPageModel { map_bits: map_bits@, trailer }),
    {
        UnicodeMapPage { map_bits, trailer }
    }

    pub fn map_bits(&self) -> (r: &Vec<u8>)
        ensures
            r@ == self@.map_bits,
    {
        &self.map_bits
    }

    pub fn trailer(&self) -> (r: &UnicodePageTrailer)
        ensures
            *r == self.trailer,
    {
        &self.trailer
    }
}

/// The map page of kind `expected` held in the 512 bytes at offset `off` of
/// `s`: the trailer must carry that page type and the CRC of the bitmap.
pub open spec fn spec_parse_unicode_map_page(s: Seq<u8>, off: int, expected: PageType) -> NdbResult<
    UnicodeMapPageModel,
>
    recommends
        0 <= off,
        off + PAGE_SIZE <= s.len(),
{
    match spec_parse_unicode_page_trailer(s, off + 496) {
        Err(e) => Err(e),
        Ok(t) => if t.page_type != expected {
            Err(NdbError::UnexpectedPageType(t.page_type.to_u8_spec()))
        } else {
            let c = spec_crc(0, s.subrange(off, off + 496));
            if c != t.crc {
                Err(NdbError::InvalidPageCrc(c))
            } else {
                Ok((UnicodeMapPageModel { map_bits: s.subrange(off, off + 496), trailer: t }))
            }
        },
    }
}

pub fn parse_unicode_map_page(b: &[u8], off: usize, expected: PageType) -> (r: NdbResult<
    UnicodeMapPage,
>)
    requires
        off + PAGE_SIZE <= b@.len(),
    ensures
        (r matches Ok(p) && spec_parse_unicode_map_page(b@, off as int, expected) matches Ok(m)
            && p@ == m) || (r matches Err(e) && spec_parse_unicode_map_page(
            b@,
            off as int,
            expected,
        ) == NdbResult::<UnicodeMapPageModel>::Err(e)),
        r matches Ok(p) ==> spec_crc(0, b@.subrange(off as int, off + 496 as int)) == p.trailer.crc,
    {
    let n: usize = b.len();
    let t = match parse_unicode_page_trailer(b, off + 496) {
        Ok(t) => t,
        Err(e) => {
            return Err(e);
        },
    };
    if t.page_type.to_u8() != expected.to_u8() {
        return Err(NdbError::UnexpectedPageType(t.page_type.to_u8()));
    }
    let body = vstd::slice::slice_subrange(b, off, off + 496);
    let c = compute_crc(0, body);
    if c != t.crc {
        return Err(NdbError::InvalidPageCrc(c));
    }
    Ok(UnicodeMapPage { map_bits: vstd::slice::slice_to_vec(body), trailer: t })
}

/// The 512-byte image of a map page: the bitmap, then the trailer restamped
/// with the CRC of the bitmap.
pub open spec fn spec_unicode_map_page_bytes(m: UnicodeMapPageModel) -> Seq<u8>
    recommends
        UnicodeMapPage::wf(m),
{
    m.map_bits + spec_unicode_page_trailer_bytes(
        (UnicodePageTrailer {
            page_type: m.trailer.page_type,
            signature: m.trailer.signature,
            crc: spec_crc(0, m.map_bits),
            block_id: m.trailer.block_id,
        }),
    )
}

impl UnicodeMapPage {
    /// Appends the page's 512-byte image, restamping the trailer CRC.
    pub fn write_to(&self, out: &mut Vec<u8>)
        requires
            self.map_bits@.len() == MAP_BITS_SIZE,
        ensures
            final(out)@ == old(out)@ + spec_unicode_map_page_bytes(self@),
            (final(out)@).len() == old(out)@.len() + PAGE_SIZE,
    {
        let c = compute_crc(0, self.map_bits.as_slice());
        let t = UnicodePageTrailer {
            page_type: self.trailer.page_type,
            signature: self.trailer.signature,
            crc: c,
            block_id: self.trailer.block_id,
        };
        let mut body = vstd::slice::slice_to_vec(self.map_bits.as_slice());
        out.append(&mut body);
        serialize_unicode_page_trailer(&t, out);
        proof {
            assert(out@ =~= old(out)@ + spec_unicode_map_page_bytes(self@));
        }
    }
}

/// Parsing the image written for a map page restores the page, with the
/// trailer CRC equal to the bitmap's CRC.
pub proof fn lemma_unicode_map_page_round_trip(m: UnicodeMapPageModel)
    requires
        UnicodeMapPage::wf(m),
        m.trailer.crc == spec_crc(0, m.map_bits),
    ensures
        spec_parse_unicode_map_page(spec_unicode_map_page_bytes(m), 0, m.trailer.page_type)
            == NdbResult::<UnicodeMapPageModel>::Ok(m),
{
    let s = spec_unicode_map_page_bytes(m);
    let t = (UnicodePageTrailer {
        page_type: m.trailer.page_type,
        signature: m.trailer.signature,
        crc: spec_crc(0, m.map_bits),
        block_id: m.trailer.block_id,
    });
    assert(t == m.trailer);
    assert(s.len() == PAGE_SIZE);
    assert(s.subrange(496, 512) =~= spec_unicode_page_trailer_bytes(t));
    lemma_unicode_page_trailer_parse_window(s, 496);
    lemma_unicode_page_trailer_round_trip(t);
    assert(s.subrange(0, 496) =~= m.map_bits);
    assert(spec_parse_unicode_map_page(s, 0, m.trailer.page_type) matches Ok(m2) && m2 =~= m);
}

/// The mathematical content of an allocation-family page, 32-bit width:
/// the bitmap, four bytes of padding kept as read, and the trailer.
#[verifier::ext_equal]
pub ghost struct AnsiMapPageModel {
    pub map_bits: Seq<u8>,
    pub padding: u32,
    pub trailer: AnsiPageTrailer,
}

/// An allocation-family page, 32-bit width: 496 bitmap bytes, 4 padding
/// bytes, and a page trailer whose CRC covers bitmap and padding.
#[derive(Clone, Debug, PartialEq, Eq)]
pub struct AnsiMapPage {
    pub map_bits: Vec<u8>,
    pub padding: u32,
    pub trailer: AnsiPageTrailer,
}

impl View for AnsiMapPage {
    type V = AnsiMapPageModel;

    open spec fn view(&self) -> AnsiMapPageModel {
        AnsiMapPageModel { map_bits: self.map_bits@, padding: self.padding, trailer: self.trailer }
    }
}

impl AnsiMapPage {
    pub open spec fn wf(m: AnsiMapPageModel) -> bool {
        m.map_bits.len() == MAP_BITS_SIZE
    }

    pub fn new(map_bits: Vec<u8>, trailer: AnsiPageTrailer) -> (r: Self)
        requires
            map_bits@.len() == MAP_BITS_SIZE,
        ensures
            r@ == (AnsiMapPageModel { map_bits: map_bits@, padding: 0u32, trailer }),
    {
        AnsiMapPage { map_bits, padding: 0, trailer }
    }

    pub fn map_bits(&self) -> (r: &Vec<u8>)
        ensures
            r@ == self@.map_bits,
    {
        &self.map_bits
    }

    pub fn trailer(&self) -> (r: &AnsiPageTrailer)
        ensures
            *r == self.trailer,
    {
        &self.trailer
    }
}

/// The map page of kind `expected` held in the 512 bytes at offset `off`
/// of `s`, 32-bit width; the CRC covers the 500 bytes before the trailer.
pub open spec fn spec_parse_ansi_map_page(s: Seq<u8>, off: int, expected: PageType) -> NdbResult<
    AnsiMapPageModel,
>
    recommends
        0 <= off,
        off + PAGE_SIZE <= s.len(),
{
    match spec_parse_ansi_page_trailer(s, off + 500) {
        Err(e) => Err(e),
        Ok(t) => if t.page_type != expected {
            Err(NdbError::UnexpectedPageType(t.page_type.to_u8_spec()))
        } else {
            let c = spec_crc(0, s.subrange(off, off + 500));
            if c != t.crc {
                Err(NdbError::InvalidPageCrc(c))
            } else {
                Ok(
                    (AnsiMapPageModel {
                        map_bits: s.subrange(off, off + 496),
                        padding: spec_u32_at(s, off + 496),
                        trailer: t,
                    }),
                )
            }
        },
    }
}

pub fn parse_ansi_map_page(b: &[u8], off: usize, expected: PageType) -> (r: NdbResult<AnsiMapPage>)
    requires
        off + PAGE_SIZE <= b@.len(),
    ensures
        (r matches Ok(p) && spec_parse_ansi_map_page(b@, off as int, expected) matches Ok(m)
            && p@ == m) || (r matches Err(e) && spec_parse_ansi_map_page(b@, off as int, expected)
            == NdbResult::<AnsiMapPageModel>::Err(e)),
        r matches Ok(p) ==> spec_crc(0, b@.subrange(off as int, off + 500 as int)) == p.trailer.crc,
    {
    let n: usize = b.len();
    let t = match parse_ansi_page_trailer(b, off + 500) {
        Ok(t) => t,
        Err(e) => {
            return Err(e);
        },
    };
    if t.page_type.to_u8() != expected.to_u8() {
        return Err(NdbError::UnexpectedPageType(t.page_type.to_u8()));
    }
    let covered = vstd::slice::slice_subrange(b, off, off + 500);
    let c = compute_crc(0, covered);
    if c != t.crc {
        return Err(NdbError::InvalidPageCrc(c));
    }
    let body = vstd::slice::slice_subrange(b, off, off + 496);
    let padding = read_u32(b, off + 496);
    Ok(AnsiMapPage { map_bits: vstd::slice::slice_to_vec(body), padding, trailer: t })
}

/// The 512-byte image of a map page, 32-bit width: bitmap, padding, and the
/// trailer restamped with the CRC of the 500 bytes before it.
pub open spec fn spec_ansi_map_page_bytes(m: AnsiMapPageModel) -> Seq<u8>
    recommends
        AnsiMapPage::wf(m),
{
    m.map_bits + spec_u32_bytes(m.padding) + spec_ansi_page_trailer_bytes(
        (AnsiPageTrailer {
            page_type: m.trailer.page_type,
            signature: m.trailer.signature,
            block_id: m.trailer.block_id,
            crc: spec_crc(0, m.map_bits + spec_u32_bytes(m.padding)),
        }),
    )
}

impl AnsiMapPage {
    /// Appends the page's 512-byte image, restamping the trailer CRC.
    pub fn write_to(&self, out: &mut Vec<u8>)
        requires
            self.map_bits@.len() == MAP_BITS_SIZE,
        ensures
            final(out)@ == old(out)@ + spec_ansi_map_page_bytes(self@),
            (final(out)@).len() == old(out)@.len() + PAGE_SIZE,
    {
        let mut covered = vstd::slice::slice_to_vec(self.map_bits.as_slice());
        write_u32(&mut covered, self.padding);
        let c = compute_crc(0, covered.as_slice());
        let t = AnsiPageTrailer {
            page_type: self.trailer.page_type,
            signature: self.trailer.signature,
            block_id: self.trailer.block_id,
            crc: c,
        };
        out.append(&mut covered);
        serialize_ansi_page_trailer(&t, out);
        proof {
            assert(out@ =~= old(out)@ + spec_ansi_map_page_bytes(self@));
        }
    }
}

/// Parsing the image written for a map page restores the page, 32-bit
/// width.
pub proof fn lemma_ansi_map_page_round_trip(m: AnsiMapPageModel)
    requires
        AnsiMapPage::wf(m),
        m.trailer.crc == spec_crc(0, m.map_bits + spec_u32_bytes(m.padding)),
    ensures
        spec_parse_ansi_map_page(spec_ansi_map_page_bytes(m), 0, m.trailer.page_type)
            == NdbResult::<AnsiMapPageModel>::Ok(m),
{
    let covered = m.map_bits + spec_u32_bytes(m.padding);
    let s = spec_ansi_map_page_bytes(m);
    let t = (AnsiPageTrailer {
        page_type: m.trailer.page_type,
        signature: m.trailer.signature,
        block_id: m.trailer.block_id,
        crc: spec_crc(0, covered),
    });
    assert(t == m.trailer);
    assert(s.len() == PAGE_SIZE);
    assert(s.subrange(500, 512) =~= spec_ansi_page_trailer_bytes(t));
    lemma_ansi_page_trailer_parse_window(s, 500);
    lemma_ansi_page_trailer_round_trip(t);
    assert(s.subrange(0, 500) =~= covered);
    assert(s.subrange(0, 496) =~= m.map_bits);
    lemma_u32_round_trip(m.padding);
    assert(spec_u32_at(s, 496) == m.padding);
    assert(spec_parse_ansi_map_page(s, 0, m.trailer.page_type) matches Ok(m2) && m2 =~= m);
}

} // verus!
