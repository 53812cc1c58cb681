//! The density list: a single page near the start of the file caching
//! backfill progress and per-AMap-page free-run hints. Each entry packs an
//! AMap page index in its low 20 bits and a free-slot count in its high 12
//! bits. The page is informational; a file without a readable density list
//! still serves every read.

use vstd::prelude::*;
use crate::bytes::{
    read_u8, read_u32, spec_u32_at, write_u8, write_u16, write_u32, write_zeros, zero_bytes,
    spec_u16_bytes, spec_u32_bytes,
};
use crate::crc::{spec_crc, compute_crc};
use crate::error::{NdbError, NdbResult};
use crate::page::{
    PageType, PAGE_SIZE, UnicodePageTrailer, AnsiPageTrailer, spec_parse_unicode_page_trailer,
    spec_parse_ansi_page_trailer, parse_unicode_page_trailer, parse_ansi_page_trailer,
    spec_unicode_page_trailer_bytes, spec_ansi_page_trailer_bytes, serialize_unicode_page_trailer,
    serialize_ansi_page_trailer,
};

verus! {

broadcast use vstd::slice::group_slice_axioms;

/// The density list sits at this fixed file offset.
pub const DENSITY_LIST_OFFSET: u64 = 0x4200;

/// The entry region holds at most this many 4-byte entries.
pub const MAX_DENSITY_LIST_ENTRIES: usize = 119;

/// One density-list entry: an AMap page index (low 20 bits) and its
/// free-slot hint (high 12 bits).
#[derive(Clone, Copy, Debug, Default, PartialEq, Eq, Structural)]
pub struct DensityListPageEntry(pub u32);

impl DensityListPageEntry {
    pub open spec fn page_spec(&self) -> u32 {
        self.0 & 0x000F_FFFF
    }

    pub open spec fn free_slots_spec(&self) -> u32 {
        self.0 >> 20
    }

    /// Packs a page index and a free-slot hint; bits beyond each field's
    /// width are dropped, as the on-disk format drops them.
    pub fn new(page: u32, free_slots: u32) -> (r: Self)
        requires
            page <= 0x000F_FFFF,
            free_slots <= 0xFFF,
        ensures
            r.page_spec() == page,
            r.free_slots_spec() == free_slots,
    {
        let raw = (page & 0x000F_FFFF) | (free_slots << 20u32);
        proof {
            assert((((page & 0x000F_FFFF) | (free_slots << 20u32)) & 0x000F_FFFF) == page
                && (((page & 0x000F_FFFF) | (free_slots << 20u32)) >> 20u32) == free_slots)
                by (bit_vector)
                requires
                    page <= 0x000F_FFFFu32 && free_slots <= 0xFFFu32,
            ;
        }
        DensityListPageEntry(raw)
    }

    pub fn page(&self) -> (r: u32)
        ensures
            r == self.page_spec(),
    {
        self.0 & 0x000F_FFFF
    }

    pub fn free_slots(&self) -> (r: u32)
        ensures
            r == self.free_slots_spec(),
    {
        self.0 >> 20u32
    }
}

pub open spec fn spec_density_list_entries(s: Seq<u8>, off: int, count: int) -> Seq<
    DensityListPageEntry,
> {
    Seq::new(count as nat, |k: int| DensityListPageEntry(spec_u32_at(s, off + 4 * k)))
}

/// The mathematical content of a density-list page.
#[verifier::ext_equal]
pub ghost struct UnicodeDensityListPageModel {
    pub backfill_complete: bool,
    pub current_page: u32,
    pub entries: Seq<DensityListPageEntry>,
    pub trailer: UnicodePageTrailer,
}

/// The density-list page, 64-bit width.
#[derive(Clone, Debug, PartialEq, Eq)]
pub struct UnicodeDensityListPage {
    pub backfill_complete: bool,
    pub current_page: u32,
    pub entries: Vec<DensityListPageEntry>,
    pub trailer: UnicodePageTrailer,
}

impl View for UnicodeDensityListPage {
    type V = UnicodeDensityListPageModel;

    open spec fn view(&self) -> UnicodeDensityListPageModel {
        UnicodeDensityListPageModel {
            backfill_complete: self.backfill_complete,
            current_page: self.current_page,
            entries: self.entries@,
            trailer: self.trailer,
        }
    }
}

impl UnicodeDensityListPage {
    /// The entries must fit the page's entry region.
    pub fn new(
        backfill_complete: bool,
        current_page: u32,
        entries: Vec<DensityListPageEntry>,
        trailer: UnicodePageTrailer,
    ) -> (r: NdbResult<Self>)
        ensures
            entries@.len() <= MAX_DENSITY_LIST_ENTRIES ==> (r matches Ok(p) && p@ == (
            UnicodeDensityListPageModel { backfill_complete, current_page, entries: entries@,
                trailer })),
            entries@.len() > MAX_DENSITY_LIST_ENTRIES ==> r == NdbResult::<Self>::Err(
                NdbError::InvalidBTreeEntryCount(entries@.len() as usize),
            ),
    {
        if entries.len() > MAX_DENSITY_LIST_ENTRIES {
            return Err(NdbError::InvalidBTreeEntryCount(entries.len()));
        }
        Ok(UnicodeDensityListPage { backfill_complete, current_page, entries, trailer })
    }

    pub fn backfill_complete(&self) -> (r: bool)
        ensures
            r == self.backfill_complete,
    {
        self.backfill_complete
    }

    pub fn current_page(&self) -> (r: u32)
        ensures
            r == self.current_page,
    {
        self.current_page
    }

    pub fn entries(&self) -> (r: &Vec<DensityListPageEntry>)
        ensures
            r@ == self@.entries,
    {
        &self.entries
    }

    pub fn trailer(&self) -> (r: &UnicodePageTrailer)
        ensures
            *r == self.trailer,
    {
        &self.trailer
    }
}

/// The density-list page in the 512 bytes at `off`: a `DensityList`
/// trailer, the CRC of the 496 bytes before it, a fitting entry count, the
/// backfill bit of the flags byte, the current-page hint, and the entries.
pub open spec fn spec_parse_unicode_density_list_page(s: Seq<u8>, off: int) -> NdbResult<
    UnicodeDensityListPageModel,
> {
    if !(0 <= off && off + PAGE_SIZE <= s.len()) {
        Err(NdbError::PageOutOfBounds(off as u64))
    } else {
        match spec_parse_unicode_page_trailer(s, off + 496) {
            Err(e) => Err(e),
            Ok(t) => if t.page_type != PageType::DensityList {
                Err(NdbError::UnexpectedPageType(t.page_type.to_u8_spec()))
            } else {
                let c = spec_crc(0, s.subrange(off, off + 496));
                if c != t.crc {
                    Err(NdbError::InvalidPageCrc(c))
                } else if s[off + 1] > MAX_DENSITY_LIST_ENTRIES as u8 {
                    Err(NdbError::InvalidBTreeEntryCount(s[off + 1] as usize))
                } else {
                    Ok(
                        (UnicodeDensityListPageModel {
                            backfill_complete: s[off] & 0x01 == 0x01,
                            current_page: spec_u32_at(s, off + 4),
                            entries: spec_density_list_entries(s, off + 8, s[off + 1] as int),
                            trailer: t,
                        }),
                    )
                }
            },
        }
    }
}

pub fn parse_unicode_density_list_page(b: &[u8], off: usize) -> (r: NdbResult<
    UnicodeDensityListPage,
>)
    ensures
        (r matches Ok(p) && spec_parse_unicode_density_list_page(b@, off as int) matches Ok(m)
            && p@ == m) || (r matches Err(e) && spec_parse_unicode_density_list_page(
            b@,
            off as int,
        ) == NdbResult::<UnicodeDensityListPageModel>::Err(e)),
        r matches Ok(p) ==> spec_crc(0, b@.subrange(off as int, off + 496 as int))
            == p.trailer.crc,
    {
    let n: usize = b.len();
    if off > n || PAGE_SIZE > n - off {
        return Err(NdbError::PageOutOfBounds(off as u64));
    }
    let t = match parse_unicode_page_trailer(b, off + 496) {
        Ok(t) => t,
        Err(e) => {
            return Err(e);
        },
    };
    if t.page_type.to_u8() != 0x86 {
        return Err(NdbError::UnexpectedPageType(t.page_type.to_u8()));
    }
    let c = compute_crc(0, vstd::slice::slice_subrange(b, off, off + 496));
    if c != t.crc {
        return Err(NdbError::InvalidPageCrc(c));
    }
    let flags = read_u8(b, off);
    let count8 = read_u8(b, off + 1);
    if count8 > MAX_DENSITY_LIST_ENTRIES as u8 {
        return Err(NdbError::InvalidBTreeEntryCount(count8 as usize));
    }
    let current_page = read_u32(b, off + 4);
    let count = count8 as usize;
    let mut entries: Vec<DensityListPageEntry> = Vec::new();
    let mut k: usize = 0;
    while k < count
        invariant
            k <= count,
            count <= MAX_DENSITY_LIST_ENTRIES,
            off + PAGE_SIZE <= b@.len(),
            entries@ =~= spec_density_list_entries(b@, off + 8 as int, k as int),
        decreases count - k,
    {
        let bn: usize = b.len();
        entries.push(DensityListPageEntry(read_u32(b, off + 8 + 4 * k)));
        k = k + 1;
        proof {
            assert(entries@ =~= spec_density_list_entries(b@, off + 8 as int, k as int));
        }
    }
    proof {
        assert(entries@ =~= spec_density_list_entries(b@, off + 8 as int, count as int));
    }
    Ok(
        UnicodeDensityListPage {
            backfill_complete: flags & 0x01 == 0x01,
            current_page,
            entries,
            trailer: t,
        },
    )
}

pub open spec fn spec_density_list_entries_bytes(es: Seq<DensityListPageEntry>) -> Seq<u8>
    decreases es.len(),
{
    if es.len() == 0 {
        Seq::empty()
    } else {
        spec_density_list_entries_bytes(es.drop_last()) + spec_u32_bytes(es.last().0)
    }
}

proof fn lemma_density_list_entries_bytes_len(es: Seq<DensityListPageEntry>)
    ensures
        spec_density_list_entries_bytes(es).len() == 4 * es.len(),
    decreases es.len(),
{
    if es.len() > 0 {
        lemma_density_list_entries_bytes_len(es.drop_last());
    }
}

/// The 512-byte image of a density-list page: the flags byte holds only
/// the backfill bit, the entry region beyond the entries is zero-filled,
/// and the trailer is restamped with the CRC of the 496 bytes before it.
pub open spec fn spec_unicode_density_list_page_bytes(m: UnicodeDensityListPageModel) -> Seq<u8>
    recommends
        m.entries.len() <= MAX_DENSITY_LIST_ENTRIES,
{
    let covered = seq![
        if m.backfill_complete {
            0x01u8
        } else {
            0u8
        },
        m.entries.len() as u8,
    ] + spec_u16_bytes(0) + spec_u32_bytes(m.current_page) + spec_density_list_entries_bytes(
        m.entries,
    ) + zero_bytes(488 - 4 * m.entries.len());
    covered + spec_unicode_page_trailer_bytes(
        (UnicodePageTrailer {
            page_type: m.trailer.page_type,
            signature: m.trailer.signature,
            crc: spec_crc(0, covered),
            block_id: m.trailer.block_id,
        }),
    )
}

impl UnicodeDensityListPage {
    /// Appends the page's 512-byte image, restamping the trailer CRC.
    pub fn write_to(&self, out: &mut Vec<u8>)
        requires
            self.entries@.len() <= MAX_DENSITY_LIST_ENTRIES,
        ensures
            final(out)@ == old(out)@ + spec_unicode_density_list_page_bytes(self@),
            (final(out)@).len() == old(out)@.len() + PAGE_SIZE,
    {
        let mut body: Vec<u8> = Vec::new();
        write_u8(&mut body, if self.backfill_complete {
            0x01
        } else {
            0
        });
        write_u8(&mut body, self.entries.len() as u8);
        write_u16(&mut body, 0);
        write_u32(&mut body, self.current_page);
        let cnt = self.entries.len();
        let mut k: usize = 0;
        while k < cnt
            invariant
                k <= cnt,
                cnt == self.entries@.len(),
                body@ == seq![
                    if self.backfill_complete {
                        0x01u8
                    } else {
                        0u8
                    },
                    cnt as u8,
                ] + spec_u16_bytes(0) + spec_u32_bytes(self.current_page)
                    + spec_density_list_entries_bytes(self.entries@.subrange(0, k as int)),
            decreases cnt - k,
        {
            write_u32(&mut body, self.entries[k].0);
            k = k + 1;
            proof {
                let p = self.entries@.subrange(0, k as int);
                assert(p.drop_last() =~= self.entries@.subrange(0, k - 1 as int));
                assert(p.last() == self.entries@[k - 1 as int]);
                assert(body@ =~= seq![
                    if self.backfill_complete {
                        0x01u8
                    } else {
                        0u8
                    },
                    cnt as u8,
                ] + spec_u16_bytes(0) + spec_u32_bytes(self.current_page)
                    + spec_density_list_entries_bytes(p));
            }
        }
        proof {
            assert(self.entries@.subrange(0, cnt as int) =~= self.entries@);
            lemma_density_list_entries_bytes_len(self.entries@);
        }
        write_zeros(&mut body, 488 - 4 * cnt);
        let c = compute_crc(0, body.as_slice());
        let t = UnicodePageTrailer {
            page_type: self.trailer.page_type,
            signature: self.trailer.signature,
            crc: c,
            block_id: self.trailer.block_id,
        };
        out.append(&mut body);
        serialize_unicode_page_trailer(&t, out);
        proof {
            assert(out@ =~= old(out)@ + spec_unicode_density_list_page_bytes(self@));
        }
    }
}

/// The mathematical content of a density-list page, 32-bit width.
#[verifier::ext_equal]
pub ghost struct AnsiDensityListPageModel {
    pub backfill_complete: bool,
    pub current_page: u32,
    pub entries: Seq<DensityListPageEntry>,
    pub trailer: AnsiPageTrailer,
}

/// The density-list page, 32-bit width: the trailer sits at byte 500 and
/// its CRC covers the 500 bytes before it.
#[derive(Clone, Debug, PartialEq, Eq)]
pub struct AnsiDensityListPage {
    pub backfill_complete: bool,
    pub current_page: u32,
    pub entries: Vec<DensityListPageEntry>,
    pub trailer: AnsiPageTrailer,
}

impl View for AnsiDensityListPage {
    type V = AnsiDensityListPageModel;

    open spec fn view(&self) -> AnsiDensityListPageModel {
        AnsiDensityListPageModel {
            backfill_complete: self.backfill_complete,
            current_page: self.current_page,
            entries: self.entries@,
            trailer: self.trailer,
        }
    }
}

impl AnsiDensityListPage {
    /// The entries must fit the page's entry region.
    pub fn new(
        backfill_complete: bool,
        current_page: u32,
        entries: Vec<DensityListPageEntry>,
        trailer: AnsiPageTrailer,
    ) -> (r: NdbResult<Self>)
        ensures
            entries@.len() <= MAX_DENSITY_LIST_ENTRIES ==> (r matches Ok(p) && p@ == (
            AnsiDensityListPageModel { backfill_complete, current_page, entries: entries@,
                trailer })),
            entries@.len() > MAX_DENSITY_LIST_ENTRIES ==> r == NdbResult::<Self>::Err(
                NdbError::InvalidBTreeEntryCount(entries@.len() as usize),
            ),
    {
        if entries.len() > MAX_DENSITY_LIST_ENTRIES {
            return Err(NdbError::InvalidBTreeEntryCount(entries.len()));
        }
        Ok(AnsiDensityListPage { backfill_complete, current_page, entries, trailer })
    }

    pub fn backfill_complete(&self) -> (r: bool)
        ensures
            r == self.backfill_complete,
    {
        self.backfill_complete
    }

    pub fn current_page(&self) -> (r: u32)
        ensures
            r == self.current_page,
    {
        self.current_page
    }

    pub fn entries(&self) -> (r: &Vec<DensityListPageEntry>)
        ensures
            r@ == self@.entries,
    {
        &self.entries
    }

    pub fn trailer(&self) -> (r: &AnsiPageTrailer)
        ensures
            *r == self.trailer,
    {
        &self.trailer
    }
}

/// The density-list page in the 512 bytes at `off`, 32-bit width.
pub open spec fn spec_parse_ansi_density_list_page(s: Seq<u8>, off: int) -> NdbResult<
    AnsiDensityListPageModel,
> {
    if !(0 <= off && off + PAGE_SIZE <= s.len()) {
        Err(NdbError::PageOutOfBounds(off as u64))
    } else {
        match spec_parse_ansi_page_trailer(s, off + 500) {
            Err(e) => Err(e),
            Ok(t) => if t.page_type != PageType::DensityList {
                Err(NdbError::UnexpectedPageType(t.page_type.to_u8_spec()))
            } else {
                let c = spec_crc(0, s.subrange(off, off + 500));
                if c != t.crc {
                    Err(NdbError::InvalidPageCrc(c))
                } else if s[off + 1] > MAX_DENSITY_LIST_ENTRIES as u8 {
                    Err(NdbError::InvalidBTreeEntryCount(s[off + 1] as usize))
                } else {
                    Ok(
                        (AnsiDensityListPageModel {
                            backfill_complete: s[off] & 0x01 == 0x01,
                            current_page: spec_u32_at(s, off + 4),
                            entries: spec_density_list_entries(s, off + 8, s[off + 1] as int),
                            trailer: t,
                        }),
                    )
                }
            },
        }
    }
}

pub fn parse_ansi_density_list_page(b: &[u8], off: usize) -> (r: NdbResult<AnsiDensityListPage>)
    ensures
        (r matches Ok(p) && spec_parse_ansi_density_list_page(b@, off as int) matches Ok(m)
            && p@ == m) || (r matches Err(e) && spec_parse_ansi_density_list_page(b@, off as int)
            == NdbResult::<AnsiDensityListPageModel>::Err(e)),
        r matches Ok(p) ==> spec_crc(0, b@.subrange(off as int, off + 500 as int))
            == p.trailer.crc,
    {
    let n: usize = b.len();
    if off > n || PAGE_SIZE > n - off {
        return Err(NdbError::PageOutOfBounds(off as u64));
    }
    let t = match parse_ansi_page_trailer(b, off + 500) {
        Ok(t) => t,
        Err(e) => {
            return Err(e);
        },
    };
    if t.page_type.to_u8() != 0x86 {
        return Err(NdbError::UnexpectedPageType(t.page_type.to_u8()));
    }
    let c = compute_crc(0, vstd::slice::slice_subrange(b, off, off + 500));
    if c != t.crc {
        return Err(NdbError::InvalidPageCrc(c));
    }
    let flags = read_u8(b, off);
    let count8 = read_u8(b, off + 1);
    if count8 > MAX_DENSITY_LIST_ENTRIES as u8 {
        return Err(NdbError::InvalidBTreeEntryCount(count8 as usize));
    }
    let current_page = read_u32(b, off + 4);
    let count = count8 as usize;
    let mut entries: Vec<DensityListPageEntry> = Vec::new();
    let mut k: usize = 0;
    while k < count
        invariant
            k <= count,
            count <= MAX_DENSITY_LIST_ENTRIES,
            off + PAGE_SIZE <= b@.len(),
            entries@ =~= spec_density_list_entries(b@, off + 8 as int, k as int),
        decreases count - k,
    {
        let bn: usize = b.len();
        entries.push(DensityListPageEntry(read_u32(b, off + 8 + 4 * k)));
        k = k + 1;
        proof {
            assert(entries@ =~= spec_density_list_entries(b@, off + 8 as int, k as int));
        }
    }
    proof {
        assert(entries@ =~= spec_density_list_entries(b@, off + 8 as int, count as int));
    }
    Ok(
        AnsiDensityListPage {
            backfill_complete: flags & 0x01 == 0x01,
            current_page,
            entries,
            trailer: t,
        },
    )
}

/// The 512-byte image of a density-list page, 32-bit width.
pub open spec fn spec_ansi_density_list_page_bytes(m: AnsiDensityListPageModel) -> Seq<u8>
    recommends
        m.entries.len() <= MAX_DENSITY_LIST_ENTRIES,
{
    let covered = seq![
        if m.backfill_complete {
            0x01u8
        } else {
            0u8
        },
        m.entries.len() as u8,
    ] + spec_u16_bytes(0) + spec_u32_bytes(m.current_page) + spec_density_list_entries_bytes(
        m.entries,
    ) + zero_bytes(492 - 4 * m.entries.len());
    covered + spec_ansi_page_trailer_bytes(
        (AnsiPageTrailer {
            page_type: m.trailer.page_type,
            signature: m.trailer.signature,
            block_id: m.trailer.block_id,
            crc: spec_crc(0, covered),
        }),
    )
}

impl AnsiDensityListPage {
    /// Appends the page's 512-byte image, restamping the trailer CRC.
    pub fn write_to(&self, out: &mut Vec<u8>)
        requires
            self.entries@.len() <= MAX_DENSITY_LIST_ENTRIES,
        ensures
            final(out)@ == old(out)@ + spec_ansi_density_list_page_bytes(self@),
            (final(out)@).len() == old(out)@.len() + PAGE_SIZE,
    {
        let mut body: Vec<u8> = Vec::new();
        write_u8(&mut body, if self.backfill_complete {
            0x01
        } else {
            0
        });
        write_u8(&mut body, self.entries.len() as u8);
        write_u16(&mut body, 0);
        write_u32(&mut body, self.current_page);
        let cnt = self.entries.len();
        let mut k: usize = 0;
        while k < cnt
            invariant
                k <= cnt,
                cnt == self.entries@.len(),
                body@ == seq![
                    if self.backfill_complete {
                        0x01u8
                    } else {
                        0u8
                    },
                    cnt as u8,
                ] + spec_u16_bytes(0) + spec_u32_bytes(self.current_page)
                    + spec_density_list_entries_bytes(self.entries@.subrange(0, k as int)),
            decreases cnt - k,
        {
            write_u32(&mut body, self.entries[k].0);
            k = k + 1;
            proof {
                let p = self.entries@.subrange(0, k as int);
                assert(p.drop_last() =~= self.entries@.subrange(0, k - 1 as int));
                assert(p.last() == self.entries@[k - 1 as int]);
                assert(body@ =~= seq![
                    if self.backfill_complete {
                        0x01u8
                    } else {
                        0u8
                    },
                    cnt as u8,
                ] + spec_u16_bytes(0) + spec_u32_bytes(self.current_page)
                    + spec_density_list_entries_bytes(p));
            }
        }
        proof {
            assert(self.entries@.subrange(0, cnt as int) =~= self.entries@);
            lemma_density_list_entries_bytes_len(self.entries@);
        }
        write_zeros(&mut body, 492 - 4 * cnt);
        let c = compute_crc(0, body.as_slice());
        let t = AnsiPageTrailer {
            page_type: self.trailer.page_type,
            signature: self.trailer.signature,
            block_id: self.trailer.block_id,
            crc: c,
        };
        out.append(&mut body);
        serialize_ansi_page_trailer(&t, out);
        proof {
            assert(out@ =~= old(out)@ + spec_ansi_density_list_page_bytes(self@));
        }
    }
}

} // verus!
