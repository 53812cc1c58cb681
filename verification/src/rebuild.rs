//! Allocation-map rebuild (crash recovery). When the ROOT reports the
//! allocation maps `Invalid`, every AMap, PMap, FMap and FPMap page is
//! regenerated: fresh AMap pages reserve the slots the map pages themselves
//! occupy, a traversal of the node and block B-trees marks every B-tree
//! page's 512 bytes as allocated, the hint maps are zeroed rather than
//! recomputed, and the header is rewritten with the recomputed free total
//! and a `Valid` status. Data-block allocations reachable through the trees
//! are not marked; the recovery only accounts for the trees' own pages.
//!
//! The whole rebuild is a pure function from the file image to a new file
//! image; after a successful run the new image reports a non-`Invalid`
//! status, so running the rebuild again returns its input unchanged.

use vstd::prelude::*;
use crate::bytes::splice;
use crate::block_id::{UnicodeBlockId, AnsiBlockId};
use crate::btree::{
    spec_walk_unicode_btree, spec_walk_ansi_btree, walk_unicode_btree, walk_ansi_btree,
};
use crate::error::{PstError, PstResult};
use crate::header::{
    UnicodeHeader, AnsiHeader, spec_parse_unicode_header, spec_parse_ansi_header,
    parse_unicode_header, parse_ansi_header, serialize_unicode_header, serialize_ansi_header,
    lemma_unicode_header_parse_prefix, lemma_ansi_header_parse_prefix, UNICODE_HEADER_SIZE,
    ANSI_HEADER_SIZE,
};
use crate::page::{
    PageType, PAGE_SIZE, MAP_BITS_SIZE, UnicodeMapPage, AnsiMapPage, UnicodePageTrailer,
    AnsiPageTrailer,
};
use crate::root::{AmapStatus, UnicodeRoot, AnsiRoot};

verus! {

broadcast use vstd::slice::group_slice_axioms;

/// The first AMap page sits here; all map-page strides are measured from
/// this offset.
pub const AMAP_FIRST_OFFSET: u64 = 0x4400;

/// The file bytes one AMap page accounts for: one bit per 64 bytes.
pub const AMAP_DATA_SIZE: u64 = 496 * 8 * 64;

pub const PMAP_FIRST_OFFSET: u64 = 0x4400 + 512;

/// One PMap page covers this many AMap pages.
pub const PMAP_PAGE_COUNT: u64 = 8;

pub const PMAP_DATA_SIZE: u64 = 496 * 8 * 64 * 8;

/// AMap pages before the first FMap page, and between FMap pages.
pub const FMAP_FIRST_SIZE: u64 = 128;

pub const FMAP_PAGE_COUNT: u64 = 496;

pub const FMAP_FIRST_OFFSET: u64 = 0x4400 + 128 * (496 * 8 * 64) + 2 * 512;

pub const FMAP_DATA_SIZE: u64 = (496 * 8 * 64) * 496;

/// AMap pages before the first FPMap page, and between FPMap pages.
pub const FPMAP_FIRST_SIZE: u64 = 128 * 64;

pub const FPMAP_PAGE_COUNT: u64 = 496 * 64;

pub const FPMAP_FIRST_OFFSET: u64 = 0x4400 + 128 * 64 * (496 * 8 * 64) + 3 * 512;

pub const FPMAP_DATA_SIZE: u64 = (496 * 8 * 64) * 496 * 64;

/// Whether a PMap page shares AMap page `i`'s 512-byte neighbourhood.
pub open spec fn spec_has_pmap_page(i: u64) -> bool {
    i % 8 == 0
}

pub open spec fn spec_has_fmap_page(i: u64) -> bool {
    spec_has_pmap_page(i) && i >= 128 && (i - 128) % 496 == 0
}

pub open spec fn spec_has_fpmap_page(i: u64) -> bool {
    spec_has_pmap_page(i) && i >= 8192 && (i - 8192) % 31744 == 0
}

/// How many 512-byte pages AMap page `i` reserves for itself and its
/// co-located map pages: between 1 and 4.
pub open spec fn spec_amap_reserved(i: u64) -> int {
    1 + (if spec_has_pmap_page(i) {
        1int
    } else {
        0int
    }) + (if spec_has_fmap_page(i) {
        1int
    } else {
        0int
    }) + (if spec_has_fpmap_page(i) {
        1int
    } else {
        0int
    })
}

/// A fresh AMap bitmap: the first `reserved` bytes all ones, the rest
/// zero.
pub open spec fn spec_fresh_amap_bits(reserved: int) -> Seq<u8> {
    Seq::new(MAP_BITS_SIZE as nat, |j: int| if j < reserved {
        0xFFu8
    } else {
        0u8
    })
}

/// The mathematical content of an in-progress AMap page during rebuild:
/// its bitmap, its trailer, and how many bytes of its span are free.
#[verifier::ext_equal]
pub ghost struct UnicodeAmapInfoModel {
    pub map_bits: Seq<u8>,
    pub trailer: UnicodePageTrailer,
    pub free_space: u64,
}

/// A fresh AMap page under construction, with its running free-space
/// count.
pub struct AllocationMapPageInfo {
    pub amap_page: UnicodeMapPage,
    pub free_space: u64,
}

impl View for AllocationMapPageInfo {
    type V = UnicodeAmapInfoModel;

    open spec fn view(&self) -> UnicodeAmapInfoModel {
        UnicodeAmapInfoModel {
            map_bits: self.amap_page.map_bits@,
            trailer: self.amap_page.trailer,
            free_space: self.free_space,
        }
    }
}

pub open spec fn spec_unicode_infos_view(s: Seq<AllocationMapPageInfo>) -> Seq<
    UnicodeAmapInfoModel,
> {
    Seq::new(s.len(), |i: int| s[i]@)
}

/// AMap page `i` as the rebuild first materializes it: reserved slots
/// marked, trailer typed `AllocationMap` and addressed at its canonical
/// offset, CRC left for serialization.
pub open spec fn spec_fresh_unicode_amap_info(i: u64) -> UnicodeAmapInfoModel {
    UnicodeAmapInfoModel {
        map_bits: spec_fresh_amap_bits(spec_amap_reserved(i)),
        trailer: (UnicodePageTrailer {
            page_type: PageType::AllocationMap,
            signature: 0,
            crc: 0,
            block_id: UnicodeBlockId((AMAP_FIRST_OFFSET + i * AMAP_DATA_SIZE) as u64),
        }),
        free_space: (AMAP_DATA_SIZE - 512 * spec_amap_reserved(i)) as u64,
    }
}

pub open spec fn spec_fresh_unicode_amap_infos(num: int) -> Seq<UnicodeAmapInfoModel> {
    Seq::new(num as nat, |i: int| spec_fresh_unicode_amap_info(i as u64))
}

/// Marking one 512-byte page at file offset `index` as allocated: the
/// covering AMap page loses 512 free bytes and the eight bits that cover
/// the page are set, across two bitmap bytes when the offset is not
/// 512-aligned within the bitmap.
pub open spec fn spec_mark_unicode_page(pages: Seq<UnicodeAmapInfoModel>, index: u64) -> PstResult<
    Seq<UnicodeAmapInfoModel>,
> {
    if index < AMAP_FIRST_OFFSET {
        Err(PstError::IntegerConversion)
    } else {
        let idx = index - AMAP_FIRST_OFFSET;
        let ai = idx as int / AMAP_DATA_SIZE as int;
        if ai >= pages.len() {
            Err(PstError::AllocationMapPageNotFound(ai as usize))
        } else {
            let p = pages[ai];
            if p.free_space < 512 {
                Err(PstError::IntegerConversion)
            } else {
                let bit = (idx as int % AMAP_DATA_SIZE as int) / 64;
                let byte = bit / 8;
                let b = bit % 8;
                if b == 0 {
                    Ok(
                        pages.update(
                            ai,
                            (UnicodeAmapInfoModel {
                                map_bits: p.map_bits.update(byte, 0xFFu8),
                                trailer: p.trailer,
                                free_space: (p.free_space - 512) as u64,
                            }),
                        ),
                    )
                } else if byte + 1 >= MAP_BITS_SIZE {
                    Err(PstError::IntegerConversion)
                } else {
                    let mask = (0xFFu16 << (b as u16));
                    let low = (mask & 0xFF) as u8;
                    let high = ((mask >> 8u16) & 0xFF) as u8;
                    Ok(
                        pages.update(
                            ai,
                            (UnicodeAmapInfoModel {
                                map_bits: p.map_bits.update(byte, p.map_bits[byte] | low).update(
                                    byte + 1,
                                    p.map_bits[byte + 1] | high,
                                ),
                                trailer: p.trailer,
                                free_space: (p.free_space - 512) as u64,
                            }),
                        ),
                    )
                }
            }
        }
    }
}

/// Marking a list of page offsets, first to last.
pub open spec fn spec_mark_unicode_pages(
    pages: Seq<UnicodeAmapInfoModel>,
    offs: Seq<u64>,
    i: int,
) -> PstResult<Seq<UnicodeAmapInfoModel>>
    decreases offs.len() - i,
{
    if i < 0 || i >= offs.len() {
        Ok(pages)
    } else {
        match spec_mark_unicode_page(pages, offs[i]) {
            Err(e) => Err(e),
            Ok(p2) => spec_mark_unicode_pages(p2, offs, i + 1),
        }
    }
}

pub open spec fn spec_sum_free(pages: Seq<UnicodeAmapInfoModel>) -> int
    decreases pages.len(),
{
    if pages.len() == 0 {
        0
    } else {
        spec_sum_free(pages.drop_last()) + pages.last().free_space
    }
}

/// Every page's bitmap stays 496 bytes and its free span within one AMap's
/// coverage.
pub open spec fn spec_unicode_infos_wf(pages: Seq<UnicodeAmapInfoModel>) -> bool {
    forall|i: int|
        0 <= i < pages.len() ==> (#[trigger] pages[i]).map_bits.len() == MAP_BITS_SIZE
            && pages[i].free_space <= AMAP_DATA_SIZE
}

pub proof fn lemma_sum_free_bound(pages: Seq<UnicodeAmapInfoModel>)
    requires
        spec_unicode_infos_wf(pages),
    ensures
        0 <= spec_sum_free(pages) <= pages.len() * AMAP_DATA_SIZE,
    decreases pages.len(),
{
    if pages.len() > 0 {
        assert(spec_unicode_infos_wf(pages.drop_last()));
        lemma_sum_free_bound(pages.drop_last());
        assert((pages.len() - 1) * AMAP_DATA_SIZE + AMAP_DATA_SIZE == pages.len()
            * AMAP_DATA_SIZE) by (nonlinear_arith);
    }
}

fn fresh_map_bits(fill: u8, reserved: usize) -> (r: Vec<u8>)
    requires
        reserved <= MAP_BITS_SIZE,
    ensures
        r@.len() == MAP_BITS_SIZE,
        r@ == Seq::new(MAP_BITS_SIZE as nat, |j: int| if j < reserved {
            0xFFu8
        } else {
            fill
        }),
{
    let mut v: Vec<u8> = Vec::new();
    let mut j: usize = 0;
    while j < MAP_BITS_SIZE
        invariant
            j <= MAP_BITS_SIZE,
            v@.len() == j,
            forall|k: int| 0 <= k < j ==> v@[k] == if k < reserved {
                0xFFu8
            } else {
                fill
            },
        decreases MAP_BITS_SIZE - j,
    {
        if j < reserved {
            v.push(0xFF);
        } else {
            v.push(fill);
        }
        j = j + 1;
    }
    proof {
        assert(v@ =~= Seq::new(MAP_BITS_SIZE as nat, |k: int| if k < reserved {
            0xFFu8
        } else {
            fill
        }));
    }
    v
}

/// Marks the 512-byte page at file offset `index` in the covering AMap
/// page. On an error the pages are unchanged.
pub fn mark_page_allocation(index: u64, amap_pages: &mut Vec<AllocationMapPageInfo>) -> (r:
    PstResult<()>)
    requires
        spec_unicode_infos_wf(spec_unicode_infos_view(old(amap_pages)@)),
    ensures
        r matches Ok(_) ==> spec_mark_unicode_page(spec_unicode_infos_view(old(amap_pages)@), index)
            == PstResult::<Seq<UnicodeAmapInfoModel>>::Ok(
            spec_unicode_infos_view(final(amap_pages)@),
        ),
        r matches Err(e) ==> (spec_mark_unicode_page(
            spec_unicode_infos_view(old(amap_pages)@),
            index,
        ) == PstResult::<Seq<UnicodeAmapInfoModel>>::Err(e) && final(amap_pages)@ == old(
            amap_pages,
        )@),
        spec_unicode_infos_wf(spec_unicode_infos_view(final(amap_pages)@)),
        final(amap_pages)@.len() == old(amap_pages)@.len(),
    {
    let ghost pages0 = spec_unicode_infos_view(amap_pages@);
    if index < AMAP_FIRST_OFFSET {
        return Err(PstError::IntegerConversion);
    }
    let idx = index - AMAP_FIRST_OFFSET;
    let ai64 = idx / AMAP_DATA_SIZE;
    let npages = amap_pages.len();
    if ai64 >= npages as u64 {
        return Err(PstError::AllocationMapPageNotFound(ai64 as usize));
    }
    let ai = ai64 as usize;
    let free = amap_pages[ai].free_space;
    if free < 512 {
        return Err(PstError::IntegerConversion);
    }
    let bit = ((idx % AMAP_DATA_SIZE) / 64) as usize;
    let byte = bit / 8;
    let b = bit % 8;
    proof {
        assert(idx % AMAP_DATA_SIZE < AMAP_DATA_SIZE);
        assert(bit < 3968);
        assert(byte < MAP_BITS_SIZE);
        assert(pages0[ai as int].map_bits.len() == MAP_BITS_SIZE);
    }
    let trailer = amap_pages[ai].amap_page.trailer;
    let mut bits = vstd::slice::slice_to_vec(amap_pages[ai].amap_page.map_bits.as_slice());
    if b == 0 {
        bits[byte] = 0xFF;
    } else {
        if byte + 1 >= MAP_BITS_SIZE {
            return Err(PstError::IntegerConversion);
        }
        let mask: u16 = 0xFFu16 << (b as u16);
        let low: u8 = (mask & 0xFF) as u8;
        let high: u8 = ((mask >> 8u16) & 0xFF) as u8;
        let b0 = bits[byte];
        bits[byte] = b0 | low;
        let b1 = bits[byte + 1];
        bits[byte + 1] = b1 | high;
    }
    let new_info = AllocationMapPageInfo {
        amap_page: UnicodeMapPage { map_bits: bits, trailer },
        free_space: free - 512,
    };
    amap_pages[ai] = new_info;
    proof {
        assert(spec_unicode_infos_view(amap_pages@) =~= spec_mark_unicode_page(
            pages0,
            index,
        )->Ok_0);
    }
    Ok(())
}

/// What the rebuild computes as the total free bytes across all AMap
/// pages: fresh pages for the whole file span, then one 512-byte mark for
/// every page of the node B-tree and of the block B-tree.
/// The AMap pages as the rebuild leaves them in memory: fresh pages for
/// the whole file span, then one 512-byte mark for every page of the node
/// B-tree and of the block B-tree, in preorder.
pub open spec fn spec_unicode_rebuild_marked(s: Seq<u8>) -> PstResult<Seq<UnicodeAmapInfoModel>> {
    match spec_parse_unicode_header(s) {
        Err(e) => Err(PstError::NodeDatabaseError(e)),
        Ok(h) => {
            let eof = h.root.file_eof_index;
            if !(AMAP_FIRST_OFFSET <= eof && eof <= s.len()) {
                Err(PstError::IntegerConversion)
            } else {
                let num = ((eof - AMAP_FIRST_OFFSET) as int + AMAP_DATA_SIZE as int - 1)
                    / AMAP_DATA_SIZE as int;
                let pages = spec_fresh_unicode_amap_infos(num);
                match spec_walk_unicode_btree(s, h.root.node_btree, 9, 32) {
                    Err(e) => Err(PstError::NodeDatabaseError(e)),
                    Ok(wn) => match spec_walk_unicode_btree(s, h.root.block_btree, 9, 24) {
                        Err(e) => Err(PstError::NodeDatabaseError(e)),
                        Ok(wb) => spec_mark_unicode_pages(pages, wn + wb, 0),
                    },
                }
            }
        },
    }
}

/// What the rebuild computes as the total free bytes across all AMap
/// pages.
pub open spec fn spec_unicode_rebuild_free_bytes(s: Seq<u8>) -> PstResult<u64> {
    match spec_unicode_rebuild_marked(s) {
        Err(e) => Err(e),
        Ok(marked) => Ok(spec_sum_free(marked) as u64),
    }
}

/// The number of AMap pages covering a file that ends at `eof`.
pub open spec fn spec_num_amap_pages(eof: u64) -> int {
    ((eof - AMAP_FIRST_OFFSET) as int + AMAP_DATA_SIZE as int - 1) / AMAP_DATA_SIZE as int
}

/// How many PMap pages the rebuild writes for `num` AMap pages.
pub open spec fn spec_pmap_count(num: int) -> int {
    num / PMAP_PAGE_COUNT as int
}

pub open spec fn spec_fmap_count(num: int) -> int {
    if num > FMAP_FIRST_SIZE as int {
        (num - FMAP_FIRST_SIZE as int) / FMAP_PAGE_COUNT as int
    } else {
        0
    }
}

pub open spec fn spec_fpmap_count(num: int) -> int {
    if num > FPMAP_FIRST_SIZE as int {
        (num - FPMAP_FIRST_SIZE as int) / FPMAP_PAGE_COUNT as int
    } else {
        0
    }
}

/// The canonical offset of the `i`th page of a map-page family that
/// starts at `first` and repeats every `stride` bytes.
pub open spec fn spec_stride_offset(first: int, stride: int, i: int) -> int {
    first + i * stride
}

/// Whether byte `j` lies in one of the first `c` pages of the family.
pub open spec fn spec_in_stride_pages(first: int, stride: int, c: int, j: int) -> bool {
    exists|i: int|
        0 <= i < c && #[trigger] spec_stride_offset(first, stride, i) <= j < spec_stride_offset(
            first,
            stride,
            i,
        ) + 512
}

proof fn lemma_in_stride_pages_step(first: int, stride: int, c: int, j: int)
    requires
        0 <= c,
    ensures
        spec_in_stride_pages(first, stride, c + 1, j) <==> (spec_in_stride_pages(
            first,
            stride,
            c,
            j,
        ) || (spec_stride_offset(first, stride, c) <= j < spec_stride_offset(first, stride, c)
            + 512)),
{
    if spec_in_stride_pages(first, stride, c + 1, j) {
        let i = choose|i: int|
            0 <= i < c + 1 && #[trigger] spec_stride_offset(first, stride, i) <= j
                < spec_stride_offset(first, stride, i) + 512;
        if i < c {
            assert(spec_in_stride_pages(first, stride, c, j));
        }
    }
    if spec_in_stride_pages(first, stride, c, j) {
        let i = choose|i: int|
            0 <= i < c && #[trigger] spec_stride_offset(first, stride, i) <= j
                < spec_stride_offset(first, stride, i) + 512;
        assert(spec_in_stride_pages(first, stride, c + 1, j));
    }
}

/// Every map page the rebuild writes sits at `0x4400 + q * 253952 + r`
/// with `r` naming its family; pages of distinct `(q, r)` never overlap.
proof fn lemma_map_ranges_disjoint(q1: int, r1: int, q2: int, r2: int)
    requires
        r1 == 0 || r1 == 512 || r1 == 1024 || r1 == 1536,
        r2 == 0 || r2 == 512 || r2 == 1024 || r2 == 1536,
        q1 != q2 || r1 != r2,
    ensures
        ({
            let x = 0x4400 + q1 * 253952 + r1;
            let y = 0x4400 + q2 * 253952 + r2;
            x + 512 <= y || y + 512 <= x
        }),
{
    if q1 != q2 {
        assert((q1 - q2) * 253952 >= 253952 || (q2 - q1) * 253952 >= 253952) by (nonlinear_arith)
            requires
                q1 != q2,
        ;
        assert(q1 * 253952 - q2 * 253952 >= 253952 || q2 * 253952 - q1 * 253952 >= 253952)
            by (nonlinear_arith)
            requires
                (q1 - q2) * 253952 >= 253952 || (q2 - q1) * 253952 >= 253952,
        ;
    }
}

/// Whether byte `j` of the image lies in a page the rebuild rewrites, for
/// a file covered by `num` AMap pages.
pub open spec fn spec_rewritten_map_byte(num: int, j: int) -> bool {
    ||| spec_in_stride_pages(AMAP_FIRST_OFFSET as int, AMAP_DATA_SIZE as int, num, j)
    ||| spec_in_stride_pages(
        PMAP_FIRST_OFFSET as int,
        PMAP_DATA_SIZE as int,
        spec_pmap_count(num),
        j,
    )
    ||| spec_in_stride_pages(
        FMAP_FIRST_OFFSET as int,
        FMAP_DATA_SIZE as int,
        spec_fmap_count(num),
        j,
    )
    ||| spec_in_stride_pages(
        FPMAP_FIRST_OFFSET as int,
        FPMAP_DATA_SIZE as int,
        spec_fpmap_count(num),
        j,
    )
}

/// Every rewritten page lies wholly inside the image.
pub open spec fn spec_map_offsets_fit(num: int, len: int) -> bool {
    &&& forall|i: int|
        0 <= i < num ==> #[trigger] spec_stride_offset(
            AMAP_FIRST_OFFSET as int,
            AMAP_DATA_SIZE as int,
            i,
        ) + 512 <= len
    &&& forall|j: int|
        0 <= j < spec_pmap_count(num) ==> #[trigger] spec_stride_offset(
            PMAP_FIRST_OFFSET as int,
            PMAP_DATA_SIZE as int,
            j,
        ) + 512 <= len
    &&& forall|j: int|
        0 <= j < spec_fmap_count(num) ==> #[trigger] spec_stride_offset(
            FMAP_FIRST_OFFSET as int,
            FMAP_DATA_SIZE as int,
            j,
        ) + 512 <= len
    &&& forall|j: int|
        0 <= j < spec_fpmap_count(num) ==> #[trigger] spec_stride_offset(
            FPMAP_FIRST_OFFSET as int,
            FPMAP_DATA_SIZE as int,
            j,
        ) + 512 <= len
}

/// The 512-byte image the rebuild writes for a marked AMap page.
pub open spec fn spec_unicode_amap_page_image(m: UnicodeAmapInfoModel) -> Seq<u8> {
    crate::page::spec_unicode_map_page_bytes(
        (crate::page::UnicodeMapPageModel { map_bits: m.map_bits, trailer: m.trailer }),
    )
}

/// The image of the `j`th PMap page: every bit set, typed
/// `AllocationPageMap`, addressed at its canonical offset.
pub open spec fn spec_unicode_pmap_page_image(j: int) -> Seq<u8> {
    crate::page::spec_unicode_map_page_bytes(
        (crate::page::UnicodeMapPageModel {
            map_bits: Seq::new(MAP_BITS_SIZE as nat, |k: int| 0xFFu8),
            trailer: (UnicodePageTrailer {
                page_type: PageType::AllocationPageMap,
                signature: 0,
                crc: 0,
                block_id: UnicodeBlockId(
                    spec_stride_offset(PMAP_FIRST_OFFSET as int, PMAP_DATA_SIZE as int, j) as u64,
                ),
            }),
        }),
    )
}

/// The image of the `j`th FMap page: hint bytes zeroed.
pub open spec fn spec_unicode_fmap_page_image(j: int) -> Seq<u8> {
    crate::page::spec_unicode_map_page_bytes(
        (crate::page::UnicodeMapPageModel {
            map_bits: Seq::new(MAP_BITS_SIZE as nat, |k: int| 0u8),
            trailer: (UnicodePageTrailer {
                page_type: PageType::FreeMap,
                signature: 0,
                crc: 0,
                block_id: UnicodeBlockId(
                    spec_stride_offset(FMAP_FIRST_OFFSET as int, FMAP_DATA_SIZE as int, j) as u64,
                ),
            }),
        }),
    )
}

/// The image of the `j`th FPMap page: bits zeroed.
pub open spec fn spec_unicode_fpmap_page_image(j: int) -> Seq<u8> {
    crate::page::spec_unicode_map_page_bytes(
        (crate::page::UnicodeMapPageModel {
            map_bits: Seq::new(MAP_BITS_SIZE as nat, |k: int| 0u8),
            trailer: (UnicodePageTrailer {
                page_type: PageType::FreePageMap,
                signature: 0,
                crc: 0,
                block_id: UnicodeBlockId(
                    spec_stride_offset(FPMAP_FIRST_OFFSET as int, FPMAP_DATA_SIZE as int, j) as u64,
                ),
            }),
        }),
    )
}

/// What a finished rebuild leaves in the image when `marked` are the AMap
/// pages of the pipeline and `num` their count: every map page of every
/// family stands serialized at its canonical offset.
pub open spec fn spec_unicode_map_pages_written(
    s: Seq<u8>,
    marked: Seq<UnicodeAmapInfoModel>,
    num: int,
) -> bool {
    &&& forall|i: int|
        0 <= i < num ==> s.subrange(
            #[trigger] spec_stride_offset(AMAP_FIRST_OFFSET as int, AMAP_DATA_SIZE as int, i),
            spec_stride_offset(AMAP_FIRST_OFFSET as int, AMAP_DATA_SIZE as int, i) + 512,
        ) == spec_unicode_amap_page_image(marked[i])
    &&& forall|j: int|
        0 <= j < spec_pmap_count(num) ==> s.subrange(
            #[trigger] spec_stride_offset(PMAP_FIRST_OFFSET as int, PMAP_DATA_SIZE as int, j),
            spec_stride_offset(PMAP_FIRST_OFFSET as int, PMAP_DATA_SIZE as int, j) + 512,
        ) == spec_unicode_pmap_page_image(j)
    &&& forall|j: int|
        0 <= j < spec_fmap_count(num) ==> s.subrange(
            #[trigger] spec_stride_offset(FMAP_FIRST_OFFSET as int, FMAP_DATA_SIZE as int, j),
            spec_stride_offset(FMAP_FIRST_OFFSET as int, FMAP_DATA_SIZE as int, j) + 512,
        ) == spec_unicode_fmap_page_image(j)
    &&& forall|j: int|
        0 <= j < spec_fpmap_count(num) ==> s.subrange(
            #[trigger] spec_stride_offset(FPMAP_FIRST_OFFSET as int, FPMAP_DATA_SIZE as int, j),
            spec_stride_offset(FPMAP_FIRST_OFFSET as int, FPMAP_DATA_SIZE as int, j) + 512,
        ) == spec_unicode_fpmap_page_image(j)
}

/// Builds the fresh AMap pages, walks both B-trees, marks every tree
/// page, and totals the remaining free bytes.
#[verifier::rlimit(100)]
#[verifier::loop_isolation(false)]
fn unicode_compute_rebuild(file: &[u8], h: &UnicodeHeader) -> (r: PstResult<
    (Vec<AllocationMapPageInfo>, u64, u64),
>)
    requires
        spec_parse_unicode_header(file@) matches Ok(m) && m == h@,
        h@.root.file_eof_index >= AMAP_FIRST_OFFSET,
        h@.root.file_eof_index <= file@.len(),
        h@.root.file_eof_index <= 0x0000_0040_0000_0000u64,
    ensures
        r matches Ok(t) ==> {
            &&& spec_unicode_rebuild_marked(file@) == PstResult::<
                Seq<UnicodeAmapInfoModel>,
            >::Ok(spec_unicode_infos_view(t.0@))
            &&& spec_unicode_rebuild_free_bytes(file@) == PstResult::<u64>::Ok(t.2)
            &&& t.1 as int == spec_num_amap_pages(h@.root.file_eof_index)
            &&& t.0@.len() == t.1
            &&& spec_unicode_infos_wf(spec_unicode_infos_view(t.0@))
            &&& t.1 <= 1082403
        },
        spec_unicode_rebuild_marked(file@) is Ok ==> r is Ok,
{
    let n: usize = file.len();
    let eof = h.root.file_eof_index;
    let eofd = eof - AMAP_FIRST_OFFSET;
    let num64 = (eofd + AMAP_DATA_SIZE - 1) / AMAP_DATA_SIZE;
    proof {
        let x = (eofd + 253951) as int;
        vstd::arithmetic::div_mod::lemma_fundamental_div_mod(x, 253952);
        assert(num64 as int == x / 253952);
        assert(AMAP_DATA_SIZE == 253952u64);
        assert(num64 * AMAP_DATA_SIZE <= eofd + AMAP_DATA_SIZE - 1);
        assert(eofd <= 0x0000_0040_0000_0000u64);
        assert(num64 * 253952 <= 0x0000_0040_0000_0000 + 253951);
        assert(num64 <= 1082403) by (nonlinear_arith)
            requires
                num64 * 253952 <= 0x0000_0040_0000_0000 + 253951u64,
        ;
    }
    let num = num64 as usize;

    // Fresh AMap pages, with the co-located map pages' slots reserved.
    let mut infos: Vec<AllocationMapPageInfo> = Vec::new();
    let mut i: usize = 0;
    while i < num
        invariant
            i <= num,
            infos@.len() == i,
            forall|j: int|
                0 <= j < i ==> (#[trigger] infos@[j])@ == spec_fresh_unicode_amap_info(j as u64),
            spec_unicode_infos_wf(spec_unicode_infos_view(infos@)),
        decreases num - i,
    {
        let i64v = i as u64;
        let has_pmap = i64v % 8 == 0;
        let has_fmap = has_pmap && i64v >= FMAP_FIRST_SIZE && (i64v - FMAP_FIRST_SIZE)
            % FMAP_PAGE_COUNT == 0;
        let has_fpmap = has_pmap && i64v >= FPMAP_FIRST_SIZE && (i64v - FPMAP_FIRST_SIZE)
            % FPMAP_PAGE_COUNT == 0;
        let mut reserved: usize = 1;
        if has_pmap {
            reserved = reserved + 1;
        }
        if has_fmap {
            reserved = reserved + 1;
        }
        if has_fpmap {
            reserved = reserved + 1;
        }
        let bits = fresh_map_bits(0, reserved);
        proof {
            assert(i64v * AMAP_DATA_SIZE <= num64 * AMAP_DATA_SIZE) by (nonlinear_arith)
                requires
                    i64v <= num64 && AMAP_DATA_SIZE >= 1u64,
            ;
        }
        let offset = AMAP_FIRST_OFFSET + i64v * AMAP_DATA_SIZE;
        let trailer = UnicodePageTrailer::new(
            PageType::AllocationMap,
            0,
            UnicodeBlockId::from_raw(offset),
            0,
        );
        let free_space = AMAP_DATA_SIZE - 512 * (reserved as u64);
        infos.push(
            AllocationMapPageInfo { amap_page: UnicodeMapPage { map_bits: bits, trailer },
                free_space },
        );
        proof {
            assert(bits@ =~= spec_fresh_amap_bits(spec_amap_reserved(i64v)));
            assert(infos@[i as int]@ =~= spec_fresh_unicode_amap_info(i64v));
        }
        i = i + 1;
    }
    proof {
        assert(spec_unicode_infos_view(infos@) =~= spec_fresh_unicode_amap_infos(num64 as int));
    }

    // Every page of both B-trees, in preorder.
    let mut offs: Vec<u64> = Vec::new();
    match walk_unicode_btree(file, h.root.node_btree, 9, 32, &mut offs) {
        Ok(_) => {},
        Err(e) => {
            proof {
                assert(spec_unicode_rebuild_marked(file@) == PstResult::<
                    Seq<UnicodeAmapInfoModel>,
                >::Err(PstError::NodeDatabaseError(e)));
            }
            return Err(PstError::NodeDatabaseError(e));
        },
    }
    match walk_unicode_btree(file, h.root.block_btree, 9, 24, &mut offs) {
        Ok(_) => {},
        Err(e) => {
            proof {
                assert(spec_unicode_rebuild_marked(file@) == PstResult::<
                    Seq<UnicodeAmapInfoModel>,
                >::Err(PstError::NodeDatabaseError(e)));
            }
            return Err(PstError::NodeDatabaseError(e));
        },
    }
    let ghost wn = spec_walk_unicode_btree(file@, h@.root.node_btree, 9, 32)->Ok_0;
    let ghost wb = spec_walk_unicode_btree(file@, h@.root.block_btree, 9, 24)->Ok_0;
    proof {
        assert(offs@ == wn + wb);
    }

    // Mark each tree page's 512 bytes as allocated.
    let ghost fresh = spec_fresh_unicode_amap_infos(num64 as int);
    let nmarks = offs.len();
    let mut t: usize = 0;
    while t < nmarks
        invariant
            t <= nmarks,
            nmarks == offs@.len(),
            spec_unicode_infos_wf(spec_unicode_infos_view(infos@)),
            infos@.len() == num64,
            spec_mark_unicode_pages(fresh, offs@, 0) == spec_mark_unicode_pages(
                spec_unicode_infos_view(infos@),
                offs@,
                t as int,
            ),
        decreases nmarks - t,
    {
        let off_t = offs[t];
        match mark_page_allocation(off_t, &mut infos) {
            Ok(_) => {},
            Err(e) => {
                proof {
                    assert(spec_mark_unicode_page(spec_unicode_infos_view(infos@), off_t)
                        == PstResult::<Seq<UnicodeAmapInfoModel>>::Err(e));
                    assert(spec_mark_unicode_pages(spec_unicode_infos_view(infos@), offs@, t as int)
                        == PstResult::<Seq<UnicodeAmapInfoModel>>::Err(e));
                    assert(spec_unicode_rebuild_marked(file@) == PstResult::<
                        Seq<UnicodeAmapInfoModel>,
                    >::Err(e));
                }
                return Err(e);
            },
        }
        t = t + 1;
    }
    proof {
        assert(spec_mark_unicode_pages(spec_unicode_infos_view(infos@), offs@, nmarks as int)
            == PstResult::<Seq<UnicodeAmapInfoModel>>::Ok(spec_unicode_infos_view(infos@)));
    }
    let ghost marked = spec_unicode_infos_view(infos@);

    // Total free bytes across all AMap pages.
    let mut free_bytes: u64 = 0;
    let mut t2: usize = 0;
    while t2 < num
        invariant
            t2 <= num,
            num == num64,
            num64 <= 1082403,
            infos@.len() == num64,
            marked == spec_unicode_infos_view(infos@),
            spec_unicode_infos_wf(marked),
            free_bytes == spec_sum_free(marked.subrange(0, t2 as int)),
            free_bytes <= t2 * AMAP_DATA_SIZE,
        decreases num - t2,
    {
        proof {
            assert(marked.subrange(0, t2 + 1 as int).drop_last() =~= marked.subrange(
                0,
                t2 as int,
            ));
            assert((t2 + 1) * AMAP_DATA_SIZE == t2 * AMAP_DATA_SIZE + AMAP_DATA_SIZE)
                by (nonlinear_arith);
            assert((t2 + 1) * AMAP_DATA_SIZE <= 1082404 * AMAP_DATA_SIZE) by (nonlinear_arith)
                requires
                    t2 + 1 <= 1082404 && AMAP_DATA_SIZE >= 1u64,
            ;
            assert(marked[t2 as int].free_space <= AMAP_DATA_SIZE);
            assert(infos@[t2 as int]@ == marked[t2 as int]);
        }
        free_bytes = free_bytes + infos[t2].free_space;
        t2 = t2 + 1;
    }
    proof {
        assert(marked.subrange(0, num64 as int) =~= marked);
        assert(spec_unicode_rebuild_marked(file@) == PstResult::<
            Seq<UnicodeAmapInfoModel>,
        >::Ok(marked));
    }
    Ok((infos, num64, free_bytes))
}

/// The four families' page offsets all have the form
/// `0x4400 + (qa + qm * i) * 253952 + r`.
proof fn lemma_family_offset_form(first: int, stride: int, qa: int, qm: int, r: int, i: int)
    requires
        first == 0x4400 + qa * 253952 + r,
        stride == qm * 253952,
    ensures
        spec_stride_offset(first, stride, i) == 0x4400 + (qa + qm * i) * 253952 + r,
{
    assert((qa + qm * i) * 253952 == qa * 253952 + (qm * i) * 253952) by (nonlinear_arith);
    assert((qm * i) * 253952 == i * (qm * 253952)) by (nonlinear_arith);
}

proof fn lemma_q_injective(qm: int, i1: int, i2: int)
    requires
        qm >= 1,
        i1 != i2,
    ensures
        qm * i1 != qm * i2,
{
    assert(qm * i1 != qm * i2) by (nonlinear_arith)
        requires
            qm >= 1 && i1 != i2,
    ;
}

/// Two pages of the same or different families never overlap when their
/// `(q, r)` coordinates differ; `r` alone separates distinct families.
proof fn lemma_stride_families_disjoint(
    first1: int,
    stride1: int,
    qa1: int,
    qm1: int,
    r1: int,
    i1: int,
    first2: int,
    stride2: int,
    qa2: int,
    qm2: int,
    r2: int,
    i2: int,
)
    requires
        first1 == 0x4400 + qa1 * 253952 + r1,
        stride1 == qm1 * 253952,
        first2 == 0x4400 + qa2 * 253952 + r2,
        stride2 == qm2 * 253952,
        r1 == 0 || r1 == 512 || r1 == 1024 || r1 == 1536,
        r2 == 0 || r2 == 512 || r2 == 1024 || r2 == 1536,
        r1 != r2 || (qa1 + qm1 * i1) != (qa2 + qm2 * i2),
    ensures
        spec_stride_offset(first1, stride1, i1) + 512 <= spec_stride_offset(first2, stride2, i2)
            || spec_stride_offset(first2, stride2, i2) + 512 <= spec_stride_offset(
            first1,
            stride1,
            i1,
        ),
{
    lemma_family_offset_form(first1, stride1, qa1, qm1, r1, i1);
    lemma_family_offset_form(first2, stride2, qa2, qm2, r2, i2);
    lemma_map_ranges_disjoint(qa1 + qm1 * i1, r1, qa2 + qm2 * i2, r2);
}

proof fn lemma_stride_offset_lb(first: int, stride: int, i: int)
    requires
        i >= 0,
        stride >= 0,
    ensures
        spec_stride_offset(first, stride, i) >= first,
{
    assert(i * stride >= 0) by (nonlinear_arith)
        requires
            i >= 0 && stride >= 0,
    ;
}

/// Writes every regenerated map page at its canonical offset into the
/// image: the marked AMap pages, all-ones PMap pages, and zeroed FMap and
/// FPMap hint pages. On success the image holds exactly those pages and
/// every other byte is untouched; when every page fits the image, the
/// writes cannot fail.
#[verifier::rlimit(100)]
#[verifier::loop_isolation(false)]
fn unicode_write_map_pages(
    out: &mut Vec<u8>,
    infos: &Vec<AllocationMapPageInfo>,
    num64: u64,
) -> (r: PstResult<()>)
    requires
        spec_unicode_infos_wf(spec_unicode_infos_view(infos@)),
        infos@.len() == num64,
        num64 <= 1082403,
    ensures
        r matches Ok(_) ==> {
            &&& final(out)@.len() == old(out)@.len()
            &&& spec_unicode_map_pages_written(
                final(out)@,
                spec_unicode_infos_view(infos@),
                num64 as int,
            )
            &&& spec_map_offsets_fit(num64 as int, final(out)@.len() as int)
            &&& forall|j: int|
                0 <= j < final(out)@.len() && !spec_rewritten_map_byte(num64 as int, j)
                    ==> final(out)@[j] == old(out)@[j]
        },
        spec_map_offsets_fit(num64 as int, old(out)@.len() as int) ==> r is Ok,
{
    let n: usize = out.len();
    let num = num64 as usize;
    let ghost view0 = spec_unicode_infos_view(infos@);
    let ghost s0 = out@;
    let ghost af = AMAP_FIRST_OFFSET as int;
    let ghost ad = AMAP_DATA_SIZE as int;
    let ghost pf = PMAP_FIRST_OFFSET as int;
    let ghost pd = PMAP_DATA_SIZE as int;
    let ghost ff = FMAP_FIRST_OFFSET as int;
    let ghost fd = FMAP_DATA_SIZE as int;
    let ghost gf = FPMAP_FIRST_OFFSET as int;
    let ghost gd = FPMAP_DATA_SIZE as int;

    // AMap pages.
    let mut w: usize = 0;
    while w < num
        invariant
            w <= num,
            num == num64,
            out@.len() == n,
            forall|i: int|
                0 <= i < w ==> out@.subrange(
                    #[trigger] spec_stride_offset(af, ad, i),
                    spec_stride_offset(af, ad, i) + 512,
                ) == spec_unicode_amap_page_image(view0[i]),
            forall|i: int|
                0 <= i < w ==> #[trigger] spec_stride_offset(af, ad, i) + 512 <= n,
            forall|j: int|
                0 <= j < out@.len() && !spec_in_stride_pages(af, ad, w as int, j) ==> out@[j]
                    == s0[j],
        decreases num - w,
    {
        proof {
            assert((w as u64) * AMAP_DATA_SIZE <= 1082403 * AMAP_DATA_SIZE) by (nonlinear_arith)
                requires
                    w as u64 <= 1082403u64 && AMAP_DATA_SIZE >= 1u64,
            ;
        }
        let offset = AMAP_FIRST_OFFSET + (w as u64) * AMAP_DATA_SIZE;
        proof {
            assert(offset as int == spec_stride_offset(af, ad, w as int));
        }
        if offset > n as u64 || (PAGE_SIZE as u64) > n as u64 - offset {
            proof {
                assert(spec_stride_offset(af, ad, w as int) + 512 > n as int);
                assert(!spec_map_offsets_fit(num64 as int, old(out)@.len() as int));
            }
            return Err(PstError::IntegerConversion);
        }
        proof {
            assert(spec_unicode_infos_view(infos@)[w as int] == infos@[w as int]@);
        }
        let mut pb: Vec<u8> = Vec::new();
        infos[w].amap_page.write_to(&mut pb);
        let ghost pre = out@;
        splice(out, offset as usize, pb.as_slice());
        proof {
            let o = spec_stride_offset(af, ad, w as int);
            assert(infos@[w as int].amap_page@ =~= (crate::page::UnicodeMapPageModel {
                map_bits: view0[w as int].map_bits,
                trailer: view0[w as int].trailer,
            }));
            assert(pb@ == spec_unicode_amap_page_image(view0[w as int]));
            assert(out@.subrange(o, o + 512) =~= pb@);
            assert forall|i: int| 0 <= i < w implies out@.subrange(
                #[trigger] spec_stride_offset(af, ad, i),
                spec_stride_offset(af, ad, i) + 512,
            ) == spec_unicode_amap_page_image(view0[i]) by {
                lemma_stride_families_disjoint(af, ad, 0, 1, 0, i, af, ad, 0, 1, 0, w as int);
                assert(out@.subrange(
                    spec_stride_offset(af, ad, i),
                    spec_stride_offset(af, ad, i) + 512,
                ) =~= pre.subrange(
                    spec_stride_offset(af, ad, i),
                    spec_stride_offset(af, ad, i) + 512,
                ));
            }
            assert forall|j: int|
                0 <= j < out@.len() && !spec_in_stride_pages(af, ad, w + 1 as int, j) implies out@[j]
                == s0[j] by {
                lemma_in_stride_pages_step(af, ad, w as int, j);
            }
        }
        w = w + 1;
    }
    let ghost s1 = out@;
    proof {
        assert(forall|j: int|
            0 <= j < s1.len() && !spec_in_stride_pages(af, ad, num64 as int, j) ==> s1[j] == s0[j]);
        assert(forall|i: int|
            0 <= i < num64 ==> s1.subrange(
                #[trigger] spec_stride_offset(af, ad, i),
                spec_stride_offset(af, ad, i) + 512,
            ) == spec_unicode_amap_page_image(view0[i]));
        assert(forall|i: int|
            0 <= i < num64 ==> #[trigger] spec_stride_offset(af, ad, i) + 512 <= n);
    }

    // PMap pages: one per eight AMap pages, every bit set.
    let pcount = num64 / PMAP_PAGE_COUNT;
    proof {
        assert(pcount as int == spec_pmap_count(num64 as int));
    }
    let mut w2: u64 = 0;
    while w2 < pcount
        invariant
            w2 <= pcount,
            pcount as int == spec_pmap_count(num64 as int),
            pcount <= num64,
            out@.len() == n,
            forall|j: int|
                0 <= j < w2 ==> out@.subrange(
                    #[trigger] spec_stride_offset(pf, pd, j),
                    spec_stride_offset(pf, pd, j) + 512,
                ) == spec_unicode_pmap_page_image(j),
            forall|i: int|
                0 <= i < w2 ==> #[trigger] spec_stride_offset(pf, pd, i) + 512 <= n,
            forall|j: int|
                0 <= j < out@.len() && !spec_in_stride_pages(pf, pd, w2 as int, j) ==> out@[j]
                    == s1[j],
        decreases pcount - w2,
    {
        proof {
            vstd::arithmetic::div_mod::lemma_fundamental_div_mod(num64 as int, 8);
            assert(w2 * 8 <= num64);
            assert(w2 * PMAP_DATA_SIZE <= 1082403 * AMAP_DATA_SIZE) by (nonlinear_arith)
                requires
                    w2 * 8 <= num64 && num64 <= 1082403u64 && PMAP_DATA_SIZE == 2031616u64
                        && AMAP_DATA_SIZE == 253952u64,
            ;
        }
        let offset = PMAP_FIRST_OFFSET + w2 * PMAP_DATA_SIZE;
        proof {
            assert(offset as int == spec_stride_offset(pf, pd, w2 as int));
        }
        if offset > n as u64 || (PAGE_SIZE as u64) > n as u64 - offset {
            proof {
                assert(spec_stride_offset(pf, pd, w2 as int) + 512 > n as int);
                assert(!spec_map_offsets_fit(num64 as int, old(out)@.len() as int));
            }
            return Err(PstError::IntegerConversion);
        }
        let bits = fresh_map_bits(0xFF, 0);
        let trailer = UnicodePageTrailer::new(
            PageType::AllocationPageMap,
            0,
            UnicodeBlockId::from_raw(offset),
            0,
        );
        let page = UnicodeMapPage { map_bits: bits, trailer };
        let mut pb: Vec<u8> = Vec::new();
        page.write_to(&mut pb);
        let ghost pre = out@;
        splice(out, offset as usize, pb.as_slice());
        proof {
            let o = spec_stride_offset(pf, pd, w2 as int);
            assert(page@ =~= (crate::page::UnicodeMapPageModel {
                map_bits: Seq::new(MAP_BITS_SIZE as nat, |k: int| 0xFFu8),
                trailer: (UnicodePageTrailer {
                    page_type: PageType::AllocationPageMap,
                    signature: 0,
                    crc: 0,
                    block_id: UnicodeBlockId(o as u64),
                }),
            }));
            assert(pb@ == spec_unicode_pmap_page_image(w2 as int));
            assert(out@.subrange(o, o + 512) =~= pb@);
            assert forall|j: int| 0 <= j < w2 implies out@.subrange(
                #[trigger] spec_stride_offset(pf, pd, j),
                spec_stride_offset(pf, pd, j) + 512,
            ) == spec_unicode_pmap_page_image(j) by {
                lemma_q_injective(8, j, w2 as int);
                lemma_stride_families_disjoint(pf, pd, 0, 8, 512, j, pf, pd, 0, 8, 512, w2 as int);
                assert(out@.subrange(
                    spec_stride_offset(pf, pd, j),
                    spec_stride_offset(pf, pd, j) + 512,
                ) =~= pre.subrange(
                    spec_stride_offset(pf, pd, j),
                    spec_stride_offset(pf, pd, j) + 512,
                ));
            }
            assert forall|j: int|
                0 <= j < out@.len() && !spec_in_stride_pages(pf, pd, w2 + 1 as int, j) implies out@[j]
                == s1[j] by {
                lemma_in_stride_pages_step(pf, pd, w2 as int, j);
            }
        }
        w2 = w2 + 1;
    }
    let ghost s2 = out@;
    proof {
        assert(forall|j: int|
            0 <= j < s2.len() && !spec_in_stride_pages(pf, pd, spec_pmap_count(num64 as int), j)
                ==> s2[j] == s1[j]);
        assert(forall|i: int|
            0 <= i < spec_pmap_count(num64 as int) ==> s2.subrange(
                #[trigger] spec_stride_offset(pf, pd, i),
                spec_stride_offset(pf, pd, i) + 512,
            ) == spec_unicode_pmap_page_image(i));
        assert(forall|i: int|
            0 <= i < spec_pmap_count(num64 as int) ==> #[trigger] spec_stride_offset(pf, pd, i)
                + 512 <= n);
    }

    // FMap pages: hint bytes zeroed rather than recomputed.
    let fcount = if num64 > FMAP_FIRST_SIZE {
        (num64 - FMAP_FIRST_SIZE) / FMAP_PAGE_COUNT
    } else {
        0
    };
    proof {
        assert(fcount as int == spec_fmap_count(num64 as int));
    }
    let mut w3: u64 = 0;
    while w3 < fcount
        invariant
            w3 <= fcount,
            fcount as int == spec_fmap_count(num64 as int),
            fcount <= num64,
            out@.len() == n,
            forall|j: int|
                0 <= j < w3 ==> out@.subrange(
                    #[trigger] spec_stride_offset(ff, fd, j),
                    spec_stride_offset(ff, fd, j) + 512,
                ) == spec_unicode_fmap_page_image(j),
            forall|i: int|
                0 <= i < w3 ==> #[trigger] spec_stride_offset(ff, fd, i) + 512 <= n,
            forall|j: int|
                0 <= j < out@.len() && !spec_in_stride_pages(ff, fd, w3 as int, j) ==> out@[j]
                    == s2[j],
        decreases fcount - w3,
    {
        proof {
            assert(w3 * FMAP_DATA_SIZE <= 1082403 * FMAP_DATA_SIZE) by (nonlinear_arith)
                requires
                    w3 <= 1082403u64 && FMAP_DATA_SIZE >= 1u64,
            ;
        }
        let offset = FMAP_FIRST_OFFSET + w3 * FMAP_DATA_SIZE;
        proof {
            assert(offset as int == spec_stride_offset(ff, fd, w3 as int));
        }
        if offset > n as u64 || (PAGE_SIZE as u64) > n as u64 - offset {
            proof {
                assert(spec_stride_offset(ff, fd, w3 as int) + 512 > n as int);
                assert(!spec_map_offsets_fit(num64 as int, old(out)@.len() as int));
            }
            return Err(PstError::IntegerConversion);
        }
        let bits = fresh_map_bits(0, 0);
        let trailer = UnicodePageTrailer::new(
            PageType::FreeMap,
            0,
            UnicodeBlockId::from_raw(offset),
            0,
        );
        let page = UnicodeMapPage { map_bits: bits, trailer };
        let mut pb: Vec<u8> = Vec::new();
        page.write_to(&mut pb);
        let ghost pre = out@;
        splice(out, offset as usize, pb.as_slice());
        proof {
            let o = spec_stride_offset(ff, fd, w3 as int);
            assert(page@ =~= (crate::page::UnicodeMapPageModel {
                map_bits: Seq::new(MAP_BITS_SIZE as nat, |k: int| 0u8),
                trailer: (UnicodePageTrailer {
                    page_type: PageType::FreeMap,
                    signature: 0,
                    crc: 0,
                    block_id: UnicodeBlockId(o as u64),
                }),
            }));
            assert(pb@ == spec_unicode_fmap_page_image(w3 as int));
            assert(out@.subrange(o, o + 512) =~= pb@);
            assert forall|j: int| 0 <= j < w3 implies out@.subrange(
                #[trigger] spec_stride_offset(ff, fd, j),
                spec_stride_offset(ff, fd, j) + 512,
            ) == spec_unicode_fmap_page_image(j) by {
                lemma_q_injective(496, j, w3 as int);
                lemma_stride_families_disjoint(
                    ff,
                    fd,
                    128,
                    496,
                    1024,
                    j,
                    ff,
                    fd,
                    128,
                    496,
                    1024,
                    w3 as int,
                );
                assert(out@.subrange(
                    spec_stride_offset(ff, fd, j),
                    spec_stride_offset(ff, fd, j) + 512,
                ) =~= pre.subrange(
                    spec_stride_offset(ff, fd, j),
                    spec_stride_offset(ff, fd, j) + 512,
                ));
            }
            assert forall|j: int|
                0 <= j < out@.len() && !spec_in_stride_pages(ff, fd, w3 + 1 as int, j) implies out@[j]
                == s2[j] by {
                lemma_in_stride_pages_step(ff, fd, w3 as int, j);
            }
        }
        w3 = w3 + 1;
    }
    let ghost s3 = out@;
    proof {
        assert(forall|j: int|
            0 <= j < s3.len() && !spec_in_stride_pages(ff, fd, spec_fmap_count(num64 as int), j)
                ==> s3[j] == s2[j]);
        assert(forall|i: int|
            0 <= i < spec_fmap_count(num64 as int) ==> s3.subrange(
                #[trigger] spec_stride_offset(ff, fd, i),
                spec_stride_offset(ff, fd, i) + 512,
            ) == spec_unicode_fmap_page_image(i));
        assert(forall|i: int|
            0 <= i < spec_fmap_count(num64 as int) ==> #[trigger] spec_stride_offset(ff, fd, i)
                + 512 <= n);
    }

    // FPMap pages, likewise zeroed.
    let fpcount = if num64 > FPMAP_FIRST_SIZE {
        (num64 - FPMAP_FIRST_SIZE) / FPMAP_PAGE_COUNT
    } else {
        0
    };
    proof {
        assert(fpcount as int == spec_fpmap_count(num64 as int));
    }
    let mut w4: u64 = 0;
    while w4 < fpcount
        invariant
            w4 <= fpcount,
            fpcount as int == spec_fpmap_count(num64 as int),
            fpcount <= num64,
            out@.len() == n,
            forall|j: int|
                0 <= j < w4 ==> out@.subrange(
                    #[trigger] spec_stride_offset(gf, gd, j),
                    spec_stride_offset(gf, gd, j) + 512,
                ) == spec_unicode_fpmap_page_image(j),
            forall|i: int|
                0 <= i < w4 ==> #[trigger] spec_stride_offset(gf, gd, i) + 512 <= n,
            forall|j: int|
                0 <= j < out@.len() && !spec_in_stride_pages(gf, gd, w4 as int, j) ==> out@[j]
                    == s3[j],
        decreases fpcount - w4,
    {
        proof {
            assert(w4 * FPMAP_DATA_SIZE <= 1082403 * FPMAP_DATA_SIZE) by (nonlinear_arith)
                requires
                    w4 <= 1082403u64 && FPMAP_DATA_SIZE >= 1u64,
            ;
        }
        let offset = FPMAP_FIRST_OFFSET + w4 * FPMAP_DATA_SIZE;
        proof {
            assert(offset as int == spec_stride_offset(gf, gd, w4 as int));
        }
        if offset > n as u64 || (PAGE_SIZE as u64) > n as u64 - offset {
            proof {
                assert(spec_stride_offset(gf, gd, w4 as int) + 512 > n as int);
                assert(!spec_map_offsets_fit(num64 as int, old(out)@.len() as int));
            }
            return Err(PstError::IntegerConversion);
        }
        let bits = fresh_map_bits(0, 0);
        let trailer = UnicodePageTrailer::new(
            PageType::FreePageMap,
            0,
            UnicodeBlockId::from_raw(offset),
            0,
        );
        let page = UnicodeMapPage { map_bits: bits, trailer };
        let mut pb: Vec<u8> = Vec::new();
        page.write_to(&mut pb);
        let ghost pre = out@;
        splice(out, offset as usize, pb.as_slice());
        proof {
            let o = spec_stride_offset(gf, gd, w4 as int);
            assert(page@ =~= (crate::page::UnicodeMapPageModel {
                map_bits: Seq::new(MAP_BITS_SIZE as nat, |k: int| 0u8),
                trailer: (UnicodePageTrailer {
                    page_type: PageType::FreePageMap,
                    signature: 0,
                    crc: 0,
                    block_id: UnicodeBlockId(o as u64),
                }),
            }));
            assert(pb@ == spec_unicode_fpmap_page_image(w4 as int));
            assert(out@.subrange(o, o + 512) =~= pb@);
            assert forall|j: int| 0 <= j < w4 implies out@.subrange(
                #[trigger] spec_stride_offset(gf, gd, j),
                spec_stride_offset(gf, gd, j) + 512,
            ) == spec_unicode_fpmap_page_image(j) by {
                lemma_q_injective(31744, j, w4 as int);
                lemma_stride_families_disjoint(
                    gf,
                    gd,
                    8192,
                    31744,
                    1536,
                    j,
                    gf,
                    gd,
                    8192,
                    31744,
                    1536,
                    w4 as int,
                );
                assert(out@.subrange(
                    spec_stride_offset(gf, gd, j),
                    spec_stride_offset(gf, gd, j) + 512,
                ) =~= pre.subrange(
                    spec_stride_offset(gf, gd, j),
                    spec_stride_offset(gf, gd, j) + 512,
                ));
            }
            assert forall|j: int|
                0 <= j < out@.len() && !spec_in_stride_pages(gf, gd, w4 + 1 as int, j) implies out@[j]
                == s3[j] by {
                lemma_in_stride_pages_step(gf, gd, w4 as int, j);
            }
        }
        w4 = w4 + 1;
    }

    // Each earlier family's pages survive the later families' writes:
    // their `(q, r)` coordinates can never coincide.
    proof {
        let numi = num64 as int;
        let pc = spec_pmap_count(numi);
        let fc = spec_fmap_count(numi);
        let gc = spec_fpmap_count(numi);
        assert forall|j: int|
            0 <= j < out@.len() && !spec_rewritten_map_byte(numi, j) implies out@[j] == s0[j] by {
            assert(!spec_in_stride_pages(af, ad, numi, j));
            assert(!spec_in_stride_pages(pf, pd, pc, j));
            assert(!spec_in_stride_pages(ff, fd, fc, j));
            assert(!spec_in_stride_pages(gf, gd, gc, j));
            assert(out@[j] == s3[j]);
            assert(s3[j] == s2[j]);
            assert(s2[j] == s1[j]);
            assert(s1[j] == s0[j]);
        }
        assert forall|i: int| 0 <= i < numi implies out@.subrange(
            #[trigger] spec_stride_offset(af, ad, i),
            spec_stride_offset(af, ad, i) + 512,
        ) == spec_unicode_amap_page_image(view0[i]) by {
            let o = spec_stride_offset(af, ad, i);
            assert(o + 512 <= n);
            assert forall|j: int| o <= j < o + 512 implies out@[j] == s1[j] by {
                if spec_in_stride_pages(pf, pd, pc, j) {
                    let k = choose|k: int|
                        0 <= k < pc && #[trigger] spec_stride_offset(pf, pd, k) <= j
                            < spec_stride_offset(pf, pd, k) + 512;
                    lemma_stride_families_disjoint(af, ad, 0, 1, 0, i, pf, pd, 0, 8, 512, k);
                }
                if spec_in_stride_pages(ff, fd, fc, j) {
                    let k = choose|k: int|
                        0 <= k < fc && #[trigger] spec_stride_offset(ff, fd, k) <= j
                            < spec_stride_offset(ff, fd, k) + 512;
                    lemma_stride_families_disjoint(af, ad, 0, 1, 0, i, ff, fd, 128, 496, 1024, k);
                }
                if spec_in_stride_pages(gf, gd, gc, j) {
                    let k = choose|k: int|
                        0 <= k < gc && #[trigger] spec_stride_offset(gf, gd, k) <= j
                            < spec_stride_offset(gf, gd, k) + 512;
                    lemma_stride_families_disjoint(
                        af,
                        ad,
                        0,
                        1,
                        0,
                        i,
                        gf,
                        gd,
                        8192,
                        31744,
                        1536,
                        k,
                    );
                }
                assert(out@[j] == s3[j]);
                assert(s3[j] == s2[j]);
                assert(s2[j] == s1[j]);
            }
            assert(out@.subrange(o, o + 512) =~= s1.subrange(o, o + 512));
        }
        assert forall|i: int| 0 <= i < pc implies out@.subrange(
            #[trigger] spec_stride_offset(pf, pd, i),
            spec_stride_offset(pf, pd, i) + 512,
        ) == spec_unicode_pmap_page_image(i) by {
            let o = spec_stride_offset(pf, pd, i);
            assert(o + 512 <= n);
            assert forall|j: int| o <= j < o + 512 implies out@[j] == s2[j] by {
                if spec_in_stride_pages(ff, fd, fc, j) {
                    let k = choose|k: int|
                        0 <= k < fc && #[trigger] spec_stride_offset(ff, fd, k) <= j
                            < spec_stride_offset(ff, fd, k) + 512;
                    lemma_stride_families_disjoint(pf, pd, 0, 8, 512, i, ff, fd, 128, 496, 1024, k);
                }
                if spec_in_stride_pages(gf, gd, gc, j) {
                    let k = choose|k: int|
                        0 <= k < gc && #[trigger] spec_stride_offset(gf, gd, k) <= j
                            < spec_stride_offset(gf, gd, k) + 512;
                    lemma_stride_families_disjoint(
                        pf,
                        pd,
                        0,
                        8,
                        512,
                        i,
                        gf,
                        gd,
                        8192,
                        31744,
                        1536,
                        k,
                    );
                }
                assert(out@[j] == s3[j]);
                assert(s3[j] == s2[j]);
            }
            assert(out@.subrange(o, o + 512) =~= s2.subrange(o, o + 512));
        }
        assert forall|i: int| 0 <= i < fc implies out@.subrange(
            #[trigger] spec_stride_offset(ff, fd, i),
            spec_stride_offset(ff, fd, i) + 512,
        ) == spec_unicode_fmap_page_image(i) by {
            let o = spec_stride_offset(ff, fd, i);
            assert(o + 512 <= n);
            assert forall|j: int| o <= j < o + 512 implies out@[j] == s3[j] by {
                if spec_in_stride_pages(gf, gd, gc, j) {
                    let k = choose|k: int|
                        0 <= k < gc && #[trigger] spec_stride_offset(gf, gd, k) <= j
                            < spec_stride_offset(gf, gd, k) + 512;
                    lemma_stride_families_disjoint(
                        ff,
                        fd,
                        128,
                        496,
                        1024,
                        i,
                        gf,
                        gd,
                        8192,
                        31744,
                        1536,
                        k,
                    );
                }
            }
            assert(out@.subrange(o, o + 512) =~= s3.subrange(o, o + 512));
        }
        assert(spec_map_offsets_fit(numi, out@.len() as int));
    }
    Ok(())
}

/// A header rewrite touches only the first 564 bytes; every map page sits
/// at or beyond the first AMap offset, so the written pages survive it.
#[verifier::rlimit(100)]
proof fn lemma_unicode_images_survive_header(
    sw: Seq<u8>,
    out: Seq<u8>,
    marked: Seq<UnicodeAmapInfoModel>,
    numi: int,
)
    requires
        out.len() == sw.len(),
        forall|j: int| UNICODE_HEADER_SIZE <= j < sw.len() ==> out[j] == sw[j],
        spec_unicode_map_pages_written(sw, marked, numi),
        spec_map_offsets_fit(numi, sw.len() as int),
        numi >= 0,
    ensures
        spec_unicode_map_pages_written(out, marked, numi),
{
    let af = AMAP_FIRST_OFFSET as int;
    let ad = AMAP_DATA_SIZE as int;
    let pf = PMAP_FIRST_OFFSET as int;
    let pd = PMAP_DATA_SIZE as int;
    let ff = FMAP_FIRST_OFFSET as int;
    let fd = FMAP_DATA_SIZE as int;
    let gf = FPMAP_FIRST_OFFSET as int;
    let gd = FPMAP_DATA_SIZE as int;
    assert forall|i: int| 0 <= i < numi implies out.subrange(
        #[trigger] spec_stride_offset(af, ad, i),
        spec_stride_offset(af, ad, i) + 512,
    ) == spec_unicode_amap_page_image(marked[i]) by {
        lemma_stride_offset_lb(af, ad, i);
        assert(out.subrange(
            spec_stride_offset(af, ad, i),
            spec_stride_offset(af, ad, i) + 512,
        ) =~= sw.subrange(spec_stride_offset(af, ad, i), spec_stride_offset(af, ad, i) + 512));
    }
    assert forall|i: int| 0 <= i < spec_pmap_count(numi) implies out.subrange(
        #[trigger] spec_stride_offset(pf, pd, i),
        spec_stride_offset(pf, pd, i) + 512,
    ) == spec_unicode_pmap_page_image(i) by {
        lemma_stride_offset_lb(pf, pd, i);
        assert(out.subrange(
            spec_stride_offset(pf, pd, i),
            spec_stride_offset(pf, pd, i) + 512,
        ) =~= sw.subrange(spec_stride_offset(pf, pd, i), spec_stride_offset(pf, pd, i) + 512));
    }
    assert forall|i: int| 0 <= i < spec_fmap_count(numi) implies out.subrange(
        #[trigger] spec_stride_offset(ff, fd, i),
        spec_stride_offset(ff, fd, i) + 512,
    ) == spec_unicode_fmap_page_image(i) by {
        lemma_stride_offset_lb(ff, fd, i);
        assert(out.subrange(
            spec_stride_offset(ff, fd, i),
            spec_stride_offset(ff, fd, i) + 512,
        ) =~= sw.subrange(spec_stride_offset(ff, fd, i), spec_stride_offset(ff, fd, i) + 512));
    }
    assert forall|i: int| 0 <= i < spec_fpmap_count(numi) implies out.subrange(
        #[trigger] spec_stride_offset(gf, gd, i),
        spec_stride_offset(gf, gd, i) + 512,
    ) == spec_unicode_fpmap_page_image(i) by {
        lemma_stride_offset_lb(gf, gd, i);
        assert(out.subrange(
            spec_stride_offset(gf, gd, i),
            spec_stride_offset(gf, gd, i) + 512,
        ) =~= sw.subrange(spec_stride_offset(gf, gd, i), spec_stride_offset(gf, gd, i) + 512));
    }
}

/// Rebuilds the allocation maps of a 64-bit-width file image.
///
/// If the ROOT reports the maps `Valid` or `PartiallyValid` the image is
/// returned unchanged. Otherwise every AMap, PMap, FMap and FPMap page is
/// regenerated at its canonical offset, the pages of both B-trees are
/// marked allocated, and the header is rewritten with the recomputed free
/// total and a `Valid` status — so a second rebuild of the result is a
/// no-op. On a sound image the rebuild cannot fail; an end-of-file index
/// beyond 2^38 bytes is refused with an integer-conversion error, an
/// implementation bound that keeps every page-offset computation
/// comfortably within 64 bits.
#[verifier::rlimit(100)]
pub fn unicode_rebuild_allocation_map(file: &[u8]) -> (r: PstResult<Vec<u8>>)
    ensures
        spec_parse_unicode_header(file@) matches Err(e) ==> r == PstResult::<Vec<u8>>::Err(
            PstError::NodeDatabaseError(e),
        ),
        (spec_parse_unicode_header(file@) matches Ok(h) && h.root.amap_is_valid
            != AmapStatus::Invalid) ==> (r matches Ok(out) && out@ == file@),
        (spec_parse_unicode_header(file@) is Ok && spec_parse_unicode_header(
            file@,
        )->Ok_0.root.amap_is_valid == AmapStatus::Invalid && r is Ok) ==> {
            let h = spec_parse_unicode_header(file@)->Ok_0;
            let out = r->Ok_0;
            &&& out@.len() == file@.len()
            &&& spec_unicode_rebuild_free_bytes(file@) is Ok
            &&& spec_parse_unicode_header(out@) is Ok
            &&& {
                let free = spec_unicode_rebuild_free_bytes(file@)->Ok_0;
                let h2 = spec_parse_unicode_header(out@)->Ok_0;
                h2.root == (UnicodeRoot {
                    amap_free_size: free,
                    amap_is_valid: AmapStatus::Valid,
                    ..h.root
                }) && h2.version == h.version && h2.crypt_method == h.crypt_method
            }
        },
        r matches Ok(out) ==> (spec_parse_unicode_header(out@) matches Ok(h2)
            && h2.root.amap_is_valid != AmapStatus::Invalid),
        (spec_parse_unicode_header(file@) is Ok && spec_parse_unicode_header(
            file@,
        )->Ok_0.root.file_eof_index <= 0x0000_0040_0000_0000u64 && spec_unicode_rebuild_marked(
            file@,
        ) is Ok && spec_map_offsets_fit(
            spec_num_amap_pages(
                spec_parse_unicode_header(file@)->Ok_0.root.file_eof_index,
            ),
            file@.len() as int,
        )) ==> r is Ok,
        (spec_parse_unicode_header(file@) is Ok && spec_parse_unicode_header(
            file@,
        )->Ok_0.root.amap_is_valid == AmapStatus::Invalid && r is Ok) ==> {
            let out = r->Ok_0;
            let num = spec_num_amap_pages(
                spec_parse_unicode_header(file@)->Ok_0.root.file_eof_index,
            );
            &&& spec_unicode_rebuild_marked(file@) is Ok
            &&& spec_unicode_map_pages_written(
                out@,
                spec_unicode_rebuild_marked(file@)->Ok_0,
                num,
            )
            &&& forall|j: int|
                UNICODE_HEADER_SIZE <= j < out@.len() && !spec_rewritten_map_byte(num, j)
                    ==> out@[j] == file@[j]
        },
{
    let n: usize = file.len();
    let h = match parse_unicode_header(file) {
        Ok(h) => h,
        Err(e) => {
            return Err(PstError::NodeDatabaseError(e));
        },
    };
    if h.root.amap_is_valid.to_u8() != AmapStatus::Invalid.to_u8() {
        let out = vstd::slice::slice_to_vec(file);
        return Ok(out);
    }
    let eof = h.root.file_eof_index;
    if eof < AMAP_FIRST_OFFSET || eof > n as u64 {
        proof {
            assert(spec_unicode_rebuild_marked(file@) == PstResult::<
                Seq<UnicodeAmapInfoModel>,
            >::Err(PstError::IntegerConversion));
        }
        return Err(PstError::IntegerConversion);
    }
    if eof > 0x0000_0040_0000_0000u64 {
        return Err(PstError::IntegerConversion);
    }
    let (infos, num64, free_bytes) = match unicode_compute_rebuild(file, &h) {
        Ok(t) => t,
        Err(e) => {
            return Err(e);
        },
    };
    let mut out = vstd::slice::slice_to_vec(file);
    match unicode_write_map_pages(&mut out, &infos, num64) {
        Ok(_) => {},
        Err(e) => {
            proof {
                assert(!spec_map_offsets_fit(num64 as int, file@.len() as int));
            }
            return Err(e);
        },
    }

    // Rewrite the header: the recomputed free total, maps valid again.
    let mut root2 = h.root;
    root2.reset_free_size(free_bytes);
    let h2 = UnicodeHeader {
        raw: h.raw,
        version: h.version,
        crypt_method: h.crypt_method,
        root: root2,
    };
    let hb = serialize_unicode_header(&h2);
    proof {
        assert(out@.len() >= UNICODE_HEADER_SIZE);
    }
    let ghost sw = out@;
    splice(&mut out, 0, hb.as_slice());
    proof {
        assert(out@.subrange(0, UNICODE_HEADER_SIZE as int) =~= hb@);
        lemma_unicode_header_parse_prefix(out@, hb@);
        let numi = num64 as int;
        let marked = spec_unicode_infos_view(infos@);
        lemma_unicode_images_survive_header(sw, out@, marked, numi);
        assert(spec_unicode_map_pages_written(out@, marked, numi));
        assert(numi == spec_num_amap_pages(h@.root.file_eof_index));
    }
    Ok(out)
}


/// The mathematical content of an in-progress AMap page during rebuild,
/// 32-bit width.
#[verifier::ext_equal]
pub ghost struct AnsiAmapInfoModel {
    pub map_bits: Seq<u8>,
    pub trailer: AnsiPageTrailer,
    pub free_space: u64,
}

/// A fresh AMap page under construction, 32-bit width.
pub struct AnsiAllocationMapPageInfo {
    pub amap_page: AnsiMapPage,
    pub free_space: u64,
}

impl View for AnsiAllocationMapPageInfo {
    type V = AnsiAmapInfoModel;

    open spec fn view(&self) -> AnsiAmapInfoModel {
        AnsiAmapInfoModel {
            map_bits: self.amap_page.map_bits@,
            trailer: self.amap_page.trailer,
            free_space: self.free_space,
        }
    }
}

pub open spec fn spec_ansi_infos_view(s: Seq<AnsiAllocationMapPageInfo>) -> Seq<AnsiAmapInfoModel> {
    Seq::new(s.len(), |i: int| s[i]@)
}

/// AMap page `i` as the rebuild first materializes it, 32-bit width.
pub open spec fn spec_fresh_ansi_amap_info(i: u64) -> AnsiAmapInfoModel {
    AnsiAmapInfoModel {
        map_bits: spec_fresh_amap_bits(spec_amap_reserved(i)),
        trailer: (AnsiPageTrailer {
            page_type: PageType::AllocationMap,
            signature: 0,
            block_id: AnsiBlockId((AMAP_FIRST_OFFSET + i * AMAP_DATA_SIZE) as u32),
            crc: 0,
        }),
        free_space: (AMAP_DATA_SIZE - 512 * spec_amap_reserved(i)) as u64,
    }
}

pub open spec fn spec_fresh_ansi_amap_infos(num: int) -> Seq<AnsiAmapInfoModel> {
    Seq::new(num as nat, |i: int| spec_fresh_ansi_amap_info(i as u64))
}

/// Marking one 512-byte page, 32-bit width.
pub open spec fn spec_mark_ansi_page(pages: Seq<AnsiAmapInfoModel>, index: u64) -> PstResult<
    Seq<AnsiAmapInfoModel>,
> {
    if index < AMAP_FIRST_OFFSET {
        Err(PstError::IntegerConversion)
    } else {
        let idx = index - AMAP_FIRST_OFFSET;
        let ai = idx as int / AMAP_DATA_SIZE as int;
        if ai >= pages.len() {
            Err(PstError::AllocationMapPageNotFound(ai as usize))
        } else {
            let p = pages[ai];
            if p.free_space < 512 {
                Err(PstError::IntegerConversion)
            } else {
                let bit = (idx as int % AMAP_DATA_SIZE as int) / 64;
                let byte = bit / 8;
                let b = bit % 8;
                if b == 0 {
                    Ok(
                        pages.update(
                            ai,
                            (AnsiAmapInfoModel {
                                map_bits: p.map_bits.update(byte, 0xFFu8),
                                trailer: p.trailer,
                                free_space: (p.free_space - 512) as u64,
                            }),
                        ),
                    )
                } else if byte + 1 >= MAP_BITS_SIZE {
                    Err(PstError::IntegerConversion)
                } else {
                    let mask = (0xFFu16 << (b as u16));
                    let low = (mask & 0xFF) as u8;
                    let high = ((mask >> 8u16) & 0xFF) as u8;
                    Ok(
                        pages.update(
                            ai,
                            (AnsiAmapInfoModel {
                                map_bits: p.map_bits.update(byte, p.map_bits[byte] | low).update(
                                    byte + 1,
                                    p.map_bits[byte + 1] | high,
                                ),
                                trailer: p.trailer,
                                free_space: (p.free_space - 512) as u64,
                            }),
                        ),
                    )
                }
            }
        }
    }
}

pub open spec fn spec_mark_ansi_pages(
    pages: Seq<AnsiAmapInfoModel>,
    offs: Seq<u64>,
    i: int,
) -> PstResult<Seq<AnsiAmapInfoModel>>
    decreases offs.len() - i,
{
    if i < 0 || i >= offs.len() {
        Ok(pages)
    } else {
        match spec_mark_ansi_page(pages, offs[i]) {
            Err(e) => Err(e),
            Ok(p2) => spec_mark_ansi_pages(p2, offs, i + 1),
        }
    }
}

pub open spec fn spec_sum_free_ansi(pages: Seq<AnsiAmapInfoModel>) -> int
    decreases pages.len(),
{
    if pages.len() == 0 {
        0
    } else {
        spec_sum_free_ansi(pages.drop_last()) + pages.last().free_space
    }
}

pub open spec fn spec_ansi_infos_wf(pages: Seq<AnsiAmapInfoModel>) -> bool {
    forall|i: int|
        0 <= i < pages.len() ==> (#[trigger] pages[i]).map_bits.len() == MAP_BITS_SIZE
            && pages[i].free_space <= AMAP_DATA_SIZE
}

/// Marks the 512-byte page at file offset `index`, 32-bit width.
pub fn ansi_mark_page_allocation(index: u64, amap_pages: &mut Vec<AnsiAllocationMapPageInfo>) -> (r:
    PstResult<()>)
    requires
        spec_ansi_infos_wf(spec_ansi_infos_view(old(amap_pages)@)),
    ensures
        r matches Ok(_) ==> spec_mark_ansi_page(spec_ansi_infos_view(old(amap_pages)@), index)
            == PstResult::<Seq<AnsiAmapInfoModel>>::Ok(spec_ansi_infos_view(final(amap_pages)@)),
        r matches Err(e) ==> (spec_mark_ansi_page(spec_ansi_infos_view(old(amap_pages)@), index)
            == PstResult::<Seq<AnsiAmapInfoModel>>::Err(e) && final(amap_pages)@ == old(
            amap_pages,
        )@),
        spec_ansi_infos_wf(spec_ansi_infos_view(final(amap_pages)@)),
        final(amap_pages)@.len() == old(amap_pages)@.len(),
        forall|i: int|
            0 <= i < final(amap_pages)@.len() ==> (#[trigger] final(amap_pages)@[i])
                .amap_page.padding == old(amap_pages)@[i].amap_page.padding,
{
    let ghost pages0 = spec_ansi_infos_view(amap_pages@);
    if index < AMAP_FIRST_OFFSET {
        return Err(PstError::IntegerConversion);
    }
    let idx = index - AMAP_FIRST_OFFSET;
    let ai64 = idx / AMAP_DATA_SIZE;
    let npages = amap_pages.len();
    if ai64 >= npages as u64 {
        return Err(PstError::AllocationMapPageNotFound(ai64 as usize));
    }
    let ai = ai64 as usize;
    let free = amap_pages[ai].free_space;
    if free < 512 {
        return Err(PstError::IntegerConversion);
    }
    let bit = ((idx % AMAP_DATA_SIZE) / 64) as usize;
    let byte = bit / 8;
    let b = bit % 8;
    proof {
        assert(idx % AMAP_DATA_SIZE < AMAP_DATA_SIZE);
        assert(bit < 3968);
        assert(byte < MAP_BITS_SIZE);
        assert(pages0[ai as int].map_bits.len() == MAP_BITS_SIZE);
    }
    let trailer = amap_pages[ai].amap_page.trailer;
    let padding = amap_pages[ai].amap_page.padding;
    let mut bits = vstd::slice::slice_to_vec(amap_pages[ai].amap_page.map_bits.as_slice());
    if b == 0 {
        bits[byte] = 0xFF;
    } else {
        if byte + 1 >= MAP_BITS_SIZE {
            return Err(PstError::IntegerConversion);
        }
        let mask: u16 = 0xFFu16 << (b as u16);
        let low: u8 = (mask & 0xFF) as u8;
        let high: u8 = ((mask >> 8u16) & 0xFF) as u8;
        let b0 = bits[byte];
        bits[byte] = b0 | low;
        let b1 = bits[byte + 1];
        bits[byte + 1] = b1 | high;
    }
    let new_info = AnsiAllocationMapPageInfo {
        amap_page: AnsiMapPage { map_bits: bits, padding, trailer },
        free_space: free - 512,
    };
    amap_pages[ai] = new_info;
    proof {
        assert(spec_ansi_infos_view(amap_pages@) =~= spec_mark_ansi_page(pages0, index)->Ok_0);
    }
    Ok(())
}

/// The AMap pages as the rebuild leaves them in memory, 32-bit width.
pub open spec fn spec_ansi_rebuild_marked(s: Seq<u8>) -> PstResult<Seq<AnsiAmapInfoModel>> {
    match spec_parse_ansi_header(s) {
        Err(e) => Err(PstError::NodeDatabaseError(e)),
        Ok(h) => {
            let eof = h.root.file_eof_index as u64;
            if !(AMAP_FIRST_OFFSET <= eof && eof <= s.len()) {
                Err(PstError::IntegerConversion)
            } else {
                let num = ((eof - AMAP_FIRST_OFFSET) as int + AMAP_DATA_SIZE as int - 1)
                    / AMAP_DATA_SIZE as int;
                let pages = spec_fresh_ansi_amap_infos(num);
                match spec_walk_ansi_btree(s, h.root.node_btree, 9, 16) {
                    Err(e) => Err(PstError::NodeDatabaseError(e)),
                    Ok(wn) => match spec_walk_ansi_btree(s, h.root.block_btree, 9, 12) {
                        Err(e) => Err(PstError::NodeDatabaseError(e)),
                        Ok(wb) => spec_mark_ansi_pages(pages, wn + wb, 0),
                    },
                }
            }
        },
    }
}

/// What the rebuild computes as the total free bytes, 32-bit width.
pub open spec fn spec_ansi_rebuild_free_bytes(s: Seq<u8>) -> PstResult<u64> {
    match spec_ansi_rebuild_marked(s) {
        Err(e) => Err(e),
        Ok(marked) => Ok(spec_sum_free_ansi(marked) as u64),
    }
}

/// The 512-byte image the rebuild writes for a marked AMap page, 32-bit
/// width; the rebuild's pages carry zero padding.
pub open spec fn spec_ansi_amap_page_image(m: AnsiAmapInfoModel) -> Seq<u8> {
    crate::page::spec_ansi_map_page_bytes(
        (crate::page::AnsiMapPageModel { map_bits: m.map_bits, padding: 0, trailer: m.trailer }),
    )
}

/// The image of the `j`th PMap page, 32-bit width.
pub open spec fn spec_ansi_pmap_page_image(j: int) -> Seq<u8> {
    crate::page::spec_ansi_map_page_bytes(
        (crate::page::AnsiMapPageModel {
            map_bits: Seq::new(MAP_BITS_SIZE as nat, |k: int| 0xFFu8),
            padding: 0,
            trailer: (AnsiPageTrailer {
                page_type: PageType::AllocationPageMap,
                signature: 0,
                block_id: AnsiBlockId(
                    spec_stride_offset(PMAP_FIRST_OFFSET as int, PMAP_DATA_SIZE as int, j) as u32,
                ),
                crc: 0,
            }),
        }),
    )
}

/// The image of the `j`th FMap page, 32-bit width.
pub open spec fn spec_ansi_fmap_page_image(j: int) -> Seq<u8> {
    crate::page::spec_ansi_map_page_bytes(
        (crate::page::AnsiMapPageModel {
            map_bits: Seq::new(MAP_BITS_SIZE as nat, |k: int| 0u8),
            padding: 0,
            trailer: (AnsiPageTrailer {
                page_type: PageType::FreeMap,
                signature: 0,
                block_id: AnsiBlockId(
                    spec_stride_offset(FMAP_FIRST_OFFSET as int, FMAP_DATA_SIZE as int, j) as u32,
                ),
                crc: 0,
            }),
        }),
    )
}

/// The image of the `j`th FPMap page, 32-bit width.
pub open spec fn spec_ansi_fpmap_page_image(j: int) -> Seq<u8> {
    crate::page::spec_ansi_map_page_bytes(
        (crate::page::AnsiMapPageModel {
            map_bits: Seq::new(MAP_BITS_SIZE as nat, |k: int| 0u8),
            padding: 0,
            trailer: (AnsiPageTrailer {
                page_type: PageType::FreePageMap,
                signature: 0,
                block_id: AnsiBlockId(
                    spec_stride_offset(FPMAP_FIRST_OFFSET as int, FPMAP_DATA_SIZE as int, j) as u32,
                ),
                crc: 0,
            }),
        }),
    )
}

/// Every map page of every family stands serialized at its canonical
/// offset, 32-bit width.
pub open spec fn spec_ansi_map_pages_written(
    s: Seq<u8>,
    marked: Seq<AnsiAmapInfoModel>,
    num: int,
) -> bool {
    &&& forall|i: int|
        0 <= i < num ==> s.subrange(
            #[trigger] spec_stride_offset(AMAP_FIRST_OFFSET as int, AMAP_DATA_SIZE as int, i),
            spec_stride_offset(AMAP_FIRST_OFFSET as int, AMAP_DATA_SIZE as int, i) + 512,
        ) == spec_ansi_amap_page_image(marked[i])
    &&& forall|j: int|
        0 <= j < spec_pmap_count(num) ==> s.subrange(
            #[trigger] spec_stride_offset(PMAP_FIRST_OFFSET as int, PMAP_DATA_SIZE as int, j),
            spec_stride_offset(PMAP_FIRST_OFFSET as int, PMAP_DATA_SIZE as int, j) + 512,
        ) == spec_ansi_pmap_page_image(j)
    &&& forall|j: int|
        0 <= j < spec_fmap_count(num) ==> s.subrange(
            #[trigger] spec_stride_offset(FMAP_FIRST_OFFSET as int, FMAP_DATA_SIZE as int, j),
            spec_stride_offset(FMAP_FIRST_OFFSET as int, FMAP_DATA_SIZE as int, j) + 512,
        ) == spec_ansi_fmap_page_image(j)
    &&& forall|j: int|
        0 <= j < spec_fpmap_count(num) ==> s.subrange(
            #[trigger] spec_stride_offset(FPMAP_FIRST_OFFSET as int, FPMAP_DATA_SIZE as int, j),
            spec_stride_offset(FPMAP_FIRST_OFFSET as int, FPMAP_DATA_SIZE as int, j) + 512,
        ) == spec_ansi_fpmap_page_image(j)
}

/// A header rewrite touches only the first 512 bytes; the written pages
/// survive it, 32-bit width.
#[verifier::rlimit(100)]
proof fn lemma_ansi_images_survive_header(
    sw: Seq<u8>,
    out: Seq<u8>,
    marked: Seq<AnsiAmapInfoModel>,
    numi: int,
)
    requires
        out.len() == sw.len(),
        forall|j: int| ANSI_HEADER_SIZE <= j < sw.len() ==> out[j] == sw[j],
        spec_ansi_map_pages_written(sw, marked, numi),
        spec_map_offsets_fit(numi, sw.len() as int),
        numi >= 0,
    ensures
        spec_ansi_map_pages_written(out, marked, numi),
{
    let af = AMAP_FIRST_OFFSET as int;
    let ad = AMAP_DATA_SIZE as int;
    let pf = PMAP_FIRST_OFFSET as int;
    let pd = PMAP_DATA_SIZE as int;
    let ff = FMAP_FIRST_OFFSET as int;
    let fd = FMAP_DATA_SIZE as int;
    let gf = FPMAP_FIRST_OFFSET as int;
    let gd = FPMAP_DATA_SIZE as int;
    assert forall|i: int| 0 <= i < numi implies out.subrange(
        #[trigger] spec_stride_offset(af, ad, i),
        spec_stride_offset(af, ad, i) + 512,
    ) == spec_ansi_amap_page_image(marked[i]) by {
        lemma_stride_offset_lb(af, ad, i);
        assert(out.subrange(
            spec_stride_offset(af, ad, i),
            spec_stride_offset(af, ad, i) + 512,
        ) =~= sw.subrange(spec_stride_offset(af, ad, i), spec_stride_offset(af, ad, i) + 512));
    }
    assert forall|i: int| 0 <= i < spec_pmap_count(numi) implies out.subrange(
        #[trigger] spec_stride_offset(pf, pd, i),
        spec_stride_offset(pf, pd, i) + 512,
    ) == spec_ansi_pmap_page_image(i) by {
        lemma_stride_offset_lb(pf, pd, i);
        assert(out.subrange(
            spec_stride_offset(pf, pd, i),
            spec_stride_offset(pf, pd, i) + 512,
        ) =~= sw.subrange(spec_stride_offset(pf, pd, i), spec_stride_offset(pf, pd, i) + 512));
    }
    assert forall|i: int| 0 <= i < spec_fmap_count(numi) implies out.subrange(
        #[trigger] spec_stride_offset(ff, fd, i),
        spec_stride_offset(ff, fd, i) + 512,
    ) == spec_ansi_fmap_page_image(i) by {
        lemma_stride_offset_lb(ff, fd, i);
        assert(out.subrange(
            spec_stride_offset(ff, fd, i),
            spec_stride_offset(ff, fd, i) + 512,
        ) =~= sw.subrange(spec_stride_offset(ff, fd, i), spec_stride_offset(ff, fd, i) + 512));
    }
    assert forall|i: int| 0 <= i < spec_fpmap_count(numi) implies out.subrange(
        #[trigger] spec_stride_offset(gf, gd, i),
        spec_stride_offset(gf, gd, i) + 512,
    ) == spec_ansi_fpmap_page_image(i) by {
        lemma_stride_offset_lb(gf, gd, i);
        assert(out.subrange(
            spec_stride_offset(gf, gd, i),
            spec_stride_offset(gf, gd, i) + 512,
        ) =~= sw.subrange(spec_stride_offset(gf, gd, i), spec_stride_offset(gf, gd, i) + 512));
    }
}

/// Materializes the fresh AMap pages, 32-bit width.
#[verifier::loop_isolation(false)]
fn ansi_build_fresh_infos(num64: u64, eofd: u64) -> (r: Vec<AnsiAllocationMapPageInfo>)
    requires
        num64 * AMAP_DATA_SIZE <= eofd + AMAP_DATA_SIZE - 1,
        eofd + AMAP_FIRST_OFFSET <= 0xFFFF_FFFFu64,
        num64 <= 16914,
    ensures
        r@.len() == num64,
        spec_ansi_infos_view(r@) == spec_fresh_ansi_amap_infos(num64 as int),
        spec_ansi_infos_wf(spec_ansi_infos_view(r@)),
        forall|i: int| 0 <= i < r@.len() ==> (#[trigger] r@[i]).amap_page.padding == 0,
{
    let num = num64 as usize;
    let mut infos: Vec<AnsiAllocationMapPageInfo> = Vec::new();
    let mut i: usize = 0;
    while i < num
        invariant
            i <= num,
            infos@.len() == i,
            forall|j: int|
                0 <= j < i ==> (#[trigger] infos@[j])@ == spec_fresh_ansi_amap_info(j as u64),
            forall|j: int| 0 <= j < i ==> (#[trigger] infos@[j]).amap_page.padding == 0,
            spec_ansi_infos_wf(spec_ansi_infos_view(infos@)),
        decreases num - i,
    {
        let i64v = i as u64;
        let has_pmap = i64v % 8 == 0;
        let has_fmap = has_pmap && i64v >= FMAP_FIRST_SIZE && (i64v - FMAP_FIRST_SIZE)
            % FMAP_PAGE_COUNT == 0;
        let has_fpmap = has_pmap && i64v >= FPMAP_FIRST_SIZE && (i64v - FPMAP_FIRST_SIZE)
            % FPMAP_PAGE_COUNT == 0;
        let mut reserved: usize = 1;
        if has_pmap {
            reserved = reserved + 1;
        }
        if has_fmap {
            reserved = reserved + 1;
        }
        if has_fpmap {
            reserved = reserved + 1;
        }
        let bits = fresh_map_bits(0, reserved);
        proof {
            assert(i64v <= num64 - 1);
            assert(i64v * AMAP_DATA_SIZE <= (num64 - 1) * AMAP_DATA_SIZE) by (nonlinear_arith)
                requires
                    i64v <= num64 - 1 && AMAP_DATA_SIZE >= 1u64,
            ;
            assert((num64 - 1) * AMAP_DATA_SIZE == num64 * AMAP_DATA_SIZE - AMAP_DATA_SIZE)
                by (nonlinear_arith);
        }
        let offset = AMAP_FIRST_OFFSET + i64v * AMAP_DATA_SIZE;
        proof {
            assert(offset <= 0xFFFF_FFFFu64);
        }
        let trailer = AnsiPageTrailer::new(
            PageType::AllocationMap,
            0,
            AnsiBlockId::from_raw((offset & 0xFFFF_FFFF) as u32),
            0,
        );
        let free_space = AMAP_DATA_SIZE - 512 * (reserved as u64);
        infos.push(
            AnsiAllocationMapPageInfo {
                amap_page: AnsiMapPage { map_bits: bits, padding: 0, trailer },
                free_space,
            },
        );
        proof {
            assert((offset & 0xFFFF_FFFF) as u32 == (offset as u32)) by (bit_vector)
                requires
                    offset <= 0xFFFF_FFFFu64,
            ;
            assert(bits@ =~= spec_fresh_amap_bits(spec_amap_reserved(i64v)));
            assert(infos@[i as int]@ =~= spec_fresh_ansi_amap_info(i64v));
        }
        i = i + 1;
    }
    proof {
        assert(spec_ansi_infos_view(infos@) =~= spec_fresh_ansi_amap_infos(num64 as int));
    }
    infos
}

/// Builds, marks and totals the fresh AMap pages, 32-bit width.
#[verifier::rlimit(100)]
#[verifier::loop_isolation(false)]
fn ansi_compute_rebuild(file: &[u8], h: &AnsiHeader) -> (r: PstResult<
    (Vec<AnsiAllocationMapPageInfo>, u64, u64),
>)
    requires
        spec_parse_ansi_header(file@) matches Ok(m) && m == h@,
        h@.root.file_eof_index as u64 >= AMAP_FIRST_OFFSET,
        h@.root.file_eof_index as u64 <= file@.len(),
    ensures
        r matches Ok(t) ==> {
            &&& spec_ansi_rebuild_marked(file@) == PstResult::<Seq<AnsiAmapInfoModel>>::Ok(
                spec_ansi_infos_view(t.0@),
            )
            &&& spec_ansi_rebuild_free_bytes(file@) == PstResult::<u64>::Ok(t.2)
            &&& t.1 as int == spec_num_amap_pages(h@.root.file_eof_index as u64)
            &&& t.0@.len() == t.1
            &&& spec_ansi_infos_wf(spec_ansi_infos_view(t.0@))
            &&& forall|i: int|
                0 <= i < t.0@.len() ==> (#[trigger] t.0@[i]).amap_page.padding == 0
            &&& t.1 <= 16914
        },
        spec_ansi_rebuild_marked(file@) is Ok ==> r is Ok,
{
    let n: usize = file.len();
    let eof = h.root.file_eof_index as u64;
    let eofd = eof - AMAP_FIRST_OFFSET;
    let num64 = (eofd + AMAP_DATA_SIZE - 1) / AMAP_DATA_SIZE;
    proof {
        let x = (eofd + 253951) as int;
        vstd::arithmetic::div_mod::lemma_fundamental_div_mod(x, 253952);
        assert(num64 as int == x / 253952);
        assert(AMAP_DATA_SIZE == 253952u64);
        assert(num64 * AMAP_DATA_SIZE <= eofd + AMAP_DATA_SIZE - 1);
        assert(eofd <= 0xFFFF_FFFFu64);
        assert(num64 * 253952 <= 0xFFFF_FFFF + 253951);
        assert(num64 <= 16914) by (nonlinear_arith)
            requires
                num64 * 253952 <= 0xFFFF_FFFF + 253951u64,
        ;
    }
    let num = num64 as usize;

    let infos0 = ansi_build_fresh_infos(num64, eofd);
    let mut infos = infos0;

    let mut offs: Vec<u64> = Vec::new();
    match walk_ansi_btree(file, h.root.node_btree, 9, 16, &mut offs) {
        Ok(_) => {},
        Err(e) => {
            proof {
                assert(spec_ansi_rebuild_marked(file@) == PstResult::<
                    Seq<AnsiAmapInfoModel>,
                >::Err(PstError::NodeDatabaseError(e)));
            }
            return Err(PstError::NodeDatabaseError(e));
        },
    }
    match walk_ansi_btree(file, h.root.block_btree, 9, 12, &mut offs) {
        Ok(_) => {},
        Err(e) => {
            proof {
                assert(spec_ansi_rebuild_marked(file@) == PstResult::<
                    Seq<AnsiAmapInfoModel>,
                >::Err(PstError::NodeDatabaseError(e)));
            }
            return Err(PstError::NodeDatabaseError(e));
        },
    }
    let ghost wn = spec_walk_ansi_btree(file@, h@.root.node_btree, 9, 16)->Ok_0;
    let ghost wb = spec_walk_ansi_btree(file@, h@.root.block_btree, 9, 12)->Ok_0;
    proof {
        assert(offs@ == wn + wb);
    }

    let ghost fresh = spec_fresh_ansi_amap_infos(num64 as int);
    let nmarks = offs.len();
    let mut t: usize = 0;
    while t < nmarks
        invariant
            t <= nmarks,
            nmarks == offs@.len(),
            spec_ansi_infos_wf(spec_ansi_infos_view(infos@)),
            infos@.len() == num64,
            forall|i: int| 0 <= i < infos@.len() ==> (#[trigger] infos@[i]).amap_page.padding == 0,
            spec_mark_ansi_pages(fresh, offs@, 0) == spec_mark_ansi_pages(
                spec_ansi_infos_view(infos@),
                offs@,
                t as int,
            ),
        decreases nmarks - t,
    {
        let off_t = offs[t];
        match ansi_mark_page_allocation(off_t, &mut infos) {
            Ok(_) => {},
            Err(e) => {
                proof {
                    assert(spec_mark_ansi_page(spec_ansi_infos_view(infos@), off_t)
                        == PstResult::<Seq<AnsiAmapInfoModel>>::Err(e));
                    assert(spec_mark_ansi_pages(spec_ansi_infos_view(infos@), offs@, t as int)
                        == PstResult::<Seq<AnsiAmapInfoModel>>::Err(e));
                    assert(spec_ansi_rebuild_marked(file@) == PstResult::<
                        Seq<AnsiAmapInfoModel>,
                    >::Err(e));
                }
                return Err(e);
            },
        }
        t = t + 1;
    }
    proof {
        assert(spec_mark_ansi_pages(spec_ansi_infos_view(infos@), offs@, nmarks as int)
            == PstResult::<Seq<AnsiAmapInfoModel>>::Ok(spec_ansi_infos_view(infos@)));
    }
    let ghost marked = spec_ansi_infos_view(infos@);

    let mut free_bytes: u64 = 0;
    let mut t2: usize = 0;
    while t2 < num
        invariant
            t2 <= num,
            num == num64,
            num64 <= 16914,
            infos@.len() == num64,
            marked == spec_ansi_infos_view(infos@),
            spec_ansi_infos_wf(marked),
            free_bytes == spec_sum_free_ansi(marked.subrange(0, t2 as int)),
            free_bytes <= t2 * AMAP_DATA_SIZE,
        decreases num - t2,
    {
        proof {
            assert(marked.subrange(0, t2 + 1 as int).drop_last() =~= marked.subrange(
                0,
                t2 as int,
            ));
            assert((t2 + 1) * AMAP_DATA_SIZE == t2 * AMAP_DATA_SIZE + AMAP_DATA_SIZE)
                by (nonlinear_arith);
            assert((t2 + 1) * AMAP_DATA_SIZE <= 16915 * AMAP_DATA_SIZE) by (nonlinear_arith)
                requires
                    t2 + 1 <= 16915 && AMAP_DATA_SIZE >= 1u64,
            ;
            assert(marked[t2 as int].free_space <= AMAP_DATA_SIZE);
            assert(infos@[t2 as int]@ == marked[t2 as int]);
        }
        free_bytes = free_bytes + infos[t2].free_space;
        t2 = t2 + 1;
    }
    proof {
        assert(marked.subrange(0, num64 as int) =~= marked);
        assert(spec_ansi_rebuild_marked(file@) == PstResult::<Seq<AnsiAmapInfoModel>>::Ok(
            marked,
        ));
    }
    Ok((infos, num64, free_bytes))
}

/// Writes every regenerated map page at its canonical offset into the
/// image: the marked AMap pages, all-ones PMap pages, and zeroed FMap and
/// FPMap hint pages. On success the image holds exactly those pages and
/// every other byte is untouched; when every page fits the image, the
/// writes cannot fail.
#[verifier::rlimit(100)]
#[verifier::loop_isolation(false)]
fn ansi_write_map_pages(
    out: &mut Vec<u8>,
    infos: &Vec<AnsiAllocationMapPageInfo>,
    num64: u64,
) -> (r: PstResult<()>)
    requires
        spec_ansi_infos_wf(spec_ansi_infos_view(infos@)),
        infos@.len() == num64,
        num64 <= 16914,
        forall|i: int| 0 <= i < infos@.len() ==> (#[trigger] infos@[i]).amap_page.padding == 0,
    ensures
        r matches Ok(_) ==> {
            &&& final(out)@.len() == old(out)@.len()
            &&& spec_ansi_map_pages_written(
                final(out)@,
                spec_ansi_infos_view(infos@),
                num64 as int,
            )
            &&& spec_map_offsets_fit(num64 as int, final(out)@.len() as int)
            &&& forall|j: int|
                0 <= j < final(out)@.len() && !spec_rewritten_map_byte(num64 as int, j)
                    ==> final(out)@[j] == old(out)@[j]
        },
        (spec_map_offsets_fit(num64 as int, old(out)@.len() as int) && spec_map_offsets_fit(
            num64 as int,
            0x1_0000_0000,
        )) ==> r is Ok,
{
    let n: usize = out.len();
    let num = num64 as usize;
    let ghost view0 = spec_ansi_infos_view(infos@);
    let ghost s0 = out@;
    let ghost af = AMAP_FIRST_OFFSET as int;
    let ghost ad = AMAP_DATA_SIZE as int;
    let ghost pf = PMAP_FIRST_OFFSET as int;
    let ghost pd = PMAP_DATA_SIZE as int;
    let ghost ff = FMAP_FIRST_OFFSET as int;
    let ghost fd = FMAP_DATA_SIZE as int;
    let ghost gf = FPMAP_FIRST_OFFSET as int;
    let ghost gd = FPMAP_DATA_SIZE as int;

    // AMap pages.
    let mut w: usize = 0;
    while w < num
        invariant
            w <= num,
            num == num64,
            out@.len() == n,
            forall|i: int|
                0 <= i < w ==> out@.subrange(
                    #[trigger] spec_stride_offset(af, ad, i),
                    spec_stride_offset(af, ad, i) + 512,
                ) == spec_ansi_amap_page_image(view0[i]),
            forall|i: int|
                0 <= i < w ==> #[trigger] spec_stride_offset(af, ad, i) + 512 <= n,
            forall|j: int|
                0 <= j < out@.len() && !spec_in_stride_pages(af, ad, w as int, j) ==> out@[j]
                    == s0[j],
        decreases num - w,
    {
        proof {
            assert((w as u64) * AMAP_DATA_SIZE <= 16914 * AMAP_DATA_SIZE) by (nonlinear_arith)
                requires
                    w as u64 <= 16914u64 && AMAP_DATA_SIZE >= 1u64,
            ;
        }
        let offset = AMAP_FIRST_OFFSET + (w as u64) * AMAP_DATA_SIZE;
        proof {
            assert(offset as int == spec_stride_offset(af, ad, w as int));
        }
        if offset > n as u64 || (PAGE_SIZE as u64) > n as u64 - offset {
            proof {
                assert(spec_stride_offset(af, ad, w as int) + 512 > n as int);
                assert(!spec_map_offsets_fit(num64 as int, old(out)@.len() as int));
            }
            return Err(PstError::IntegerConversion);
        }
        if offset > 0xFFFF_FE00u64 {
            proof {
                assert(spec_stride_offset(af, ad, w as int) + 512 > 0x1_0000_0000int);
                assert(!spec_map_offsets_fit(num64 as int, 0x1_0000_0000));
            }
            return Err(PstError::IntegerConversion);
        }
        proof {
            assert(spec_ansi_infos_view(infos@)[w as int] == infos@[w as int]@);
        }
        let mut pb: Vec<u8> = Vec::new();
        infos[w].amap_page.write_to(&mut pb);
        let ghost pre = out@;
        splice(out, offset as usize, pb.as_slice());
        proof {
            let o = spec_stride_offset(af, ad, w as int);
            assert(infos@[w as int].amap_page@ =~= (crate::page::AnsiMapPageModel {
                map_bits: view0[w as int].map_bits,
                padding: 0,
                trailer: view0[w as int].trailer,
            }));
            assert(pb@ == spec_ansi_amap_page_image(view0[w as int]));
            assert(out@.subrange(o, o + 512) =~= pb@);
            assert forall|i: int| 0 <= i < w implies out@.subrange(
                #[trigger] spec_stride_offset(af, ad, i),
                spec_stride_offset(af, ad, i) + 512,
            ) == spec_ansi_amap_page_image(view0[i]) by {
                lemma_stride_families_disjoint(af, ad, 0, 1, 0, i, af, ad, 0, 1, 0, w as int);
                assert(out@.subrange(
                    spec_stride_offset(af, ad, i),
                    spec_stride_offset(af, ad, i) + 512,
                ) =~= pre.subrange(
                    spec_stride_offset(af, ad, i),
                    spec_stride_offset(af, ad, i) + 512,
                ));
            }
            assert forall|j: int|
                0 <= j < out@.len() && !spec_in_stride_pages(af, ad, w + 1 as int, j) implies out@[j]
                == s0[j] by {
                lemma_in_stride_pages_step(af, ad, w as int, j);
            }
        }
        w = w + 1;
    }
    let ghost s1 = out@;
    proof {
        assert(forall|j: int|
            0 <= j < s1.len() && !spec_in_stride_pages(af, ad, num64 as int, j) ==> s1[j] == s0[j]);
        assert(forall|i: int|
            0 <= i < num64 ==> s1.subrange(
                #[trigger] spec_stride_offset(af, ad, i),
                spec_stride_offset(af, ad, i) + 512,
            ) == spec_ansi_amap_page_image(view0[i]));
        assert(forall|i: int|
            0 <= i < num64 ==> #[trigger] spec_stride_offset(af, ad, i) + 512 <= n);
    }

    // PMap pages: one per eight AMap pages, every bit set.
    let pcount = num64 / PMAP_PAGE_COUNT;
    proof {
        assert(pcount as int == spec_pmap_count(num64 as int));
    }
    let mut w2: u64 = 0;
    while w2 < pcount
        invariant
            w2 <= pcount,
            pcount as int == spec_pmap_count(num64 as int),
            pcount <= num64,
            out@.len() == n,
            forall|j: int|
                0 <= j < w2 ==> out@.subrange(
                    #[trigger] spec_stride_offset(pf, pd, j),
                    spec_stride_offset(pf, pd, j) + 512,
                ) == spec_ansi_pmap_page_image(j),
            forall|i: int|
                0 <= i < w2 ==> #[trigger] spec_stride_offset(pf, pd, i) + 512 <= n,
            forall|j: int|
                0 <= j < out@.len() && !spec_in_stride_pages(pf, pd, w2 as int, j) ==> out@[j]
                    == s1[j],
        decreases pcount - w2,
    {
        proof {
            vstd::arithmetic::div_mod::lemma_fundamental_div_mod(num64 as int, 8);
            assert(w2 * 8 <= num64);
            assert(w2 * PMAP_DATA_SIZE <= 16914 * AMAP_DATA_SIZE) by (nonlinear_arith)
                requires
                    w2 * 8 <= num64 && num64 <= 16914u64 && PMAP_DATA_SIZE == 2031616u64
                        && AMAP_DATA_SIZE == 253952u64,
            ;
        }
        let offset = PMAP_FIRST_OFFSET + w2 * PMAP_DATA_SIZE;
        proof {
            assert(offset as int == spec_stride_offset(pf, pd, w2 as int));
        }
        if offset > n as u64 || (PAGE_SIZE as u64) > n as u64 - offset {
            proof {
                assert(spec_stride_offset(pf, pd, w2 as int) + 512 > n as int);
                assert(!spec_map_offsets_fit(num64 as int, old(out)@.len() as int));
            }
            return Err(PstError::IntegerConversion);
        }
        if offset > 0xFFFF_FE00u64 {
            proof {
                assert(spec_stride_offset(pf, pd, w2 as int) + 512 > 0x1_0000_0000int);
                assert(!spec_map_offsets_fit(num64 as int, 0x1_0000_0000));
            }
            return Err(PstError::IntegerConversion);
        }
        let bits = fresh_map_bits(0xFF, 0);
        let trailer = AnsiPageTrailer::new(
            PageType::AllocationPageMap,
            0,
            AnsiBlockId::from_raw((offset & 0xFFFF_FFFF) as u32),
            0,
        );
        let page = AnsiMapPage { map_bits: bits, padding: 0, trailer };
        let mut pb: Vec<u8> = Vec::new();
        page.write_to(&mut pb);
        let ghost pre = out@;
        splice(out, offset as usize, pb.as_slice());
        proof {
            let o = spec_stride_offset(pf, pd, w2 as int);
            assert((offset & 0xFFFF_FFFF) as u32 == (offset as u32)) by (bit_vector)
                requires
                    offset <= 0xFFFF_FE00u64,
            ;
            assert(page@ =~= (crate::page::AnsiMapPageModel {
                map_bits: Seq::new(MAP_BITS_SIZE as nat, |k: int| 0xFFu8),
                padding: 0,
                trailer: (AnsiPageTrailer {
                    page_type: PageType::AllocationPageMap,
                    signature: 0,
                    block_id: AnsiBlockId(o as u32),
                    crc: 0,
                }),
            }));
            assert(pb@ == spec_ansi_pmap_page_image(w2 as int));
            assert(out@.subrange(o, o + 512) =~= pb@);
            assert forall|j: int| 0 <= j < w2 implies out@.subrange(
                #[trigger] spec_stride_offset(pf, pd, j),
                spec_stride_offset(pf, pd, j) + 512,
            ) == spec_ansi_pmap_page_image(j) by {
                lemma_q_injective(8, j, w2 as int);
                lemma_stride_families_disjoint(pf, pd, 0, 8, 512, j, pf, pd, 0, 8, 512, w2 as int);
                assert(out@.subrange(
                    spec_stride_offset(pf, pd, j),
                    spec_stride_offset(pf, pd, j) + 512,
                ) =~= pre.subrange(
                    spec_stride_offset(pf, pd, j),
                    spec_stride_offset(pf, pd, j) + 512,
                ));
            }
            assert forall|j: int|
                0 <= j < out@.len() && !spec_in_stride_pages(pf, pd, w2 + 1 as int, j) implies out@[j]
                == s1[j] by {
                lemma_in_stride_pages_step(pf, pd, w2 as int, j);
            }
        }
        w2 = w2 + 1;
    }
    let ghost s2 = out@;
    proof {
        assert(forall|j: int|
            0 <= j < s2.len() && !spec_in_stride_pages(pf, pd, spec_pmap_count(num64 as int), j)
                ==> s2[j] == s1[j]);
        assert(forall|i: int|
            0 <= i < spec_pmap_count(num64 as int) ==> s2.subrange(
                #[trigger] spec_stride_offset(pf, pd, i),
                spec_stride_offset(pf, pd, i) + 512,
            ) == spec_ansi_pmap_page_image(i));
        assert(forall|i: int|
            0 <= i < spec_pmap_count(num64 as int) ==> #[trigger] spec_stride_offset(pf, pd, i)
                + 512 <= n);
    }

    // FMap pages: hint bytes zeroed rather than recomputed.
    let fcount = if num64 > FMAP_FIRST_SIZE {
        (num64 - FMAP_FIRST_SIZE) / FMAP_PAGE_COUNT
    } else {
        0
    };
    proof {
        assert(fcount as int == spec_fmap_count(num64 as int));
    }
    let mut w3: u64 = 0;
    while w3 < fcount
        invariant
            w3 <= fcount,
            fcount as int == spec_fmap_count(num64 as int),
            fcount <= num64,
            out@.len() == n,
            forall|j: int|
                0 <= j < w3 ==> out@.subrange(
                    #[trigger] spec_stride_offset(ff, fd, j),
                    spec_stride_offset(ff, fd, j) + 512,
                ) == spec_ansi_fmap_page_image(j),
            forall|i: int|
                0 <= i < w3 ==> #[trigger] spec_stride_offset(ff, fd, i) + 512 <= n,
            forall|j: int|
                0 <= j < out@.len() && !spec_in_stride_pages(ff, fd, w3 as int, j) ==> out@[j]
                    == s2[j],
        decreases fcount - w3,
    {
        proof {
            assert(w3 * FMAP_DATA_SIZE <= 16914 * FMAP_DATA_SIZE) by (nonlinear_arith)
                requires
                    w3 <= 16914u64 && FMAP_DATA_SIZE >= 1u64,
            ;
        }
        let offset = FMAP_FIRST_OFFSET + w3 * FMAP_DATA_SIZE;
        proof {
            assert(offset as int == spec_stride_offset(ff, fd, w3 as int));
        }
        if offset > n as u64 || (PAGE_SIZE as u64) > n as u64 - offset {
            proof {
                assert(spec_stride_offset(ff, fd, w3 as int) + 512 > n as int);
                assert(!spec_map_offsets_fit(num64 as int, old(out)@.len() as int));
            }
            return Err(PstError::IntegerConversion);
        }
        if offset > 0xFFFF_FE00u64 {
            proof {
                assert(spec_stride_offset(ff, fd, w3 as int) + 512 > 0x1_0000_0000int);
                assert(!spec_map_offsets_fit(num64 as int, 0x1_0000_0000));
            }
            return Err(PstError::IntegerConversion);
        }
        let bits = fresh_map_bits(0, 0);
        let trailer = AnsiPageTrailer::new(
            PageType::FreeMap,
            0,
            AnsiBlockId::from_raw((offset & 0xFFFF_FFFF) as u32),
            0,
        );
        let page = AnsiMapPage { map_bits: bits, padding: 0, trailer };
        let mut pb: Vec<u8> = Vec::new();
        page.write_to(&mut pb);
        let ghost pre = out@;
        splice(out, offset as usize, pb.as_slice());
        proof {
            let o = spec_stride_offset(ff, fd, w3 as int);
            assert((offset & 0xFFFF_FFFF) as u32 == (offset as u32)) by (bit_vector)
                requires
                    offset <= 0xFFFF_FE00u64,
            ;
            assert(page@ =~= (crate::page::AnsiMapPageModel {
                map_bits: Seq::new(MAP_BITS_SIZE as nat, |k: int| 0u8),
                padding: 0,
                trailer: (AnsiPageTrailer {
                    page_type: PageType::FreeMap,
                    signature: 0,
                    block_id: AnsiBlockId(o as u32),
                    crc: 0,
                }),
            }));
            assert(pb@ == spec_ansi_fmap_page_image(w3 as int));
            assert(out@.subrange(o, o + 512) =~= pb@);
            assert forall|j: int| 0 <= j < w3 implies out@.subrange(
                #[trigger] spec_stride_offset(ff, fd, j),
                spec_stride_offset(ff, fd, j) + 512,
            ) == spec_ansi_fmap_page_image(j) by {
                lemma_q_injective(496, j, w3 as int);
                lemma_stride_families_disjoint(
                    ff,
                    fd,
                    128,
                    496,
                    1024,
                    j,
                    ff,
                    fd,
                    128,
                    496,
                    1024,
                    w3 as int,
                );
                assert(out@.subrange(
                    spec_stride_offset(ff, fd, j),
                    spec_stride_offset(ff, fd, j) + 512,
                ) =~= pre.subrange(
                    spec_stride_offset(ff, fd, j),
                    spec_stride_offset(ff, fd, j) + 512,
                ));
            }
            assert forall|j: int|
                0 <= j < out@.len() && !spec_in_stride_pages(ff, fd, w3 + 1 as int, j) implies out@[j]
                == s2[j] by {
                lemma_in_stride_pages_step(ff, fd, w3 as int, j);
            }
        }
        w3 = w3 + 1;
    }
    let ghost s3 = out@;
    proof {
        assert(forall|j: int|
            0 <= j < s3.len() && !spec_in_stride_pages(ff, fd, spec_fmap_count(num64 as int), j)
                ==> s3[j] == s2[j]);
        assert(forall|i: int|
            0 <= i < spec_fmap_count(num64 as int) ==> s3.subrange(
                #[trigger] spec_stride_offset(ff, fd, i),
                spec_stride_offset(ff, fd, i) + 512,
            ) == spec_ansi_fmap_page_image(i));
        assert(forall|i: int|
            0 <= i < spec_fmap_count(num64 as int) ==> #[trigger] spec_stride_offset(ff, fd, i)
                + 512 <= n);
    }

    // FPMap pages, likewise zeroed.
    let fpcount = if num64 > FPMAP_FIRST_SIZE {
        (num64 - FPMAP_FIRST_SIZE) / FPMAP_PAGE_COUNT
    } else {
        0
    };
    proof {
        assert(fpcount as int == spec_fpmap_count(num64 as int));
    }
    let mut w4: u64 = 0;
    while w4 < fpcount
        invariant
            w4 <= fpcount,
            fpcount as int == spec_fpmap_count(num64 as int),
            fpcount <= num64,
            out@.len() == n,
            forall|j: int|
                0 <= j < w4 ==> out@.subrange(
                    #[trigger] spec_stride_offset(gf, gd, j),
                    spec_stride_offset(gf, gd, j) + 512,
                ) == spec_ansi_fpmap_page_image(j),
            forall|i: int|
                0 <= i < w4 ==> #[trigger] spec_stride_offset(gf, gd, i) + 512 <= n,
            forall|j: int|
                0 <= j < out@.len() && !spec_in_stride_pages(gf, gd, w4 as int, j) ==> out@[j]
                    == s3[j],
        decreases fpcount - w4,
    {
        proof {
            assert(w4 * FPMAP_DATA_SIZE <= 16914 * FPMAP_DATA_SIZE) by (nonlinear_arith)
                requires
                    w4 <= 16914u64 && FPMAP_DATA_SIZE >= 1u64,
            ;
        }
        let offset = FPMAP_FIRST_OFFSET + w4 * FPMAP_DATA_SIZE;
        proof {
            assert(offset as int == spec_stride_offset(gf, gd, w4 as int));
        }
        if offset > n as u64 || (PAGE_SIZE as u64) > n as u64 - offset {
            proof {
                assert(spec_stride_offset(gf, gd, w4 as int) + 512 > n as int);
                assert(!spec_map_offsets_fit(num64 as int, old(out)@.len() as int));
            }
            return Err(PstError::IntegerConversion);
        }
        if offset > 0xFFFF_FE00u64 {
            proof {
                assert(spec_stride_offset(gf, gd, w4 as int) + 512 > 0x1_0000_0000int);
                assert(!spec_map_offsets_fit(num64 as int, 0x1_0000_0000));
            }
            return Err(PstError::IntegerConversion);
        }
        let bits = fresh_map_bits(0, 0);
        let trailer = AnsiPageTrailer::new(
            PageType::FreePageMap,
            0,
            AnsiBlockId::from_raw((offset & 0xFFFF_FFFF) as u32),
            0,
        );
        let page = AnsiMapPage { map_bits: bits, padding: 0, trailer };
        let mut pb: Vec<u8> = Vec::new();
        page.write_to(&mut pb);
        let ghost pre = out@;
        splice(out, offset as usize, pb.as_slice());
        proof {
            let o = spec_stride_offset(gf, gd, w4 as int);
            assert((offset & 0xFFFF_FFFF) as u32 == (offset as u32)) by (bit_vector)
                requires
                    offset <= 0xFFFF_FE00u64,
            ;
            assert(page@ =~= (crate::page::AnsiMapPageModel {
                map_bits: Seq::new(MAP_BITS_SIZE as nat, |k: int| 0u8),
                padding: 0,
                trailer: (AnsiPageTrailer {
                    page_type: PageType::FreePageMap,
                    signature: 0,
                    block_id: AnsiBlockId(o as u32),
                    crc: 0,
                }),
            }));
            assert(pb@ == spec_ansi_fpmap_page_image(w4 as int));
            assert(out@.subrange(o, o + 512) =~= pb@);
            assert forall|j: int| 0 <= j < w4 implies out@.subrange(
                #[trigger] spec_stride_offset(gf, gd, j),
                spec_stride_offset(gf, gd, j) + 512,
            ) == spec_ansi_fpmap_page_image(j) by {
                lemma_q_injective(31744, j, w4 as int);
                lemma_stride_families_disjoint(
                    gf,
                    gd,
                    8192,
                    31744,
                    1536,
                    j,
                    gf,
                    gd,
                    8192,
                    31744,
                    1536,
                    w4 as int,
                );
                assert(out@.subrange(
                    spec_stride_offset(gf, gd, j),
                    spec_stride_offset(gf, gd, j) + 512,
                ) =~= pre.subrange(
                    spec_stride_offset(gf, gd, j),
                    spec_stride_offset(gf, gd, j) + 512,
                ));
            }
            assert forall|j: int|
                0 <= j < out@.len() && !spec_in_stride_pages(gf, gd, w4 + 1 as int, j) implies out@[j]
                == s3[j] by {
                lemma_in_stride_pages_step(gf, gd, w4 as int, j);
            }
        }
        w4 = w4 + 1;
    }

    // Each earlier family's pages survive the later families' writes:
    // their `(q, r)` coordinates can never coincide.
    proof {
        let numi = num64 as int;
        let pc = spec_pmap_count(numi);
        let fc = spec_fmap_count(numi);
        let gc = spec_fpmap_count(numi);
        assert forall|j: int|
            0 <= j < out@.len() && !spec_rewritten_map_byte(numi, j) implies out@[j] == s0[j] by {
            assert(!spec_in_stride_pages(af, ad, numi, j));
            assert(!spec_in_stride_pages(pf, pd, pc, j));
            assert(!spec_in_stride_pages(ff, fd, fc, j));
            assert(!spec_in_stride_pages(gf, gd, gc, j));
            assert(out@[j] == s3[j]);
            assert(s3[j] == s2[j]);
            assert(s2[j] == s1[j]);
            assert(s1[j] == s0[j]);
        }
        assert forall|i: int| 0 <= i < numi implies out@.subrange(
            #[trigger] spec_stride_offset(af, ad, i),
            spec_stride_offset(af, ad, i) + 512,
        ) == spec_ansi_amap_page_image(view0[i]) by {
            let o = spec_stride_offset(af, ad, i);
            assert(o + 512 <= n);
            assert forall|j: int| o <= j < o + 512 implies out@[j] == s1[j] by {
                if spec_in_stride_pages(pf, pd, pc, j) {
                    let k = choose|k: int|
                        0 <= k < pc && #[trigger] spec_stride_offset(pf, pd, k) <= j
                            < spec_stride_offset(pf, pd, k) + 512;
                    lemma_stride_families_disjoint(af, ad, 0, 1, 0, i, pf, pd, 0, 8, 512, k);
                }
                if spec_in_stride_pages(ff, fd, fc, j) {
                    let k = choose|k: int|
                        0 <= k < fc && #[trigger] spec_stride_offset(ff, fd, k) <= j
                            < spec_stride_offset(ff, fd, k) + 512;
                    lemma_stride_families_disjoint(af, ad, 0, 1, 0, i, ff, fd, 128, 496, 1024, k);
                }
                if spec_in_stride_pages(gf, gd, gc, j) {
                    let k = choose|k: int|
                        0 <= k < gc && #[trigger] spec_stride_offset(gf, gd, k) <= j
                            < spec_stride_offset(gf, gd, k) + 512;
                    lemma_stride_families_disjoint(
                        af,
                        ad,
                        0,
                        1,
                        0,
                        i,
                        gf,
                        gd,
                        8192,
                        31744,
                        1536,
                        k,
                    );
                }
                assert(out@[j] == s3[j]);
                assert(s3[j] == s2[j]);
                assert(s2[j] == s1[j]);
            }
            assert(out@.subrange(o, o + 512) =~= s1.subrange(o, o + 512));
        }
        assert forall|i: int| 0 <= i < pc implies out@.subrange(
            #[trigger] spec_stride_offset(pf, pd, i),
            spec_stride_offset(pf, pd, i) + 512,
        ) == spec_ansi_pmap_page_image(i) by {
            let o = spec_stride_offset(pf, pd, i);
            assert(o + 512 <= n);
            assert forall|j: int| o <= j < o + 512 implies out@[j] == s2[j] by {
                if spec_in_stride_pages(ff, fd, fc, j) {
                    let k = choose|k: int|
                        0 <= k < fc && #[trigger] spec_stride_offset(ff, fd, k) <= j
                            < spec_stride_offset(ff, fd, k) + 512;
                    lemma_stride_families_disjoint(pf, pd, 0, 8, 512, i, ff, fd, 128, 496, 1024, k);
                }
                if spec_in_stride_pages(gf, gd, gc, j) {
                    let k = choose|k: int|
                        0 <= k < gc && #[trigger] spec_stride_offset(gf, gd, k) <= j
                            < spec_stride_offset(gf, gd, k) + 512;
                    lemma_stride_families_disjoint(
                        pf,
                        pd,
                        0,
                        8,
                        512,
                        i,
                        gf,
                        gd,
                        8192,
                        31744,
                        1536,
                        k,
                    );
                }
                assert(out@[j] == s3[j]);
                assert(s3[j] == s2[j]);
            }
            assert(out@.subrange(o, o + 512) =~= s2.subrange(o, o + 512));
        }
        assert forall|i: int| 0 <= i < fc implies out@.subrange(
            #[trigger] spec_stride_offset(ff, fd, i),
            spec_stride_offset(ff, fd, i) + 512,
        ) == spec_ansi_fmap_page_image(i) by {
            let o = spec_stride_offset(ff, fd, i);
            assert(o + 512 <= n);
            assert forall|j: int| o <= j < o + 512 implies out@[j] == s3[j] by {
                if spec_in_stride_pages(gf, gd, gc, j) {
                    let k = choose|k: int|
                        0 <= k < gc && #[trigger] spec_stride_offset(gf, gd, k) <= j
                            < spec_stride_offset(gf, gd, k) + 512;
                    lemma_stride_families_disjoint(
                        ff,
                        fd,
                        128,
                        496,
                        1024,
                        i,
                        gf,
                        gd,
                        8192,
                        31744,
                        1536,
                        k,
                    );
                }
            }
            assert(out@.subrange(o, o + 512) =~= s3.subrange(o, o + 512));
        }
        assert(spec_map_offsets_fit(numi, out@.len() as int));
    }
    Ok(())
}

/// Rebuilds the allocation maps of a 32-bit-width file image, as the
/// 64-bit rebuild does; the recomputed free total must fit the 32-bit
/// root field, and every rewritten page's offset must fit a 32-bit block
/// id.
#[verifier::rlimit(100)]
pub fn ansi_rebuild_allocation_map(file: &[u8]) -> (r: PstResult<Vec<u8>>)
    ensures
        spec_parse_ansi_header(file@) matches Err(e) ==> r == PstResult::<Vec<u8>>::Err(
            PstError::NodeDatabaseError(e),
        ),
        (spec_parse_ansi_header(file@) matches Ok(h) && h.root.amap_is_valid
            != AmapStatus::Invalid) ==> (r matches Ok(out) && out@ == file@),
        (spec_parse_ansi_header(file@) is Ok && spec_parse_ansi_header(
            file@,
        )->Ok_0.root.amap_is_valid == AmapStatus::Invalid && r is Ok) ==> {
            let h = spec_parse_ansi_header(file@)->Ok_0;
            let out = r->Ok_0;
            &&& out@.len() == file@.len()
            &&& spec_ansi_rebuild_free_bytes(file@) is Ok
            &&& spec_parse_ansi_header(out@) is Ok
            &&& {
                let free = spec_ansi_rebuild_free_bytes(file@)->Ok_0;
                let h2 = spec_parse_ansi_header(out@)->Ok_0;
                h2.root == (AnsiRoot {
                    amap_free_size: free as u32,
                    amap_is_valid: AmapStatus::Valid,
                    ..h.root
                }) && h2.version == h.version && h2.crypt_method == h.crypt_method
            }
        },
        r matches Ok(out) ==> (spec_parse_ansi_header(out@) matches Ok(h2)
            && h2.root.amap_is_valid != AmapStatus::Invalid),
        (spec_parse_ansi_header(file@) is Ok && spec_ansi_rebuild_marked(file@) is Ok
            && spec_ansi_rebuild_free_bytes(file@)->Ok_0 <= 0xFFFF_FFFFu64
            && spec_map_offsets_fit(
            spec_num_amap_pages(spec_parse_ansi_header(file@)->Ok_0.root.file_eof_index as u64),
            file@.len() as int,
        ) && spec_map_offsets_fit(
            spec_num_amap_pages(spec_parse_ansi_header(file@)->Ok_0.root.file_eof_index as u64),
            0x1_0000_0000,
        )) ==> r is Ok,
        (spec_parse_ansi_header(file@) is Ok && spec_parse_ansi_header(
            file@,
        )->Ok_0.root.amap_is_valid == AmapStatus::Invalid && r is Ok) ==> {
            let out = r->Ok_0;
            let num = spec_num_amap_pages(
                spec_parse_ansi_header(file@)->Ok_0.root.file_eof_index as u64,
            );
            &&& spec_ansi_rebuild_marked(file@) is Ok
            &&& spec_ansi_map_pages_written(out@, spec_ansi_rebuild_marked(file@)->Ok_0, num)
            &&& forall|j: int|
                ANSI_HEADER_SIZE <= j < out@.len() && !spec_rewritten_map_byte(num, j)
                    ==> out@[j] == file@[j]
        },
{
    let n: usize = file.len();
    let h = match parse_ansi_header(file) {
        Ok(h) => h,
        Err(e) => {
            return Err(PstError::NodeDatabaseError(e));
        },
    };
    if h.root.amap_is_valid.to_u8() != AmapStatus::Invalid.to_u8() {
        let out = vstd::slice::slice_to_vec(file);
        return Ok(out);
    }
    let eof = h.root.file_eof_index as u64;
    if eof < AMAP_FIRST_OFFSET || eof > n as u64 {
        proof {
            assert(spec_ansi_rebuild_marked(file@) == PstResult::<Seq<AnsiAmapInfoModel>>::Err(
                PstError::IntegerConversion,
            ));
        }
        return Err(PstError::IntegerConversion);
    }
    let (infos, num64, free_bytes) = match ansi_compute_rebuild(file, &h) {
        Ok(t) => t,
        Err(e) => {
            return Err(e);
        },
    };
    if free_bytes > 0xFFFF_FFFFu64 {
        return Err(PstError::IntegerConversion);
    }
    let mut out = vstd::slice::slice_to_vec(file);
    match ansi_write_map_pages(&mut out, &infos, num64) {
        Ok(_) => {},
        Err(e) => {
            proof {
                assert(!(spec_map_offsets_fit(num64 as int, file@.len() as int)
                    && spec_map_offsets_fit(num64 as int, 0x1_0000_0000)));
            }
            return Err(e);
        },
    }

    let mut root2 = h.root;
    root2.reset_free_size(free_bytes as u32);
    let h2 = AnsiHeader {
        raw: h.raw,
        version: h.version,
        crypt_method: h.crypt_method,
        root: root2,
    };
    let hb = serialize_ansi_header(&h2);
    proof {
        assert(out@.len() >= ANSI_HEADER_SIZE);
    }
    let ghost sw = out@;
    splice(&mut out, 0, hb.as_slice());
    proof {
        assert(out@.subrange(0, ANSI_HEADER_SIZE as int) =~= hb@);
        lemma_ansi_header_parse_prefix(out@, hb@);
        let numi = num64 as int;
        let marked = spec_ansi_infos_view(infos@);
        lemma_ansi_images_survive_header(sw, out@, marked, numi);
        assert(spec_ansi_map_pages_written(out@, marked, numi));
        assert(numi == spec_num_amap_pages(h@.root.file_eof_index as u64));
    }
    Ok(out)
}

} // verus!
