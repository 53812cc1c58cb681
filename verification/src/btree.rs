//! The two persistent B-trees of the NDB layer: the node B-tree (node id to
//! data and sub-node block ids) and the block B-tree (block id to file
//! offset, size and reference count). A B-tree page is one 512-byte page:
//! fixed-size entries at the front, an entry-count/max/size/level tail, and
//! a page trailer whose CRC covers the bytes before it. Lookup descends
//! through intermediate pages by the greatest key at most the target.

use vstd::prelude::*;
use crate::bytes::{
    read_u8, read_u16, read_u32, read_u64, spec_u16_at, spec_u32_at, spec_u64_at, spec_u16_bytes,
    spec_u32_bytes, spec_u64_bytes, write_u16, write_u32, write_u64,
};
use crate::crc::{spec_crc, compute_crc};
use crate::block_id::{UnicodeBlockId, AnsiBlockId};
use crate::block_ref::{
    UnicodeBlockRef, AnsiBlockRef, spec_parse_unicode_block_ref, spec_parse_ansi_block_ref,
    parse_unicode_block_ref, parse_ansi_block_ref,
};
use crate::node_id::NodeId;
use crate::page::{
    PageType, PAGE_SIZE, UnicodePageTrailer, AnsiPageTrailer, spec_parse_unicode_page_trailer,
    spec_parse_ansi_page_trailer, parse_unicode_page_trailer, parse_ansi_page_trailer,
};
use crate::error::{NdbError, NdbResult};

verus! {

broadcast use vstd::slice::group_slice_axioms;

/// The entry region of a B-tree page, 64-bit width.
pub const UNICODE_BTREE_ENTRIES_SIZE: usize = 488;

/// The entry region of a B-tree page, 32-bit width.
pub const ANSI_BTREE_ENTRIES_SIZE: usize = 496;

/// NBTENTRY, 64-bit width: 32 bytes. The node id is stored widened to 64
/// bits; only its low 32 bits carry the id. A stored sub-node id whose
/// masked value is zero means "no sub-node tree".
#[derive(Clone, Copy, Debug, PartialEq, Eq, Structural)]
pub struct UnicodeNodeBTreeEntry {
    pub node: NodeId,
    pub data: UnicodeBlockId,
    pub sub_node: Option<UnicodeBlockId>,
    pub parent: NodeId,
}

impl UnicodeNodeBTreeEntry {
    pub fn node(&self) -> (r: NodeId)
        ensures
            r == self.node,
    {
        self.node
    }

    pub fn data(&self) -> (r: UnicodeBlockId)
        ensures
            r == self.data,
    {
        self.data
    }

    pub fn sub_node(&self) -> (r: Option<UnicodeBlockId>)
        ensures
            r == self.sub_node,
    {
        self.sub_node
    }

    pub fn parent(&self) -> (r: NodeId)
        ensures
            r == self.parent,
    {
        self.parent
    }
}

pub open spec fn spec_parse_unicode_node_btree_entry(s: Seq<u8>, i: int) -> UnicodeNodeBTreeEntry
    recommends
        0 <= i,
        i + 32 <= s.len(),
{
    let sv = spec_u64_at(s, i + 16);
    UnicodeNodeBTreeEntry {
        node: NodeId((spec_u64_at(s, i) & 0xFFFF_FFFF) as u32),
        data: UnicodeBlockId(spec_u64_at(s, i + 8)),
        sub_node: if sv & 0xFFFF_FFFF_FFFF_FFFE != 0 {
            Some(UnicodeBlockId(sv))
        } else {
            None
        },
        parent: NodeId(spec_u32_at(s, i + 24)),
    }
}

pub fn parse_unicode_node_btree_entry(b: &[u8], off: usize) -> (r: UnicodeNodeBTreeEntry)
    requires
        off + 32 <= b@.len(),
    ensures
        r == spec_parse_unicode_node_btree_entry(b@, off as int),
{
    let n: usize = b.len();
    let node = NodeId::from_raw((read_u64(b, off) & 0xFFFF_FFFF) as u32);
    let data = UnicodeBlockId::from_raw(read_u64(b, off + 8));
    let sv = read_u64(b, off + 16);
    let sub_node = if sv & 0xFFFF_FFFF_FFFF_FFFE != 0 {
        Some(UnicodeBlockId::from_raw(sv))
    } else {
        None
    };
    let parent = NodeId::from_raw(read_u32(b, off + 24));
    UnicodeNodeBTreeEntry { node, data, sub_node, parent }
}

/// BBTENTRY, 64-bit width: 24 bytes.
#[derive(Clone, Copy, Debug, PartialEq, Eq, Structural)]
pub struct UnicodeBlockBTreeEntry {
    pub block: UnicodeBlockRef,
    pub size: u16,
    pub ref_count: u16,
}

impl UnicodeBlockBTreeEntry {
    pub fn block(&self) -> (r: UnicodeBlockRef)
        ensures
            r == self.block,
    {
        self.block
    }

    pub fn size(&self) -> (r: u16)
        ensures
            r == self.size,
    {
        self.size
    }

    pub fn ref_count(&self) -> (r: u16)
        ensures
            r == self.ref_count,
    {
        self.ref_count
    }
}

pub open spec fn spec_parse_unicode_block_btree_entry(s: Seq<u8>, i: int) -> UnicodeBlockBTreeEntry
    recommends
        0 <= i,
        i + 24 <= s.len(),
{
    UnicodeBlockBTreeEntry {
        block: spec_parse_unicode_block_ref(s, i),
        size: spec_u16_at(s, i + 16),
        ref_count: spec_u16_at(s, i + 18),
    }
}

pub fn parse_unicode_block_btree_entry(b: &[u8], off: usize) -> (r: UnicodeBlockBTreeEntry)
    requires
        off + 24 <= b@.len(),
    ensures
        r == spec_parse_unicode_block_btree_entry(b@, off as int),
{
    let n: usize = b.len();
    let block = parse_unicode_block_ref(b, off);
    let size = read_u16(b, off + 16);
    let ref_count = read_u16(b, off + 18);
    UnicodeBlockBTreeEntry { block, size, ref_count }
}

/// An intermediate B-tree entry, 64-bit width: the smallest key reachable
/// through the child, and the child page's reference.
#[derive(Clone, Copy, Debug, PartialEq, Eq, Structural)]
pub struct UnicodeBTreePageEntry {
    pub key: u64,
    pub block: UnicodeBlockRef,
}

impl UnicodeBTreePageEntry {
    pub fn key(&self) -> (r: u64)
        ensures
            r == self.key,
    {
        self.key
    }

    pub fn block(&self) -> (r: UnicodeBlockRef)
        ensures
            r == self.block,
    {
        self.block
    }
}

pub open spec fn spec_parse_unicode_btree_page_entry(s: Seq<u8>, i: int) -> UnicodeBTreePageEntry
    recommends
        0 <= i,
        i + 24 <= s.len(),
{
    UnicodeBTreePageEntry { key: spec_u64_at(s, i), block: spec_parse_unicode_block_ref(s, i + 8) }
}

pub fn parse_unicode_btree_page_entry(b: &[u8], off: usize) -> (r: UnicodeBTreePageEntry)
    requires
        off + 24 <= b@.len(),
    ensures
        r == spec_parse_unicode_btree_page_entry(b@, off as int),
{
    let n: usize = b.len();
    let key = read_u64(b, off);
    let block = parse_unicode_block_ref(b, off + 8);
    UnicodeBTreePageEntry { key, block }
}

/// The mathematical content of an intermediate B-tree page, 64-bit width.
#[verifier::ext_equal]
pub ghost struct UnicodeBTreeIntermediatePageModel {
    pub level: u8,
    pub entries: Seq<UnicodeBTreePageEntry>,
    pub trailer: UnicodePageTrailer,
}

/// An intermediate B-tree page, 64-bit width: level 1 to 8.
#[derive(Clone, Debug, PartialEq, Eq)]
pub struct UnicodeBTreeIntermediatePage {
    pub level: u8,
    pub entries: Vec<UnicodeBTreePageEntry>,
    pub trailer: UnicodePageTrailer,
}

impl View for UnicodeBTreeIntermediatePage {
    type V = UnicodeBTreeIntermediatePageModel;

    open spec fn view(&self) -> UnicodeBTreeIntermediatePageModel {
        UnicodeBTreeIntermediatePageModel {
            level: self.level,
            entries: self.entries@,
            trailer: self.trailer,
        }
    }
}

/// A node B-tree leaf page, 64-bit width.
#[verifier::ext_equal]
pub ghost struct UnicodeNodeBTreeLeafPageModel {
    pub entries: Seq<UnicodeNodeBTreeEntry>,
    pub trailer: UnicodePageTrailer,
}

#[derive(Clone, Debug, PartialEq, Eq)]
pub struct UnicodeNodeBTreeLeafPage {
    pub entries: Vec<UnicodeNodeBTreeEntry>,
    pub trailer: UnicodePageTrailer,
}

impl View for UnicodeNodeBTreeLeafPage {
    type V = UnicodeNodeBTreeLeafPageModel;

    open spec fn view(&self) -> UnicodeNodeBTreeLeafPageModel {
        UnicodeNodeBTreeLeafPageModel { entries: self.entries@, trailer: self.trailer }
    }
}

/// A block B-tree leaf page, 64-bit width.
#[verifier::ext_equal]
pub ghost struct UnicodeBlockBTreeLeafPageModel {
    pub entries: Seq<UnicodeBlockBTreeEntry>,
    pub trailer: UnicodePageTrailer,
}

#[derive(Clone, Debug, PartialEq, Eq)]
pub struct UnicodeBlockBTreeLeafPage {
    pub entries: Vec<UnicodeBlockBTreeEntry>,
    pub trailer: UnicodePageTrailer,
}

impl View for UnicodeBlockBTreeLeafPage {
    type V = UnicodeBlockBTreeLeafPageModel;

    open spec fn view(&self) -> UnicodeBlockBTreeLeafPageModel {
        UnicodeBlockBTreeLeafPageModel { entries: self.entries@, trailer: self.trailer }
    }
}

/// A node B-tree page: a leaf of node entries, or an intermediate fan-out
/// page.
#[derive(Clone, Debug, PartialEq, Eq)]
pub enum UnicodeNodeBTreePage {
    Intermediate(UnicodeBTreeIntermediatePage),
    Leaf(UnicodeNodeBTreeLeafPage),
}

pub ghost enum UnicodeNodeBTreePageModel {
    Intermediate(UnicodeBTreeIntermediatePageModel),
    Leaf(UnicodeNodeBTreeLeafPageModel),
}

impl View for UnicodeNodeBTreePage {
    type V = UnicodeNodeBTreePageModel;

    open spec fn view(&self) -> UnicodeNodeBTreePageModel {
        match self {
            UnicodeNodeBTreePage::Intermediate(p) => UnicodeNodeBTreePageModel::Intermediate(p@),
            UnicodeNodeBTreePage::Leaf(p) => UnicodeNodeBTreePageModel::Leaf(p@),
        }
    }
}

/// A block B-tree page.
#[derive(Clone, Debug, PartialEq, Eq)]
pub enum UnicodeBlockBTreePage {
    Intermediate(UnicodeBTreeIntermediatePage),
    Leaf(UnicodeBlockBTreeLeafPage),
}

pub ghost enum UnicodeBlockBTreePageModel {
    Intermediate(UnicodeBTreeIntermediatePageModel),
    Leaf(UnicodeBlockBTreeLeafPageModel),
}

impl View for UnicodeBlockBTreePage {
    type V = UnicodeBlockBTreePageModel;

    open spec fn view(&self) -> UnicodeBlockBTreePageModel {
        match self {
            UnicodeBlockBTreePage::Intermediate(p) => UnicodeBlockBTreePageModel::Intermediate(p@),
            UnicodeBlockBTreePage::Leaf(p) => UnicodeBlockBTreePageModel::Leaf(p@),
        }
    }
}

pub open spec fn spec_unicode_intermediate_entries(s: Seq<u8>, off: int, count: int) -> Seq<
    UnicodeBTreePageEntry,
> {
    Seq::new(count as nat, |k: int| spec_parse_unicode_btree_page_entry(s, off + 24 * k))
}

pub open spec fn spec_unicode_node_leaf_entries(s: Seq<u8>, off: int, count: int) -> Seq<
    UnicodeNodeBTreeEntry,
> {
    Seq::new(count as nat, |k: int| spec_parse_unicode_node_btree_entry(s, off + 32 * k))
}

pub open spec fn spec_unicode_block_leaf_entries(s: Seq<u8>, off: int, count: int) -> Seq<
    UnicodeBlockBTreeEntry,
> {
    Seq::new(count as nat, |k: int| spec_parse_unicode_block_btree_entry(s, off + 24 * k))
}

/// The checks every 64-bit-width B-tree page passes before its entries are
/// read: the declared level, counts and entry size against the variant
/// constants (by the level's page kind), zero tail padding, a B-tree page
/// trailer, and the CRC of the 496 bytes before the trailer. Returns the
/// entry count, level and trailer.
pub open spec fn spec_parse_unicode_btree_frame(
    s: Seq<u8>,
    off: int,
    leaf_entry_size: int,
) -> NdbResult<(int, u8, UnicodePageTrailer)> {
    if !(0 <= off && off + PAGE_SIZE <= s.len()) {
        Err(NdbError::PageOutOfBounds(off as u64))
    } else {
        let count = s[off + 488] as int;
        let max = s[off + 489] as int;
        let entry_size = s[off + 490] as int;
        let level = s[off + 491];
        if level > 8 {
            Err(NdbError::InvalidBTreePageLevel(level))
        } else {
            let expected_size = if level == 0 {
                leaf_entry_size
            } else {
                24
            };
            let expected_max = 488int / expected_size;
            if count > expected_max {
                Err(NdbError::InvalidBTreeEntryCount(count as usize))
            } else if max != expected_max {
                Err(NdbError::InvalidBTreeEntryMaxCount(s[off + 489]))
            } else if entry_size != expected_size {
                Err(NdbError::InvalidBTreeEntrySize(s[off + 490]))
            } else if spec_u32_at(s, off + 492) != 0 {
                Err(NdbError::InvalidBTreePagePadding(spec_u32_at(s, off + 492)))
            } else {
                match spec_parse_unicode_page_trailer(s, off + 496) {
                    Err(e) => Err(e),
                    Ok(t) => if t.page_type != PageType::NodeBTree && t.page_type
                        != PageType::BlockBTree {
                        Err(NdbError::UnexpectedPageType(t.page_type.to_u8_spec()))
                    } else {
                        let c = spec_crc(0, s.subrange(off, off + 496));
                        if c != t.crc {
                            Err(NdbError::InvalidPageCrc(c))
                        } else {
                            Ok((count, level, t))
                        }
                    },
                }
            }
        }
    }
}

fn parse_unicode_btree_frame(b: &[u8], off: usize, leaf_entry_size: usize) -> (r: NdbResult<
    (usize, u8, UnicodePageTrailer),
>)
    requires
        leaf_entry_size == 32 || leaf_entry_size == 24,
    ensures
        (r matches Ok(f) && spec_parse_unicode_btree_frame(b@, off as int, leaf_entry_size as int)
            matches Ok(g) && f.0 as int == g.0 && f.1 == g.1 && f.2 == g.2) || (r matches Err(e)
            && spec_parse_unicode_btree_frame(b@, off as int, leaf_entry_size as int)
            == NdbResult::<(int, u8, UnicodePageTrailer)>::Err(e)),
        r matches Ok(f) ==> (off + PAGE_SIZE <= b@.len() && (f.1 == 0 ==> f.0 * leaf_entry_size
            <= 488) && (f.1 != 0 ==> f.0 * 24 <= 488)),
    {
    let n: usize = b.len();
    if off > n || PAGE_SIZE > n - off {
        return Err(NdbError::PageOutOfBounds(off as u64));
    }
    let count = read_u8(b, off + 488) as usize;
    let max = read_u8(b, off + 489) as usize;
    let entry_size = read_u8(b, off + 490) as usize;
    let level = read_u8(b, off + 491);
    if level > 8 {
        return Err(NdbError::InvalidBTreePageLevel(level));
    }
    let expected_size: usize = if level == 0 {
        leaf_entry_size
    } else {
        24
    };
    let expected_max: usize = 488 / expected_size;
    if count > expected_max {
        return Err(NdbError::InvalidBTreeEntryCount(count));
    }
    if max != expected_max {
        return Err(NdbError::InvalidBTreeEntryMaxCount(read_u8(b, off + 489)));
    }
    if entry_size != expected_size {
        return Err(NdbError::InvalidBTreeEntrySize(read_u8(b, off + 490)));
    }
    let padding = read_u32(b, off + 492);
    if padding != 0 {
        return Err(NdbError::InvalidBTreePagePadding(padding));
    }
    let t = match parse_unicode_page_trailer(b, off + 496) {
        Ok(t) => t,
        Err(e) => {
            return Err(e);
        },
    };
    let tb = t.page_type.to_u8();
    if tb != 0x81 && tb != 0x80 {
        return Err(NdbError::UnexpectedPageType(tb));
    }
    let c = compute_crc(0, vstd::slice::slice_subrange(b, off, off + 496));
    if c != t.crc {
        return Err(NdbError::InvalidPageCrc(c));
    }
    proof {
        if level == 0 {
            if leaf_entry_size == 32 {
                assert(expected_max == 15);
            } else {
                assert(expected_max == 20);
            }
        } else {
            assert(expected_max == 20);
        }
    }
    Ok((count, level, t))
}

/// The node B-tree page in the 512 bytes at `off`: the frame checks, then
/// `count` entries of the kind the level dictates.
pub open spec fn spec_parse_unicode_node_btree_page(s: Seq<u8>, off: int) -> NdbResult<
    UnicodeNodeBTreePageModel,
> {
    match spec_parse_unicode_btree_frame(s, off, 32) {
        Err(e) => Err(e),
        Ok(f) => if f.1 == 0 {
            Ok(
                UnicodeNodeBTreePageModel::Leaf(
                    (UnicodeNodeBTreeLeafPageModel {
                        entries: spec_unicode_node_leaf_entries(s, off, f.0),
                        trailer: f.2,
                    }),
                ),
            )
        } else {
            Ok(
                UnicodeNodeBTreePageModel::Intermediate(
                    (UnicodeBTreeIntermediatePageModel {
                        level: f.1,
                        entries: spec_unicode_intermediate_entries(s, off, f.0),
                        trailer: f.2,
                    }),
                ),
            )
        },
    }
}

pub fn parse_unicode_node_btree_page(b: &[u8], off: usize) -> (r: NdbResult<UnicodeNodeBTreePage>)
    ensures
        (r matches Ok(p) && spec_parse_unicode_node_btree_page(b@, off as int) matches Ok(m)
            && p@ == m) || (r matches Err(e) && spec_parse_unicode_node_btree_page(b@, off as int)
            == NdbResult::<UnicodeNodeBTreePageModel>::Err(e)),
    {
    let n: usize = b.len();
    let (count, level, trailer) = match parse_unicode_btree_frame(b, off, 32) {
        Ok(f) => f,
        Err(e) => {
            return Err(e);
        },
    };
    if level == 0 {
        let mut entries: Vec<UnicodeNodeBTreeEntry> = Vec::new();
        let mut k: usize = 0;
        while k < count
            invariant
                k <= count,
                off + PAGE_SIZE <= b@.len(),
                count * 32 <= 488,
                entries@ =~= spec_unicode_node_leaf_entries(b@, off as int, k as int),
            decreases count - k,
        {
            let bn: usize = b.len();
            entries.push(parse_unicode_node_btree_entry(b, off + 32 * k));
            k = k + 1;
            proof {
                assert(entries@ =~= spec_unicode_node_leaf_entries(b@, off as int, k as int));
            }
        }
        proof {
            assert(entries@ =~= spec_unicode_node_leaf_entries(b@, off as int, count as int));
        }
        Ok(UnicodeNodeBTreePage::Leaf(UnicodeNodeBTreeLeafPage { entries, trailer }))
    } else {
        let mut entries: Vec<UnicodeBTreePageEntry> = Vec::new();
        let mut k: usize = 0;
        while k < count
            invariant
                k <= count,
                off + PAGE_SIZE <= b@.len(),
                count * 24 <= 488,
                entries@ =~= spec_unicode_intermediate_entries(b@, off as int, k as int),
            decreases count - k,
        {
            let bn: usize = b.len();
            entries.push(parse_unicode_btree_page_entry(b, off + 24 * k));
            k = k + 1;
            proof {
                assert(entries@ =~= spec_unicode_intermediate_entries(b@, off as int, k as int));
            }
        }
        proof {
            assert(entries@ =~= spec_unicode_intermediate_entries(b@, off as int, count as int));
        }
        Ok(
            UnicodeNodeBTreePage::Intermediate(
                UnicodeBTreeIntermediatePage { level, entries, trailer },
            ),
        )
    }
}

/// The block B-tree page in the 512 bytes at `off`.
pub open spec fn spec_parse_unicode_block_btree_page(s: Seq<u8>, off: int) -> NdbResult<
    UnicodeBlockBTreePageModel,
> {
    match spec_parse_unicode_btree_frame(s, off, 24) {
        Err(e) => Err(e),
        Ok(f) => if f.1 == 0 {
            Ok(
                UnicodeBlockBTreePageModel::Leaf(
                    (UnicodeBlockBTreeLeafPageModel {
                        entries: spec_unicode_block_leaf_entries(s, off, f.0),
                        trailer: f.2,
                    }),
                ),
            )
        } else {
            Ok(
                UnicodeBlockBTreePageModel::Intermediate(
                    (UnicodeBTreeIntermediatePageModel {
                        level: f.1,
                        entries: spec_unicode_intermediate_entries(s, off, f.0),
                        trailer: f.2,
                    }),
                ),
            )
        },
    }
}

pub fn parse_unicode_block_btree_page(b: &[u8], off: usize) -> (r: NdbResult<
    UnicodeBlockBTreePage,
>)
    ensures
        (r matches Ok(p) && spec_parse_unicode_block_btree_page(b@, off as int) matches Ok(m)
            && p@ == m) || (r matches Err(e) && spec_parse_unicode_block_btree_page(b@, off as int)
            == NdbResult::<UnicodeBlockBTreePageModel>::Err(e)),
    {
    let n: usize = b.len();
    let (count, level, trailer) = match parse_unicode_btree_frame(b, off, 24) {
        Ok(f) => f,
        Err(e) => {
            return Err(e);
        },
    };
    if level == 0 {
        let mut entries: Vec<UnicodeBlockBTreeEntry> = Vec::new();
        let mut k: usize = 0;
        while k < count
            invariant
                k <= count,
                off + PAGE_SIZE <= b@.len(),
                count * 24 <= 488,
                entries@ =~= spec_unicode_block_leaf_entries(b@, off as int, k as int),
            decreases count - k,
        {
            let bn: usize = b.len();
            entries.push(parse_unicode_block_btree_entry(b, off + 24 * k));
            k = k + 1;
            proof {
                assert(entries@ =~= spec_unicode_block_leaf_entries(b@, off as int, k as int));
            }
        }
        proof {
            assert(entries@ =~= spec_unicode_block_leaf_entries(b@, off as int, count as int));
        }
        Ok(UnicodeBlockBTreePage::Leaf(UnicodeBlockBTreeLeafPage { entries, trailer }))
    } else {
        let mut entries: Vec<UnicodeBTreePageEntry> = Vec::new();
        let mut k: usize = 0;
        while k < count
            invariant
                k <= count,
                off + PAGE_SIZE <= b@.len(),
                count * 24 <= 488,
                entries@ =~= spec_unicode_intermediate_entries(b@, off as int, k as int),
            decreases count - k,
        {
            let bn: usize = b.len();
            entries.push(parse_unicode_btree_page_entry(b, off + 24 * k));
            k = k + 1;
            proof {
                assert(entries@ =~= spec_unicode_intermediate_entries(b@, off as int, k as int));
            }
        }
        proof {
            assert(entries@ =~= spec_unicode_intermediate_entries(b@, off as int, count as int));
        }
        Ok(
            UnicodeBlockBTreePage::Intermediate(
                UnicodeBTreeIntermediatePage { level, entries, trailer },
            ),
        )
    }
}

/// The last index whose key is at most `key`, or nothing if every key is
/// greater: the child an intermediate page routes a lookup through.
pub open spec fn spec_last_le_unicode(entries: Seq<UnicodeBTreePageEntry>, key: u64) -> Option<int>
    decreases entries.len(),
{
    if entries.len() == 0 {
        None
    } else if entries.last().key <= key {
        Some(entries.len() - 1)
    } else {
        spec_last_le_unicode(entries.drop_last(), key)
    }
}

fn last_le_unicode(entries: &Vec<UnicodeBTreePageEntry>, key: u64) -> (r: Option<usize>)
    ensures
        r matches Some(i) ==> spec_last_le_unicode(entries@, key) == Some(i as int) && i
            < entries@.len(),
        r is None ==> spec_last_le_unicode(entries@, key) is None,
{
    let n = entries.len();
    let mut best: Option<usize> = None;
    let mut i: usize = 0;
    while i < n
        invariant
            i <= n,
            n == entries@.len(),
            (best matches Some(j) ==> spec_last_le_unicode(entries@.subrange(0, i as int), key)
                == Some(j as int) && j < i),
            (best is None ==> spec_last_le_unicode(entries@.subrange(0, i as int), key) is None),
        decreases n - i,
    {
        proof {
            let p = entries@.subrange(0, i + 1 as int);
            assert(p.drop_last() =~= entries@.subrange(0, i as int));
            assert(p.last() == entries@[i as int]);
        }
        if entries[i].key <= key {
            best = Some(i);
        }
        i = i + 1;
    }
    proof {
        assert(entries@.subrange(0, n as int) =~= entries@);
    }
    best
}

/// Routing is sound on a sorted page: the chosen index carries the greatest
/// key at most the target, and everything after it is greater.
pub open spec fn spec_unicode_intermediate_sorted(entries: Seq<UnicodeBTreePageEntry>) -> bool {
    forall|i: int, j: int| 0 <= i <= j < entries.len() ==> entries[i].key <= entries[j].key
}

/// On a sorted intermediate page, the routing index is the unique boundary:
/// nothing is chosen only when every key is greater than the target, and
/// the chosen entry's key is at most the target while every later key is
/// greater.
pub proof fn lemma_unicode_route_correct(entries: Seq<UnicodeBTreePageEntry>, key: u64)
    requires
        spec_unicode_intermediate_sorted(entries),
    ensures
        spec_last_le_unicode(entries, key) is None ==> forall|i: int|
            0 <= i < entries.len() ==> entries[i].key > key,
        spec_last_le_unicode(entries, key) matches Some(j) ==> (0 <= j < entries.len()
            && entries[j].key <= key && forall|i: int|
            j < i < entries.len() ==> entries[i].key > key),
    decreases entries.len(),
{
    if entries.len() > 0 && entries.last().key > key {
        assert(entries.drop_last() =~= entries.subrange(0, entries.len() - 1));
        lemma_unicode_route_correct(entries.drop_last(), key);
        assert(forall|i: int|
            0 <= i < entries.len() - 1 ==> entries.drop_last()[i] == entries[i]);
    }
}

/// The first block-leaf entry whose masked block id equals the key.
pub open spec fn spec_find_unicode_block_leaf(
    entries: Seq<UnicodeBlockBTreeEntry>,
    key: u64,
) -> NdbResult<UnicodeBlockBTreeEntry>
    decreases entries.len(),
{
    if entries.len() == 0 {
        Err(NdbError::BTreeEntryNotFound(key))
    } else if entries[0].block.block.masked_spec() == key {
        Ok(entries[0])
    } else {
        spec_find_unicode_block_leaf(entries.skip(1), key)
    }
}

fn find_unicode_block_leaf(entries: &Vec<UnicodeBlockBTreeEntry>, key: u64) -> (r: NdbResult<
    UnicodeBlockBTreeEntry,
>)
    ensures
        r == spec_find_unicode_block_leaf(entries@, key),
{
    let n = entries.len();
    proof {
        assert(entries@.skip(0) =~= entries@);
    }
    let mut i: usize = 0;
    while i < n
        invariant
            i <= n,
            n == entries@.len(),
            spec_find_unicode_block_leaf(entries@, key) == spec_find_unicode_block_leaf(
                entries@.skip(i as int),
                key,
            ),
        decreases n - i,
    {
        proof {
            let rest = entries@.skip(i as int);
            assert(rest[0] == entries@[i as int]);
            assert(rest.skip(1) =~= entries@.skip(i + 1 as int));
        }
        let e = entries[i];
        if e.block.block.masked() == key {
            return Ok(e);
        }
        i = i + 1;
    }
    proof {
        assert(entries@.skip(n as int).len() == 0);
    }
    Err(NdbError::BTreeEntryNotFound(key))
}

/// Leaf lookup is exact: a key present in the leaf is found (and the found
/// entry carries it); an absent key reports `BTreeEntryNotFound`.
pub proof fn lemma_unicode_block_leaf_find(entries: Seq<UnicodeBlockBTreeEntry>, key: u64)
    ensures
        (exists|i: int| 0 <= i < entries.len() && entries[i].block.block.masked_spec() == key)
            ==> (spec_find_unicode_block_leaf(entries, key) matches Ok(e)
            && e.block.block.masked_spec() == key && entries.contains(e)),
        (forall|i: int| 0 <= i < entries.len() ==> entries[i].block.block.masked_spec() != key)
            ==> spec_find_unicode_block_leaf(entries, key) == NdbResult::<
            UnicodeBlockBTreeEntry,
        >::Err(NdbError::BTreeEntryNotFound(key)),
    decreases entries.len(),
{
    if entries.len() > 0 && entries[0].block.block.masked_spec() != key {
        lemma_unicode_block_leaf_find(entries.skip(1), key);
        assert(forall|i: int|
            0 <= i < entries.skip(1).len() ==> entries.skip(1)[i] == entries[i + 1]);
        if exists|i: int| 0 <= i < entries.len() && entries[i].block.block.masked_spec() == key {
            let i = choose|i: int|
                0 <= i < entries.len() && entries[i].block.block.masked_spec() == key;
            assert(entries.skip(1)[i - 1] == entries[i]);
            let e = spec_find_unicode_block_leaf(entries.skip(1), key)->Ok_0;
            assert(entries.skip(1).contains(e));
            let k = choose|k: int| 0 <= k < entries.skip(1).len() && entries.skip(1)[k] == e;
            assert(entries[k + 1] == e);
        }
    }
}

/// The first node-leaf entry whose node id equals the target.
pub open spec fn spec_find_unicode_node_leaf(
    entries: Seq<UnicodeNodeBTreeEntry>,
    nid: u32,
) -> NdbResult<UnicodeNodeBTreeEntry>
    decreases entries.len(),
{
    if entries.len() == 0 {
        Err(NdbError::BTreeEntryNotFound(nid as u64))
    } else if entries[0].node.raw_spec() == nid {
        Ok(entries[0])
    } else {
        spec_find_unicode_node_leaf(entries.skip(1), nid)
    }
}

fn find_unicode_node_leaf(entries: &Vec<UnicodeNodeBTreeEntry>, nid: u32) -> (r: NdbResult<
    UnicodeNodeBTreeEntry,
>)
    ensures
        r == spec_find_unicode_node_leaf(entries@, nid),
{
    let n = entries.len();
    proof {
        assert(entries@.skip(0) =~= entries@);
    }
    let mut i: usize = 0;
    while i < n
        invariant
            i <= n,
            n == entries@.len(),
            spec_find_unicode_node_leaf(entries@, nid) == spec_find_unicode_node_leaf(
                entries@.skip(i as int),
                nid,
            ),
        decreases n - i,
    {
        proof {
            let rest = entries@.skip(i as int);
            assert(rest[0] == entries@[i as int]);
            assert(rest.skip(1) =~= entries@.skip(i + 1 as int));
        }
        let e = entries[i];
        if e.node.raw() == nid {
            return Ok(e);
        }
        i = i + 1;
    }
    proof {
        assert(entries@.skip(n as int).len() == 0);
    }
    Err(NdbError::BTreeEntryNotFound(nid as u64))
}

/// Leaf lookup is exact for node leaves, as for block leaves.
pub proof fn lemma_unicode_node_leaf_find(entries: Seq<UnicodeNodeBTreeEntry>, nid: u32)
    ensures
        (exists|i: int| 0 <= i < entries.len() && entries[i].node.raw_spec() == nid)
            ==> (spec_find_unicode_node_leaf(entries, nid) matches Ok(e) && e.node.raw_spec()
            == nid && entries.contains(e)),
        (forall|i: int| 0 <= i < entries.len() ==> entries[i].node.raw_spec() != nid)
            ==> spec_find_unicode_node_leaf(entries, nid) == NdbResult::<
            UnicodeNodeBTreeEntry,
        >::Err(NdbError::BTreeEntryNotFound(nid as u64)),
    decreases entries.len(),
{
    if entries.len() > 0 && entries[0].node.raw_spec() != nid {
        lemma_unicode_node_leaf_find(entries.skip(1), nid);
        assert(forall|i: int|
            0 <= i < entries.skip(1).len() ==> entries.skip(1)[i] == entries[i + 1]);
        if exists|i: int| 0 <= i < entries.len() && entries[i].node.raw_spec() == nid {
            let i = choose|i: int| 0 <= i < entries.len() && entries[i].node.raw_spec() == nid;
            assert(entries.skip(1)[i - 1] == entries[i]);
            let e = spec_find_unicode_node_leaf(entries.skip(1), nid)->Ok_0;
            assert(entries.skip(1).contains(e));
            let k = choose|k: int| 0 <= k < entries.skip(1).len() && entries.skip(1)[k] == e;
            assert(entries[k + 1] == e);
        }
    }
}

fn parse_unicode_block_btree_page_at(b: &[u8], off: u64) -> (r: NdbResult<UnicodeBlockBTreePage>)
    ensures
        (r matches Ok(p) && spec_parse_unicode_block_btree_page(b@, off as int) matches Ok(m)
            && p@ == m) || (r matches Err(e) && spec_parse_unicode_block_btree_page(b@, off as int)
            == NdbResult::<UnicodeBlockBTreePageModel>::Err(e)),
    {
    let n: usize = b.len();
    if off > n as u64 || (PAGE_SIZE as u64) > n as u64 - off {
        return Err(NdbError::PageOutOfBounds(off));
    }
    parse_unicode_block_btree_page(b, off as usize)
}

fn parse_unicode_node_btree_page_at(b: &[u8], off: u64) -> (r: NdbResult<UnicodeNodeBTreePage>)
    ensures
        (r matches Ok(p) && spec_parse_unicode_node_btree_page(b@, off as int) matches Ok(m)
            && p@ == m) || (r matches Err(e) && spec_parse_unicode_node_btree_page(b@, off as int)
            == NdbResult::<UnicodeNodeBTreePageModel>::Err(e)),
    {
    let n: usize = b.len();
    if off > n as u64 || (PAGE_SIZE as u64) > n as u64 - off {
        return Err(NdbError::PageOutOfBounds(off));
    }
    parse_unicode_node_btree_page(b, off as usize)
}

/// The block B-tree of a file, rooted where the header's ROOT points.
#[derive(Clone, Copy, Debug, PartialEq, Eq, Structural)]
pub struct UnicodeBlockBTree {
    pub root: UnicodeBlockRef,
}

/// Descending lookup below `bref`, accepting only pages whose level is
/// under `bound`: at a leaf, the masked-key scan; at an intermediate page,
/// the greatest key at most the target routes the descent.
pub open spec fn spec_find_unicode_block_btree_from(
    s: Seq<u8>,
    bref: UnicodeBlockRef,
    key: u64,
    bound: u8,
) -> NdbResult<UnicodeBlockBTreeEntry>
    decreases bound,
{
    match spec_parse_unicode_block_btree_page(s, bref.index as int) {
        Err(e) => Err(e),
        Ok(m) => match m {
            UnicodeBlockBTreePageModel::Leaf(lp) => spec_find_unicode_block_leaf(lp.entries, key),
            UnicodeBlockBTreePageModel::Intermediate(ip) => if ip.level >= bound {
                Err(NdbError::InvalidBTreePageLevel(ip.level))
            } else {
                match spec_last_le_unicode(ip.entries, key) {
                    None => Err(NdbError::BTreeEntryNotFound(key)),
                    Some(j) => spec_find_unicode_block_btree_from(
                        s,
                        ip.entries[j].block,
                        key,
                        ip.level,
                    ),
                }
            },
        },
    }
}

fn find_unicode_block_btree_from(b: &[u8], bref: UnicodeBlockRef, key: u64, bound: u8) -> (r:
    NdbResult<UnicodeBlockBTreeEntry>)
    ensures
        r == spec_find_unicode_block_btree_from(b@, bref, key, bound),
    decreases bound,
{
    let page = match parse_unicode_block_btree_page_at(b, bref.index) {
        Ok(p) => p,
        Err(e) => {
            return Err(e);
        },
    };
    match page {
        UnicodeBlockBTreePage::Leaf(lp) => find_unicode_block_leaf(&lp.entries, key),
        UnicodeBlockBTreePage::Intermediate(ip) => {
            if ip.level >= bound {
                return Err(NdbError::InvalidBTreePageLevel(ip.level));
            }
            match last_le_unicode(&ip.entries, key) {
                None => Err(NdbError::BTreeEntryNotFound(key)),
                Some(j) => find_unicode_block_btree_from(b, ip.entries[j].block, key, ip.level),
            }
        },
    }
}

impl UnicodeBlockBTree {
    /// What a lookup from the root returns: levels run from at most 8 down
    /// to the leaves.
    pub open spec fn spec_find(s: Seq<u8>, root: UnicodeBlockRef, key: u64) -> NdbResult<
        UnicodeBlockBTreeEntry,
    > {
        spec_find_unicode_block_btree_from(s, root, key, 9)
    }

    /// Opens the tree at `root`, checking that the root page parses.
    pub fn read(b: &[u8], root: UnicodeBlockRef) -> (r: NdbResult<Self>)
        ensures
            (r matches Ok(t) && t.root == root && spec_parse_unicode_block_btree_page(
                b@,
                root.index as int,
            ) is Ok) || (r matches Err(e) && spec_parse_unicode_block_btree_page(
                b@,
                root.index as int,
            ) == NdbResult::<UnicodeBlockBTreePageModel>::Err(e)),
        {
        match parse_unicode_block_btree_page_at(b, root.index) {
            Ok(_) => Ok(UnicodeBlockBTree { root }),
            Err(e) => Err(e),
        }
    }

    /// Looks up the block-B-tree entry whose masked block id equals `key`.
    pub fn find_entry(&self, b: &[u8], key: u64) -> (r: NdbResult<UnicodeBlockBTreeEntry>)
        ensures
            r == Self::spec_find(b@, self.root, key),
    {
        find_unicode_block_btree_from(b, self.root, key, 9)
    }
}

/// The node B-tree of a file.
#[derive(Clone, Copy, Debug, PartialEq, Eq, Structural)]
pub struct UnicodeNodeBTree {
    pub root: UnicodeBlockRef,
}

/// Descending lookup in the node tree; leaf keys are raw node ids.
pub open spec fn spec_find_unicode_node_btree_from(
    s: Seq<u8>,
    bref: UnicodeBlockRef,
    nid: u32,
    bound: u8,
) -> NdbResult<UnicodeNodeBTreeEntry>
    decreases bound,
{
    match spec_parse_unicode_node_btree_page(s, bref.index as int) {
        Err(e) => Err(e),
        Ok(m) => match m {
            UnicodeNodeBTreePageModel::Leaf(lp) => spec_find_unicode_node_leaf(lp.entries, nid),
            UnicodeNodeBTreePageModel::Intermediate(ip) => if ip.level >= bound {
                Err(NdbError::InvalidBTreePageLevel(ip.level))
            } else {
                match spec_last_le_unicode(ip.entries, nid as u64) {
                    None => Err(NdbError::BTreeEntryNotFound(nid as u64)),
                    Some(j) => spec_find_unicode_node_btree_from(
                        s,
                        ip.entries[j].block,
                        nid,
                        ip.level,
                    ),
                }
            },
        },
    }
}

fn find_unicode_node_btree_from(b: &[u8], bref: UnicodeBlockRef, nid: u32, bound: u8) -> (r:
    NdbResult<UnicodeNodeBTreeEntry>)
    ensures
        r == spec_find_unicode_node_btree_from(b@, bref, nid, bound),
    decreases bound,
{
    let page = match parse_unicode_node_btree_page_at(b, bref.index) {
        Ok(p) => p,
        Err(e) => {
            return Err(e);
        },
    };
    match page {
        UnicodeNodeBTreePage::Leaf(lp) => find_unicode_node_leaf(&lp.entries, nid),
        UnicodeNodeBTreePage::Intermediate(ip) => {
            if ip.level >= bound {
                return Err(NdbError::InvalidBTreePageLevel(ip.level));
            }
            match last_le_unicode(&ip.entries, nid as u64) {
                None => Err(NdbError::BTreeEntryNotFound(nid as u64)),
                Some(j) => find_unicode_node_btree_from(b, ip.entries[j].block, nid, ip.level),
            }
        },
    }
}

impl UnicodeNodeBTree {
    pub open spec fn spec_find(s: Seq<u8>, root: UnicodeBlockRef, nid: u32) -> NdbResult<
        UnicodeNodeBTreeEntry,
    > {
        spec_find_unicode_node_btree_from(s, root, nid, 9)
    }

    /// Opens the tree at `root`, checking that the root page parses.
    pub fn read(b: &[u8], root: UnicodeBlockRef) -> (r: NdbResult<Self>)
        ensures
            (r matches Ok(t) && t.root == root && spec_parse_unicode_node_btree_page(
                b@,
                root.index as int,
            ) is Ok) || (r matches Err(e) && spec_parse_unicode_node_btree_page(
                b@,
                root.index as int,
            ) == NdbResult::<UnicodeNodeBTreePageModel>::Err(e)),
        {
        match parse_unicode_node_btree_page_at(b, root.index) {
            Ok(_) => Ok(UnicodeNodeBTree { root }),
            Err(e) => Err(e),
        }
    }

    /// Looks up the node-B-tree entry for `node`.
    pub fn find_entry(&self, b: &[u8], node: NodeId) -> (r: NdbResult<UnicodeNodeBTreeEntry>)
        ensures
            r == Self::spec_find(b@, self.root, node.raw_spec()),
    {
        find_unicode_node_btree_from(b, self.root, node.raw(), 9)
    }
}

/// NBTENTRY, 32-bit width: 16 bytes.
#[derive(Clone, Copy, Debug, PartialEq, Eq, Structural)]
pub struct AnsiNodeBTreeEntry {
    pub node: NodeId,
    pub data: AnsiBlockId,
    pub sub_node: Option<AnsiBlockId>,
    pub parent: NodeId,
}

impl AnsiNodeBTreeEntry {
    pub fn node(&self) -> (r: NodeId)
        ensures
            r == self.node,
    {
        self.node
    }

    pub fn data(&self) -> (r: AnsiBlockId)
        ensures
            r == self.data,
    {
        self.data
    }

    pub fn sub_node(&self) -> (r: Option<AnsiBlockId>)
        ensures
            r == self.sub_node,
    {
        self.sub_node
    }

    pub fn parent(&self) -> (r: NodeId)
        ensures
            r == self.parent,
    {
        self.parent
    }
}

pub open spec fn spec_parse_ansi_node_btree_entry(s: Seq<u8>, i: int) -> AnsiNodeBTreeEntry
    recommends
        0 <= i,
        i + 16 <= s.len(),
{
    let sv = spec_u32_at(s, i + 8);
    AnsiNodeBTreeEntry {
        node: NodeId(spec_u32_at(s, i)),
        data: AnsiBlockId(spec_u32_at(s, i + 4)),
        sub_node: if sv & 0xFFFF_FFFE != 0 {
            Some(AnsiBlockId(sv))
        } else {
            None
        },
        parent: NodeId(spec_u32_at(s, i + 12)),
    }
}

pub fn parse_ansi_node_btree_entry(b: &[u8], off: usize) -> (r: AnsiNodeBTreeEntry)
    requires
        off + 16 <= b@.len(),
    ensures
        r == spec_parse_ansi_node_btree_entry(b@, off as int),
{
    let n: usize = b.len();
    let node = NodeId::from_raw(read_u32(b, off));
    let data = AnsiBlockId::from_raw(read_u32(b, off + 4));
    let sv = read_u32(b, off + 8);
    let sub_node = if sv & 0xFFFF_FFFE != 0 {
        Some(AnsiBlockId::from_raw(sv))
    } else {
        None
    };
    let parent = NodeId::from_raw(read_u32(b, off + 12));
    AnsiNodeBTreeEntry { node, data, sub_node, parent }
}

/// BBTENTRY, 32-bit width: 12 bytes.
#[derive(Clone, Copy, Debug, PartialEq, Eq, Structural)]
pub struct AnsiBlockBTreeEntry {
    pub block: AnsiBlockRef,
    pub size: u16,
    pub ref_count: u16,
}

impl AnsiBlockBTreeEntry {
    pub fn block(&self) -> (r: AnsiBlockRef)
        ensures
            r == self.block,
    {
        self.block
    }

    pub fn size(&self) -> (r: u16)
        ensures
            r == self.size,
    {
        self.size
    }

    pub fn ref_count(&self) -> (r: u16)
        ensures
            r == self.ref_count,
    {
        self.ref_count
    }
}

pub open spec fn spec_parse_ansi_block_btree_entry(s: Seq<u8>, i: int) -> AnsiBlockBTreeEntry
    recommends
        0 <= i,
        i + 12 <= s.len(),
{
    AnsiBlockBTreeEntry {
        block: spec_parse_ansi_block_ref(s, i),
        size: spec_u16_at(s, i + 8),
        ref_count: spec_u16_at(s, i + 10),
    }
}

pub fn parse_ansi_block_btree_entry(b: &[u8], off: usize) -> (r: AnsiBlockBTreeEntry)
    requires
        off + 12 <= b@.len(),
    ensures
        r == spec_parse_ansi_block_btree_entry(b@, off as int),
{
    let n: usize = b.len();
    let block = parse_ansi_block_ref(b, off);
    let size = read_u16(b, off + 8);
    let ref_count = read_u16(b, off + 10);
    AnsiBlockBTreeEntry { block, size, ref_count }
}

/// An intermediate B-tree entry, 32-bit width: 12 bytes.
#[derive(Clone, Copy, Debug, PartialEq, Eq, Structural)]
pub struct AnsiBTreePageEntry {
    pub key: u32,
    pub block: AnsiBlockRef,
}

impl AnsiBTreePageEntry {
    pub fn key(&self) -> (r: u32)
        ensures
            r == self.key,
    {
        self.key
    }

    pub fn block(&self) -> (r: AnsiBlockRef)
        ensures
            r == self.block,
    {
        self.block
    }
}

pub open spec fn spec_parse_ansi_btree_page_entry(s: Seq<u8>, i: int) -> AnsiBTreePageEntry
    recommends
        0 <= i,
        i + 12 <= s.len(),
{
    AnsiBTreePageEntry { key: spec_u32_at(s, i), block: spec_parse_ansi_block_ref(s, i + 4) }
}

pub fn parse_ansi_btree_page_entry(b: &[u8], off: usize) -> (r: AnsiBTreePageEntry)
    requires
        off + 12 <= b@.len(),
    ensures
        r == spec_parse_ansi_btree_page_entry(b@, off as int),
{
    let n: usize = b.len();
    let key = read_u32(b, off);
    let block = parse_ansi_block_ref(b, off + 4);
    AnsiBTreePageEntry { key, block }
}

/// The mathematical content of an intermediate B-tree page, 32-bit width.
#[verifier::ext_equal]
pub ghost struct AnsiBTreeIntermediatePageModel {
    pub level: u8,
    pub entries: Seq<AnsiBTreePageEntry>,
    pub trailer: AnsiPageTrailer,
}

/// An intermediate B-tree page, 32-bit width.
#[derive(Clone, Debug, PartialEq, Eq)]
pub struct AnsiBTreeIntermediatePage {
    pub level: u8,
    pub entries: Vec<AnsiBTreePageEntry>,
    pub trailer: AnsiPageTrailer,
}

impl View for AnsiBTreeIntermediatePage {
    type V = AnsiBTreeIntermediatePageModel;

    open spec fn view(&self) -> AnsiBTreeIntermediatePageModel {
        AnsiBTreeIntermediatePageModel {
            level: self.level,
            entries: self.entries@,
            trailer: self.trailer,
        }
    }
}

/// A node B-tree leaf page, 32-bit width.
#[verifier::ext_equal]
pub ghost struct AnsiNodeBTreeLeafPageModel {
    pub entries: Seq<AnsiNodeBTreeEntry>,
    pub trailer: AnsiPageTrailer,
}

#[derive(Clone, Debug, PartialEq, Eq)]
pub struct AnsiNodeBTreeLeafPage {
    pub entries: Vec<AnsiNodeBTreeEntry>,
    pub trailer: AnsiPageTrailer,
}

impl View for AnsiNodeBTreeLeafPage {
    type V = AnsiNodeBTreeLeafPageModel;

    open spec fn view(&self) -> AnsiNodeBTreeLeafPageModel {
        AnsiNodeBTreeLeafPageModel { entries: self.entries@, trailer: self.trailer }
    }
}

/// A block B-tree leaf page, 32-bit width.
#[verifier::ext_equal]
pub ghost struct AnsiBlockBTreeLeafPageModel {
    pub entries: Seq<AnsiBlockBTreeEntry>,
    pub trailer: AnsiPageTrailer,
}

#[derive(Clone, Debug, PartialEq, Eq)]
pub struct AnsiBlockBTreeLeafPage {
    pub entries: Vec<AnsiBlockBTreeEntry>,
    pub trailer: AnsiPageTrailer,
}

impl View for AnsiBlockBTreeLeafPage {
    type V = AnsiBlockBTreeLeafPageModel;

    open spec fn view(&self) -> AnsiBlockBTreeLeafPageModel {
        AnsiBlockBTreeLeafPageModel { entries: self.entries@, trailer: self.trailer }
    }
}

/// A node B-tree page, 32-bit width.
#[derive(Clone, Debug, PartialEq, Eq)]
pub enum AnsiNodeBTreePage {
    Intermediate(AnsiBTreeIntermediatePage),
    Leaf(AnsiNodeBTreeLeafPage),
}

pub ghost enum AnsiNodeBTreePageModel {
    Intermediate(AnsiBTreeIntermediatePageModel),
    Leaf(AnsiNodeBTreeLeafPageModel),
}

impl View for AnsiNodeBTreePage {
    type V = AnsiNodeBTreePageModel;

    open spec fn view(&self) -> AnsiNodeBTreePageModel {
        match self {
            AnsiNodeBTreePage::Intermediate(p) => AnsiNodeBTreePageModel::Intermediate(p@),
            AnsiNodeBTreePage::Leaf(p) => AnsiNodeBTreePageModel::Leaf(p@),
        }
    }
}

/// A block B-tree page, 32-bit width.
#[derive(Clone, Debug, PartialEq, Eq)]
pub enum AnsiBlockBTreePage {
    Intermediate(AnsiBTreeIntermediatePage),
    Leaf(AnsiBlockBTreeLeafPage),
}

pub ghost enum AnsiBlockBTreePageModel {
    Intermediate(AnsiBTreeIntermediatePageModel),
    Leaf(AnsiBlockBTreeLeafPageModel),
}

impl View for AnsiBlockBTreePage {
    type V = AnsiBlockBTreePageModel;

    open spec fn view(&self) -> AnsiBlockBTreePageModel {
        match self {
            AnsiBlockBTreePage::Intermediate(p) => AnsiBlockBTreePageModel::Intermediate(p@),
            AnsiBlockBTreePage::Leaf(p) => AnsiBlockBTreePageModel::Leaf(p@),
        }
    }
}

pub open spec fn spec_ansi_intermediate_entries(s: Seq<u8>, off: int, count: int) -> Seq<
    AnsiBTreePageEntry,
> {
    Seq::new(count as nat, |k: int| spec_parse_ansi_btree_page_entry(s, off + 12 * k))
}

pub open spec fn spec_ansi_node_leaf_entries(s: Seq<u8>, off: int, count: int) -> Seq<
    AnsiNodeBTreeEntry,
> {
    Seq::new(count as nat, |k: int| spec_parse_ansi_node_btree_entry(s, off + 16 * k))
}

pub open spec fn spec_ansi_block_leaf_entries(s: Seq<u8>, off: int, count: int) -> Seq<
    AnsiBlockBTreeEntry,
> {
    Seq::new(count as nat, |k: int| spec_parse_ansi_block_btree_entry(s, off + 12 * k))
}

/// The checks every 32-bit-width B-tree page passes: as the 64-bit frame,
/// except that the entry region is 496 bytes, there is no tail padding,
/// and the CRC covers the 500 bytes before the trailer.
pub open spec fn spec_parse_ansi_btree_frame(
    s: Seq<u8>,
    off: int,
    leaf_entry_size: int,
) -> NdbResult<(int, u8, AnsiPageTrailer)> {
    if !(0 <= off && off + PAGE_SIZE <= s.len()) {
        Err(NdbError::PageOutOfBounds(off as u64))
    } else {
        let count = s[off + 496] as int;
        let max = s[off + 497] as int;
        let entry_size = s[off + 498] as int;
        let level = s[off + 499];
        if level > 8 {
            Err(NdbError::InvalidBTreePageLevel(level))
        } else {
            let expected_size = if level == 0 {
                leaf_entry_size
            } else {
                12
            };
            let expected_max = 496int / expected_size;
            if count > expected_max {
                Err(NdbError::InvalidBTreeEntryCount(count as usize))
            } else if max != expected_max {
                Err(NdbError::InvalidBTreeEntryMaxCount(s[off + 497]))
            } else if entry_size != expected_size {
                Err(NdbError::InvalidBTreeEntrySize(s[off + 498]))
            } else {
                match spec_parse_ansi_page_trailer(s, off + 500) {
                    Err(e) => Err(e),
                    Ok(t) => if t.page_type != PageType::NodeBTree && t.page_type
                        != PageType::BlockBTree {
                        Err(NdbError::UnexpectedPageType(t.page_type.to_u8_spec()))
                    } else {
                        let c = spec_crc(0, s.subrange(off, off + 500));
                        if c != t.crc {
                            Err(NdbError::InvalidPageCrc(c))
                        } else {
                            Ok((count, level, t))
                        }
                    },
                }
            }
        }
    }
}

fn parse_ansi_btree_frame(b: &[u8], off: usize, leaf_entry_size: usize) -> (r: NdbResult<
    (usize, u8, AnsiPageTrailer),
>)
    requires
        leaf_entry_size == 16 || leaf_entry_size == 12,
    ensures
        (r matches Ok(f) && spec_parse_ansi_btree_frame(b@, off as int, leaf_entry_size as int)
            matches Ok(g) && f.0 as int == g.0 && f.1 == g.1 && f.2 == g.2) || (r matches Err(e)
            && spec_parse_ansi_btree_frame(b@, off as int, leaf_entry_size as int) == NdbResult::<
        (int, u8, AnsiPageTrailer),
        >::Err(e)),
        r matches Ok(f) ==> (off + PAGE_SIZE <= b@.len() && (f.1 == 0 ==> f.0 * leaf_entry_size
            <= 496) && (f.1 != 0 ==> f.0 * 12 <= 496)),
    {
    let n: usize = b.len();
    if off > n || PAGE_SIZE > n - off {
        return Err(NdbError::PageOutOfBounds(off as u64));
    }
    let count = read_u8(b, off + 496) as usize;
    let max = read_u8(b, off + 497) as usize;
    let entry_size = read_u8(b, off + 498) as usize;
    let level = read_u8(b, off + 499);
    if level > 8 {
        return Err(NdbError::InvalidBTreePageLevel(level));
    }
    let expected_size: usize = if level == 0 {
        leaf_entry_size
    } else {
        12
    };
    let expected_max: usize = 496 / expected_size;
    if count > expected_max {
        return Err(NdbError::InvalidBTreeEntryCount(count));
    }
    if max != expected_max {
        return Err(NdbError::InvalidBTreeEntryMaxCount(read_u8(b, off + 497)));
    }
    if entry_size != expected_size {
        return Err(NdbError::InvalidBTreeEntrySize(read_u8(b, off + 498)));
    }
    let t = match parse_ansi_page_trailer(b, off + 500) {
        Ok(t) => t,
        Err(e) => {
            return Err(e);
        },
    };
    let tb = t.page_type.to_u8();
    if tb != 0x81 && tb != 0x80 {
        return Err(NdbError::UnexpectedPageType(tb));
    }
    let c = compute_crc(0, vstd::slice::slice_subrange(b, off, off + 500));
    if c != t.crc {
        return Err(NdbError::InvalidPageCrc(c));
    }
    proof {
        if level == 0 {
            if leaf_entry_size == 16 {
                assert(expected_max == 31);
            } else {
                assert(expected_max == 41);
            }
        } else {
            assert(expected_max == 41);
        }
    }
    Ok((count, level, t))
}

/// The node B-tree page in the 512 bytes at `off`, 32-bit width.
pub open spec fn spec_parse_ansi_node_btree_page(s: Seq<u8>, off: int) -> NdbResult<
    AnsiNodeBTreePageModel,
> {
    match spec_parse_ansi_btree_frame(s, off, 16) {
        Err(e) => Err(e),
        Ok(f) => if f.1 == 0 {
            Ok(
                AnsiNodeBTreePageModel::Leaf(
                    (AnsiNodeBTreeLeafPageModel {
                        entries: spec_ansi_node_leaf_entries(s, off, f.0),
                        trailer: f.2,
                    }),
                ),
            )
        } else {
            Ok(
                AnsiNodeBTreePageModel::Intermediate(
                    (AnsiBTreeIntermediatePageModel {
                        level: f.1,
                        entries: spec_ansi_intermediate_entries(s, off, f.0),
                        trailer: f.2,
                    }),
                ),
            )
        },
    }
}

pub fn parse_ansi_node_btree_page(b: &[u8], off: usize) -> (r: NdbResult<AnsiNodeBTreePage>)
    ensures
        (r matches Ok(p) && spec_parse_ansi_node_btree_page(b@, off as int) matches Ok(m)
            && p@ == m) || (r matches Err(e) && spec_parse_ansi_node_btree_page(b@, off as int)
            == NdbResult::<AnsiNodeBTreePageModel>::Err(e)),
    {
    let n: usize = b.len();
    let (count, level, trailer) = match parse_ansi_btree_frame(b, off, 16) {
        Ok(f) => f,
        Err(e) => {
            return Err(e);
        },
    };
    if level == 0 {
        let mut entries: Vec<AnsiNodeBTreeEntry> = Vec::new();
        let mut k: usize = 0;
        while k < count
            invariant
                k <= count,
                off + PAGE_SIZE <= b@.len(),
                count * 16 <= 496,
                entries@ =~= spec_ansi_node_leaf_entries(b@, off as int, k as int),
            decreases count - k,
        {
            let bn: usize = b.len();
            entries.push(parse_ansi_node_btree_entry(b, off + 16 * k));
            k = k + 1;
            proof {
                assert(entries@ =~= spec_ansi_node_leaf_entries(b@, off as int, k as int));
            }
        }
        proof {
            assert(entries@ =~= spec_ansi_node_leaf_entries(b@, off as int, count as int));
        }
        Ok(AnsiNodeBTreePage::Leaf(AnsiNodeBTreeLeafPage { entries, trailer }))
    } else {
        let mut entries: Vec<AnsiBTreePageEntry> = Vec::new();
        let mut k: usize = 0;
        while k < count
            invariant
                k <= count,
                off + PAGE_SIZE <= b@.len(),
                count * 12 <= 496,
                entries@ =~= spec_ansi_intermediate_entries(b@, off as int, k as int),
            decreases count - k,
        {
            let bn: usize = b.len();
            entries.push(parse_ansi_btree_page_entry(b, off + 12 * k));
            k = k + 1;
            proof {
                assert(entries@ =~= spec_ansi_intermediate_entries(b@, off as int, k as int));
            }
        }
        proof {
            assert(entries@ =~= spec_ansi_intermediate_entries(b@, off as int, count as int));
        }
        Ok(AnsiNodeBTreePage::Intermediate(AnsiBTreeIntermediatePage { level, entries, trailer }))
    }
}

/// The block B-tree page in the 512 bytes at `off`, 32-bit width.
pub open spec fn spec_parse_ansi_block_btree_page(s: Seq<u8>, off: int) -> NdbResult<
    AnsiBlockBTreePageModel,
> {
    match spec_parse_ansi_btree_frame(s, off, 12) {
        Err(e) => Err(e),
        Ok(f) => if f.1 == 0 {
            Ok(
                AnsiBlockBTreePageModel::Leaf(
                    (AnsiBlockBTreeLeafPageModel {
                        entries: spec_ansi_block_leaf_entries(s, off, f.0),
                        trailer: f.2,
                    }),
                ),
            )
        } else {
            Ok(
                AnsiBlockBTreePageModel::Intermediate(
                    (AnsiBTreeIntermediatePageModel {
                        level: f.1,
                        entries: spec_ansi_intermediate_entries(s, off, f.0),
                        trailer: f.2,
                    }),
                ),
            )
        },
    }
}

pub fn parse_ansi_block_btree_page(b: &[u8], off: usize) -> (r: NdbResult<AnsiBlockBTreePage>)
    ensures
        (r matches Ok(p) && spec_parse_ansi_block_btree_page(b@, off as int) matches Ok(m)
            && p@ == m) || (r matches Err(e) && spec_parse_ansi_block_btree_page(b@, off as int)
            == NdbResult::<AnsiBlockBTreePageModel>::Err(e)),
    {
    let n: usize = b.len();
    let (count, level, trailer) = match parse_ansi_btree_frame(b, off, 12) {
        Ok(f) => f,
        Err(e) => {
            return Err(e);
        },
    };
    if level == 0 {
        let mut entries: Vec<AnsiBlockBTreeEntry> = Vec::new();
        let mut k: usize = 0;
        while k < count
            invariant
                k <= count,
                off + PAGE_SIZE <= b@.len(),
                count * 12 <= 496,
                entries@ =~= spec_ansi_block_leaf_entries(b@, off as int, k as int),
            decreases count - k,
        {
            let bn: usize = b.len();
            entries.push(parse_ansi_block_btree_entry(b, off + 12 * k));
            k = k + 1;
            proof {
                assert(entries@ =~= spec_ansi_block_leaf_entries(b@, off as int, k as int));
            }
        }
        proof {
            assert(entries@ =~= spec_ansi_block_leaf_entries(b@, off as int, count as int));
        }
        Ok(AnsiBlockBTreePage::Leaf(AnsiBlockBTreeLeafPage { entries, trailer }))
    } else {
        let mut entries: Vec<AnsiBTreePageEntry> = Vec::new();
        let mut k: usize = 0;
        while k < count
            invariant
                k <= count,
                off + PAGE_SIZE <= b@.len(),
                count * 12 <= 496,
                entries@ =~= spec_ansi_intermediate_entries(b@, off as int, k as int),
            decreases count - k,
        {
            let bn: usize = b.len();
            entries.push(parse_ansi_btree_page_entry(b, off + 12 * k));
            k = k + 1;
            proof {
                assert(entries@ =~= spec_ansi_intermediate_entries(b@, off as int, k as int));
            }
        }
        proof {
            assert(entries@ =~= spec_ansi_intermediate_entries(b@, off as int, count as int));
        }
        Ok(AnsiBlockBTreePage::Intermediate(AnsiBTreeIntermediatePage { level, entries, trailer }))
    }
}

/// The last index whose key is at most `key`, 32-bit width.
pub open spec fn spec_last_le_ansi(entries: Seq<AnsiBTreePageEntry>, key: u32) -> Option<int>
    decreases entries.len(),
{
    if entries.len() == 0 {
        None
    } else if entries.last().key <= key {
        Some(entries.len() - 1)
    } else {
        spec_last_le_ansi(entries.drop_last(), key)
    }
}

fn last_le_ansi(entries: &Vec<AnsiBTreePageEntry>, key: u32) -> (r: Option<usize>)
    ensures
        r matches Some(i) ==> spec_last_le_ansi(entries@, key) == Some(i as int) && i
            < entries@.len(),
        r is None ==> spec_last_le_ansi(entries@, key) is None,
{
    let n = entries.len();
    let mut best: Option<usize> = None;
    let mut i: usize = 0;
    while i < n
        invariant
            i <= n,
            n == entries@.len(),
            (best matches Some(j) ==> spec_last_le_ansi(entries@.subrange(0, i as int), key)
                == Some(j as int) && j < i),
            (best is None ==> spec_last_le_ansi(entries@.subrange(0, i as int), key) is None),
        decreases n - i,
    {
        proof {
            let p = entries@.subrange(0, i + 1 as int);
            assert(p.drop_last() =~= entries@.subrange(0, i as int));
            assert(p.last() == entries@[i as int]);
        }
        if entries[i].key <= key {
            best = Some(i);
        }
        i = i + 1;
    }
    proof {
        assert(entries@.subrange(0, n as int) =~= entries@);
    }
    best
}

pub open spec fn spec_ansi_intermediate_sorted(entries: Seq<AnsiBTreePageEntry>) -> bool {
    forall|i: int, j: int| 0 <= i <= j < entries.len() ==> entries[i].key <= entries[j].key
}

/// Routing correctness on a sorted page, 32-bit width.
pub proof fn lemma_ansi_route_correct(entries: Seq<AnsiBTreePageEntry>, key: u32)
    requires
        spec_ansi_intermediate_sorted(entries),
    ensures
        spec_last_le_ansi(entries, key) is None ==> forall|i: int|
            0 <= i < entries.len() ==> entries[i].key > key,
        spec_last_le_ansi(entries, key) matches Some(j) ==> (0 <= j < entries.len()
            && entries[j].key <= key && forall|i: int|
            j < i < entries.len() ==> entries[i].key > key),
    decreases entries.len(),
{
    if entries.len() > 0 && entries.last().key > key {
        assert(entries.drop_last() =~= entries.subrange(0, entries.len() - 1));
        lemma_ansi_route_correct(entries.drop_last(), key);
        assert(forall|i: int|
            0 <= i < entries.len() - 1 ==> entries.drop_last()[i] == entries[i]);
    }
}

/// The first block-leaf entry whose masked block id equals the key,
/// 32-bit width.
pub open spec fn spec_find_ansi_block_leaf(
    entries: Seq<AnsiBlockBTreeEntry>,
    key: u32,
) -> NdbResult<AnsiBlockBTreeEntry>
    decreases entries.len(),
{
    if entries.len() == 0 {
        Err(NdbError::BTreeEntryNotFound(key as u64))
    } else if entries[0].block.block.masked_spec() == key {
        Ok(entries[0])
    } else {
        spec_find_ansi_block_leaf(entries.skip(1), key)
    }
}

fn find_ansi_block_leaf(entries: &Vec<AnsiBlockBTreeEntry>, key: u32) -> (r: NdbResult<
    AnsiBlockBTreeEntry,
>)
    ensures
        r == spec_find_ansi_block_leaf(entries@, key),
{
    let n = entries.len();
    proof {
        assert(entries@.skip(0) =~= entries@);
    }
    let mut i: usize = 0;
    while i < n
        invariant
            i <= n,
            n == entries@.len(),
            spec_find_ansi_block_leaf(entries@, key) == spec_find_ansi_block_leaf(
                entries@.skip(i as int),
                key,
            ),
        decreases n - i,
    {
        proof {
            let rest = entries@.skip(i as int);
            assert(rest[0] == entries@[i as int]);
            assert(rest.skip(1) =~= entries@.skip(i + 1 as int));
        }
        let e = entries[i];
        if e.block.block.masked() == key {
            return Ok(e);
        }
        i = i + 1;
    }
    proof {
        assert(entries@.skip(n as int).len() == 0);
    }
    Err(NdbError::BTreeEntryNotFound(key as u64))
}

/// Leaf lookup is exact, 32-bit width.
pub proof fn lemma_ansi_block_leaf_find(entries: Seq<AnsiBlockBTreeEntry>, key: u32)
    ensures
        (exists|i: int| 0 <= i < entries.len() && entries[i].block.block.masked_spec() == key)
            ==> (spec_find_ansi_block_leaf(entries, key) matches Ok(e)
            && e.block.block.masked_spec() == key && entries.contains(e)),
        (forall|i: int| 0 <= i < entries.len() ==> entries[i].block.block.masked_spec() != key)
            ==> spec_find_ansi_block_leaf(entries, key) == NdbResult::<
            AnsiBlockBTreeEntry,
        >::Err(NdbError::BTreeEntryNotFound(key as u64)),
    decreases entries.len(),
{
    if entries.len() > 0 && entries[0].block.block.masked_spec() != key {
        lemma_ansi_block_leaf_find(entries.skip(1), key);
        assert(forall|i: int|
            0 <= i < entries.skip(1).len() ==> entries.skip(1)[i] == entries[i + 1]);
        if exists|i: int| 0 <= i < entries.len() && entries[i].block.block.masked_spec() == key {
            let i = choose|i: int|
                0 <= i < entries.len() && entries[i].block.block.masked_spec() == key;
            assert(entries.skip(1)[i - 1] == entries[i]);
            let e = spec_find_ansi_block_leaf(entries.skip(1), key)->Ok_0;
            assert(entries.skip(1).contains(e));
            let k = choose|k: int| 0 <= k < entries.skip(1).len() && entries.skip(1)[k] == e;
            assert(entries[k + 1] == e);
        }
    }
}

/// The first node-leaf entry whose node id equals the target, 32-bit
/// width.
pub open spec fn spec_find_ansi_node_leaf(
    entries: Seq<AnsiNodeBTreeEntry>,
    nid: u32,
) -> NdbResult<AnsiNodeBTreeEntry>
    decreases entries.len(),
{
    if entries.len() == 0 {
        Err(NdbError::BTreeEntryNotFound(nid as u64))
    } else if entries[0].node.raw_spec() == nid {
        Ok(entries[0])
    } else {
        spec_find_ansi_node_leaf(entries.skip(1), nid)
    }
}

fn find_ansi_node_leaf(entries: &Vec<AnsiNodeBTreeEntry>, nid: u32) -> (r: NdbResult<
    AnsiNodeBTreeEntry,
>)
    ensures
        r == spec_find_ansi_node_leaf(entries@, nid),
{
    let n = entries.len();
    proof {
        assert(entries@.skip(0) =~= entries@);
    }
    let mut i: usize = 0;
    while i < n
        invariant
            i <= n,
            n == entries@.len(),
            spec_find_ansi_node_leaf(entries@, nid) == spec_find_ansi_node_leaf(
                entries@.skip(i as int),
                nid,
            ),
        decreases n - i,
    {
        proof {
            let rest = entries@.skip(i as int);
            assert(rest[0] == entries@[i as int]);
            assert(rest.skip(1) =~= entries@.skip(i + 1 as int));
        }
        let e = entries[i];
        if e.node.raw() == nid {
            return Ok(e);
        }
        i = i + 1;
    }
    proof {
        assert(entries@.skip(n as int).len() == 0);
    }
    Err(NdbError::BTreeEntryNotFound(nid as u64))
}

/// Leaf lookup is exact for node leaves, 32-bit width.
pub proof fn lemma_ansi_node_leaf_find(entries: Seq<AnsiNodeBTreeEntry>, nid: u32)
    ensures
        (exists|i: int| 0 <= i < entries.len() && entries[i].node.raw_spec() == nid)
            ==> (spec_find_ansi_node_leaf(entries, nid) matches Ok(e) && e.node.raw_spec() == nid
            && entries.contains(e)),
        (forall|i: int| 0 <= i < entries.len() ==> entries[i].node.raw_spec() != nid)
            ==> spec_find_ansi_node_leaf(entries, nid) == NdbResult::<
            AnsiNodeBTreeEntry,
        >::Err(NdbError::BTreeEntryNotFound(nid as u64)),
    decreases entries.len(),
{
    if entries.len() > 0 && entries[0].node.raw_spec() != nid {
        lemma_ansi_node_leaf_find(entries.skip(1), nid);
        assert(forall|i: int|
            0 <= i < entries.skip(1).len() ==> entries.skip(1)[i] == entries[i + 1]);
        if exists|i: int| 0 <= i < entries.len() && entries[i].node.raw_spec() == nid {
            let i = choose|i: int| 0 <= i < entries.len() && entries[i].node.raw_spec() == nid;
            assert(entries.skip(1)[i - 1] == entries[i]);
            let e = spec_find_ansi_node_leaf(entries.skip(1), nid)->Ok_0;
            assert(entries.skip(1).contains(e));
            let k = choose|k: int| 0 <= k < entries.skip(1).len() && entries.skip(1)[k] == e;
            assert(entries[k + 1] == e);
        }
    }
}

fn parse_ansi_block_btree_page_at(b: &[u8], off: u32) -> (r: NdbResult<AnsiBlockBTreePage>)
    ensures
        (r matches Ok(p) && spec_parse_ansi_block_btree_page(b@, off as int) matches Ok(m)
            && p@ == m) || (r matches Err(e) && spec_parse_ansi_block_btree_page(b@, off as int)
            == NdbResult::<AnsiBlockBTreePageModel>::Err(e)),
    {
    let n: usize = b.len();
    if off as u64 > n as u64 || (PAGE_SIZE as u64) > n as u64 - off as u64 {
        return Err(NdbError::PageOutOfBounds(off as u64));
    }
    parse_ansi_block_btree_page(b, off as usize)
}

fn parse_ansi_node_btree_page_at(b: &[u8], off: u32) -> (r: NdbResult<AnsiNodeBTreePage>)
    ensures
        (r matches Ok(p) && spec_parse_ansi_node_btree_page(b@, off as int) matches Ok(m)
            && p@ == m) || (r matches Err(e) && spec_parse_ansi_node_btree_page(b@, off as int)
            == NdbResult::<AnsiNodeBTreePageModel>::Err(e)),
    {
    let n: usize = b.len();
    if off as u64 > n as u64 || (PAGE_SIZE as u64) > n as u64 - off as u64 {
        return Err(NdbError::PageOutOfBounds(off as u64));
    }
    parse_ansi_node_btree_page(b, off as usize)
}

/// The block B-tree of a file, 32-bit width.
#[derive(Clone, Copy, Debug, PartialEq, Eq, Structural)]
pub struct AnsiBlockBTree {
    pub root: AnsiBlockRef,
}

pub open spec fn spec_find_ansi_block_btree_from(
    s: Seq<u8>,
    bref: AnsiBlockRef,
    key: u32,
    bound: u8,
) -> NdbResult<AnsiBlockBTreeEntry>
    decreases bound,
{
    match spec_parse_ansi_block_btree_page(s, bref.index as int) {
        Err(e) => Err(e),
        Ok(m) => match m {
            AnsiBlockBTreePageModel::Leaf(lp) => spec_find_ansi_block_leaf(lp.entries, key),
            AnsiBlockBTreePageModel::Intermediate(ip) => if ip.level >= bound {
                Err(NdbError::InvalidBTreePageLevel(ip.level))
            } else {
                match spec_last_le_ansi(ip.entries, key) {
                    None => Err(NdbError::BTreeEntryNotFound(key as u64)),
                    Some(j) => spec_find_ansi_block_btree_from(s, ip.entries[j].block, key, ip.level),
                }
            },
        },
    }
}

fn find_ansi_block_btree_from(b: &[u8], bref: AnsiBlockRef, key: u32, bound: u8) -> (r: NdbResult<
    AnsiBlockBTreeEntry,
>)
    ensures
        r == spec_find_ansi_block_btree_from(b@, bref, key, bound),
    decreases bound,
{
    let page = match parse_ansi_block_btree_page_at(b, bref.index) {
        Ok(p) => p,
        Err(e) => {
            return Err(e);
        },
    };
    match page {
        AnsiBlockBTreePage::Leaf(lp) => find_ansi_block_leaf(&lp.entries, key),
        AnsiBlockBTreePage::Intermediate(ip) => {
            if ip.level >= bound {
                return Err(NdbError::InvalidBTreePageLevel(ip.level));
            }
            match last_le_ansi(&ip.entries, key) {
                None => Err(NdbError::BTreeEntryNotFound(key as u64)),
                Some(j) => find_ansi_block_btree_from(b, ip.entries[j].block, key, ip.level),
            }
        },
    }
}

impl AnsiBlockBTree {
    pub open spec fn spec_find(s: Seq<u8>, root: AnsiBlockRef, key: u32) -> NdbResult<
        AnsiBlockBTreeEntry,
    > {
        spec_find_ansi_block_btree_from(s, root, key, 9)
    }

    /// Opens the tree at `root`, checking that the root page parses.
    pub fn read(b: &[u8], root: AnsiBlockRef) -> (r: NdbResult<Self>)
        ensures
            (r matches Ok(t) && t.root == root && spec_parse_ansi_block_btree_page(
                b@,
                root.index as int,
            ) is Ok) || (r matches Err(e) && spec_parse_ansi_block_btree_page(
                b@,
                root.index as int,
            ) == NdbResult::<AnsiBlockBTreePageModel>::Err(e)),
        {
        match parse_ansi_block_btree_page_at(b, root.index) {
            Ok(_) => Ok(AnsiBlockBTree { root }),
            Err(e) => Err(e),
        }
    }

    /// Looks up the block-B-tree entry whose masked block id equals `key`.
    pub fn find_entry(&self, b: &[u8], key: u32) -> (r: NdbResult<AnsiBlockBTreeEntry>)
        ensures
            r == Self::spec_find(b@, self.root, key),
    {
        find_ansi_block_btree_from(b, self.root, key, 9)
    }
}

/// The node B-tree of a file, 32-bit width.
#[derive(Clone, Copy, Debug, PartialEq, Eq, Structural)]
pub struct AnsiNodeBTree {
    pub root: AnsiBlockRef,
}

pub open spec fn spec_find_ansi_node_btree_from(
    s: Seq<u8>,
    bref: AnsiBlockRef,
    nid: u32,
    bound: u8,
) -> NdbResult<AnsiNodeBTreeEntry>
    decreases bound,
{
    match spec_parse_ansi_node_btree_page(s, bref.index as int) {
        Err(e) => Err(e),
        Ok(m) => match m {
            AnsiNodeBTreePageModel::Leaf(lp) => spec_find_ansi_node_leaf(lp.entries, nid),
            AnsiNodeBTreePageModel::Intermediate(ip) => if ip.level >= bound {
                Err(NdbError::InvalidBTreePageLevel(ip.level))
            } else {
                match spec_last_le_ansi(ip.entries, nid) {
                    None => Err(NdbError::BTreeEntryNotFound(nid as u64)),
                    Some(j) => spec_find_ansi_node_btree_from(s, ip.entries[j].block, nid, ip.level),
                }
            },
        },
    }
}

fn find_ansi_node_btree_from(b: &[u8], bref: AnsiBlockRef, nid: u32, bound: u8) -> (r: NdbResult<
    AnsiNodeBTreeEntry,
>)
    ensures
        r == spec_find_ansi_node_btree_from(b@, bref, nid, bound),
    decreases bound,
{
    let page = match parse_ansi_node_btree_page_at(b, bref.index) {
        Ok(p) => p,
        Err(e) => {
            return Err(e);
        },
    };
    match page {
        AnsiNodeBTreePage::Leaf(lp) => find_ansi_node_leaf(&lp.entries, nid),
        AnsiNodeBTreePage::Intermediate(ip) => {
            if ip.level >= bound {
                return Err(NdbError::InvalidBTreePageLevel(ip.level));
            }
            match last_le_ansi(&ip.entries, nid) {
                None => Err(NdbError::BTreeEntryNotFound(nid as u64)),
                Some(j) => find_ansi_node_btree_from(b, ip.entries[j].block, nid, ip.level),
            }
        },
    }
}

impl AnsiNodeBTree {
    pub open spec fn spec_find(s: Seq<u8>, root: AnsiBlockRef, nid: u32) -> NdbResult<
        AnsiNodeBTreeEntry,
    > {
        spec_find_ansi_node_btree_from(s, root, nid, 9)
    }

    /// Opens the tree at `root`, checking that the root page parses.
    pub fn read(b: &[u8], root: AnsiBlockRef) -> (r: NdbResult<Self>)
        ensures
            (r matches Ok(t) && t.root == root && spec_parse_ansi_node_btree_page(
                b@,
                root.index as int,
            ) is Ok) || (r matches Err(e) && spec_parse_ansi_node_btree_page(
                b@,
                root.index as int,
            ) == NdbResult::<AnsiNodeBTreePageModel>::Err(e)),
        {
        match parse_ansi_node_btree_page_at(b, root.index) {
            Ok(_) => Ok(AnsiNodeBTree { root }),
            Err(e) => Err(e),
        }
    }

    /// Looks up the node-B-tree entry for `node`.
    pub fn find_entry(&self, b: &[u8], node: NodeId) -> (r: NdbResult<AnsiNodeBTreeEntry>)
        ensures
            r == Self::spec_find(b@, self.root, node.raw_spec()),
    {
        find_ansi_node_btree_from(b, self.root, node.raw(), 9)
    }
}

/// The offsets (from each page's own trailer block id, mutation bit
/// masked) of every page of a B-tree, in preorder: the page itself, then
/// each child's pages in entry order. `les` is the leaf entry size of the
/// tree being walked.
pub open spec fn spec_walk_unicode_btree(s: Seq<u8>, bref: UnicodeBlockRef, bound: u8, les: int) -> NdbResult<Seq<u64>>
    decreases bound, 0int,
{
    match spec_parse_unicode_btree_frame(s, bref.index as int, les) {
        Err(e) => Err(e),
        Ok(f) => if f.1 == 0 {
            Ok(seq![f.2.block_id.masked_spec()])
        } else if f.1 >= bound {
            Err(NdbError::InvalidBTreePageLevel(f.1))
        } else {
            match spec_walk_unicode_btree_children(
                s,
                spec_unicode_intermediate_entries(s, bref.index as int, f.0),
                0,
                f.1,
                les,
            ) {
                Err(e) => Err(e),
                Ok(ws) => Ok(seq![f.2.block_id.masked_spec()] + ws),
            }
        },
    }
}

/// The pages reachable through `entries[i..]`, concatenated in order.
pub open spec fn spec_walk_unicode_btree_children(
    s: Seq<u8>,
    entries: Seq<UnicodeBTreePageEntry>,
    i: int,
    bound: u8,
    les: int,
) -> NdbResult<Seq<u64>>
    decreases bound, entries.len() - i + 1,
{
    if i < 0 || i >= entries.len() {
        Ok(Seq::empty())
    } else {
        match spec_walk_unicode_btree(s, entries[i].block, bound, les) {
            Err(e) => Err(e),
            Ok(w) => match spec_walk_unicode_btree_children(s, entries, i + 1, bound, les) {
                Err(e) => Err(e),
                Ok(rest) => Ok(w + rest),
            },
        }
    }
}

/// Collects the walk into `out`; on an error nothing is promised of what
/// was already appended, and the caller discards it.
pub fn walk_unicode_btree(b: &[u8], bref: UnicodeBlockRef, bound: u8, les: usize, out: &mut Vec<
    u64,
>) -> (r: NdbResult<()>)
    requires
        les == 32 || les == 24,
    ensures
        r matches Ok(_) ==> (spec_walk_unicode_btree(b@, bref, bound, les as int) matches Ok(ws)
            && final(out)@ == old(out)@ + ws),
        r matches Err(e) ==> spec_walk_unicode_btree(b@, bref, bound, les as int) == NdbResult::<
        Seq<u64>,
        >::Err(e),
    decreases bound, 0int,
{
    let n: usize = b.len();
    if bref.index > n as u64 || (PAGE_SIZE as u64) > n as u64 - bref.index {
        return Err(NdbError::PageOutOfBounds(bref.index));
    }
    let off = bref.index as usize;
    let (count, level, trailer) = match parse_unicode_btree_frame(b, off, les) {
        Ok(f) => f,
        Err(e) => {
            return Err(e);
        },
    };
    if level == 0 {
        out.push(trailer.block_id.masked());
        proof {
            assert(out@ =~= old(out)@ + seq![trailer.block_id.masked_spec()]);
        }
        return Ok(());
    }
    if level >= bound {
        return Err(NdbError::InvalidBTreePageLevel(level));
    }
    out.push(trailer.block_id.masked());
    let ghost es = spec_unicode_intermediate_entries(b@, off as int, count as int);
    let ghost own = seq![trailer.block_id.masked_spec()];
    let ghost done0: Seq<u64> = Seq::empty();
    let mut k: usize = 0;
    let ghost mut done: Seq<u64> = done0;
    while k < count
        invariant
            k <= count,
            count * 24 <= 488,
            off + PAGE_SIZE <= b@.len(),
            off == bref.index,
            1 <= level < bound,
            les == 32 || les == 24,
            spec_parse_unicode_btree_frame(b@, off as int, les as int) matches Ok(g) && g.0
                == count as int && g.1 == level && g.2 == trailer,
            es == spec_unicode_intermediate_entries(b@, off as int, count as int),
            out@ == old(out)@ + own + done,
            spec_walk_unicode_btree_children(b@, es, 0, level, les as int) == (
            match spec_walk_unicode_btree_children(b@, es, k as int, level, les as int) {
                Err(e) => NdbResult::<Seq<u64>>::Err(e),
                Ok(rest) => NdbResult::<Seq<u64>>::Ok(done + rest),
            }),
        decreases bound, count - k + 1,
    {
        let bn: usize = b.len();
        let entry = parse_unicode_btree_page_entry(b, off + 24 * k);
        proof {
            assert(es[k as int] == entry);
        }
        match walk_unicode_btree(b, entry.block, level, les, out) {
            Ok(_) => {},
            Err(e) => {
                proof {
                    assert(spec_walk_unicode_btree_children(b@, es, k as int, level, les as int)
                        == NdbResult::<Seq<u64>>::Err(e));
                }
                return Err(e);
            },
        }
        proof {
            let w = spec_walk_unicode_btree(b@, entry.block, level, les as int)->Ok_0;
            done = done + w;
            assert(out@ =~= old(out)@ + own + done);
            assert(forall|x: Seq<u64>, y: Seq<u64>, z: Seq<u64>| #[trigger] ((x + y) + z)
                =~= x + (y + z));
        }
        k = k + 1;
    }
    proof {
        assert(spec_walk_unicode_btree_children(b@, es, count as int, level, les as int)
            == NdbResult::<Seq<u64>>::Ok(Seq::<u64>::empty()));
        assert(done + Seq::<u64>::empty() =~= done);
        assert(own + done =~= seq![trailer.block_id.masked_spec()] + done);
    }
    Ok(())
}

/// The walk for a 32-bit-width tree.
pub open spec fn spec_walk_ansi_btree(s: Seq<u8>, bref: AnsiBlockRef, bound: u8, les: int) -> NdbResult<Seq<u64>>
    decreases bound, 0int,
{
    match spec_parse_ansi_btree_frame(s, bref.index as int, les) {
        Err(e) => Err(e),
        Ok(f) => if f.1 == 0 {
            Ok(seq![f.2.block_id.masked_spec() as u64])
        } else if f.1 >= bound {
            Err(NdbError::InvalidBTreePageLevel(f.1))
        } else {
            match spec_walk_ansi_btree_children(
                s,
                spec_ansi_intermediate_entries(s, bref.index as int, f.0),
                0,
                f.1,
                les,
            ) {
                Err(e) => Err(e),
                Ok(ws) => Ok(seq![f.2.block_id.masked_spec() as u64] + ws),
            }
        },
    }
}

pub open spec fn spec_walk_ansi_btree_children(
    s: Seq<u8>,
    entries: Seq<AnsiBTreePageEntry>,
    i: int,
    bound: u8,
    les: int,
) -> NdbResult<Seq<u64>>
    decreases bound, entries.len() - i + 1,
{
    if i < 0 || i >= entries.len() {
        Ok(Seq::empty())
    } else {
        match spec_walk_ansi_btree(s, entries[i].block, bound, les) {
            Err(e) => Err(e),
            Ok(w) => match spec_walk_ansi_btree_children(s, entries, i + 1, bound, les) {
                Err(e) => Err(e),
                Ok(rest) => Ok(w + rest),
            },
        }
    }
}

/// Collects the walk into `out`, 32-bit width.
pub fn walk_ansi_btree(b: &[u8], bref: AnsiBlockRef, bound: u8, les: usize, out: &mut Vec<
    u64,
>) -> (r: NdbResult<()>)
    requires
        les == 16 || les == 12,
    ensures
        r matches Ok(_) ==> (spec_walk_ansi_btree(b@, bref, bound, les as int) matches Ok(ws)
            && final(out)@ == old(out)@ + ws),
        r matches Err(e) ==> spec_walk_ansi_btree(b@, bref, bound, les as int) == NdbResult::<
        Seq<u64>,
        >::Err(e),
    decreases bound, 0int,
{
    let n: usize = b.len();
    if bref.index as u64 > n as u64 || (PAGE_SIZE as u64) > n as u64 - bref.index as u64 {
        return Err(NdbError::PageOutOfBounds(bref.index as u64));
    }
    let off = bref.index as usize;
    let (count, level, trailer) = match parse_ansi_btree_frame(b, off, les) {
        Ok(f) => f,
        Err(e) => {
            return Err(e);
        },
    };
    if level == 0 {
        out.push(trailer.block_id.masked() as u64);
        proof {
            assert(out@ =~= old(out)@ + seq![trailer.block_id.masked_spec() as u64]);
        }
        return Ok(());
    }
    if level >= bound {
        return Err(NdbError::InvalidBTreePageLevel(level));
    }
    out.push(trailer.block_id.masked() as u64);
    let ghost es = spec_ansi_intermediate_entries(b@, off as int, count as int);
    let ghost own = seq![trailer.block_id.masked_spec() as u64];
    let ghost done0: Seq<u64> = Seq::empty();
    let mut k: usize = 0;
    let ghost mut done: Seq<u64> = done0;
    while k < count
        invariant
            k <= count,
            count * 12 <= 496,
            off + PAGE_SIZE <= b@.len(),
            off == bref.index,
            1 <= level < bound,
            les == 16 || les == 12,
            spec_parse_ansi_btree_frame(b@, off as int, les as int) matches Ok(g) && g.0
                == count as int && g.1 == level && g.2 == trailer,
            es == spec_ansi_intermediate_entries(b@, off as int, count as int),
            out@ == old(out)@ + own + done,
            spec_walk_ansi_btree_children(b@, es, 0, level, les as int) == (
            match spec_walk_ansi_btree_children(b@, es, k as int, level, les as int) {
                Err(e) => NdbResult::<Seq<u64>>::Err(e),
                Ok(rest) => NdbResult::<Seq<u64>>::Ok(done + rest),
            }),
        decreases bound, count - k + 1,
    {
        let bn: usize = b.len();
        let entry = parse_ansi_btree_page_entry(b, off + 12 * k);
        proof {
            assert(es[k as int] == entry);
        }
        match walk_ansi_btree(b, entry.block, level, les, out) {
            Ok(_) => {},
            Err(e) => {
                proof {
                    assert(spec_walk_ansi_btree_children(b@, es, k as int, level, les as int)
                        == NdbResult::<Seq<u64>>::Err(e));
                }
                return Err(e);
            },
        }
        proof {
            let w = spec_walk_ansi_btree(b@, entry.block, level, les as int)->Ok_0;
            done = done + w;
            assert(out@ =~= old(out)@ + own + done);
            assert(forall|x: Seq<u64>, y: Seq<u64>, z: Seq<u64>| #[trigger] ((x + y) + z)
                =~= x + (y + z));
        }
        k = k + 1;
    }
    proof {
        assert(spec_walk_ansi_btree_children(b@, es, count as int, level, les as int)
            == NdbResult::<Seq<u64>>::Ok(Seq::<u64>::empty()));
        assert(done + Seq::<u64>::empty() =~= done);
        assert(own + done =~= seq![trailer.block_id.masked_spec() as u64] + done);
    }
    Ok(())
}


/// The 32 bytes of a node-leaf entry, in on-disk order: the node id
/// widened to eight bytes, the data and sub-node block ids (none writes
/// zero), the parent id, and zero padding.
pub open spec fn spec_unicode_node_btree_entry_bytes(e: UnicodeNodeBTreeEntry) -> Seq<u8> {
    spec_u64_bytes(e.node.raw_spec() as u64) + spec_u64_bytes(e.data.raw_spec()) + spec_u64_bytes(
        match e.sub_node {
            Some(b) => b.raw_spec(),
            None => 0u64,
        },
    ) + spec_u32_bytes(e.parent.raw_spec()) + spec_u32_bytes(0)
}

pub fn serialize_unicode_node_btree_entry(e: &UnicodeNodeBTreeEntry, out: &mut Vec<u8>)
    ensures
        final(out)@ == old(out)@ + spec_unicode_node_btree_entry_bytes(*e),
{
    write_u64(out, e.node.raw() as u64);
    write_u64(out, e.data.to_raw());
    let sv: u64 = match e.sub_node {
        Some(b) => b.to_raw(),
        None => 0,
    };
    write_u64(out, sv);
    write_u32(out, e.parent.raw());
    write_u32(out, 0);
    proof {
        assert(out@ =~= old(out)@ + spec_unicode_node_btree_entry_bytes(*e));
    }
}

/// The 24 bytes of a block-leaf entry.
pub open spec fn spec_unicode_block_btree_entry_bytes(e: UnicodeBlockBTreeEntry) -> Seq<u8> {
    crate::block_ref::spec_unicode_block_ref_bytes(e.block) + spec_u16_bytes(e.size)
        + spec_u16_bytes(e.ref_count) + spec_u32_bytes(0)
}

pub fn serialize_unicode_block_btree_entry(e: &UnicodeBlockBTreeEntry, out: &mut Vec<u8>)
    ensures
        final(out)@ == old(out)@ + spec_unicode_block_btree_entry_bytes(*e),
{
    crate::block_ref::serialize_unicode_block_ref(&e.block, out);
    write_u16(out, e.size);
    write_u16(out, e.ref_count);
    write_u32(out, 0);
    proof {
        assert(out@ =~= old(out)@ + spec_unicode_block_btree_entry_bytes(*e));
    }
}

/// The 24 bytes of an intermediate entry.
pub open spec fn spec_unicode_btree_page_entry_bytes(e: UnicodeBTreePageEntry) -> Seq<u8> {
    spec_u64_bytes(e.key) + crate::block_ref::spec_unicode_block_ref_bytes(e.block)
}

pub fn serialize_unicode_btree_page_entry(e: &UnicodeBTreePageEntry, out: &mut Vec<u8>)
    ensures
        final(out)@ == old(out)@ + spec_unicode_btree_page_entry_bytes(*e),
{
    write_u64(out, e.key);
    crate::block_ref::serialize_unicode_block_ref(&e.block, out);
    proof {
        assert(out@ =~= old(out)@ + spec_unicode_btree_page_entry_bytes(*e));
    }
}

pub open spec fn spec_unicode_node_entries_bytes(es: Seq<UnicodeNodeBTreeEntry>) -> Seq<u8>
    decreases es.len(),
{
    if es.len() == 0 {
        Seq::empty()
    } else {
        spec_unicode_node_entries_bytes(es.drop_last()) + spec_unicode_node_btree_entry_bytes(
            es.last(),
        )
    }
}

pub open spec fn spec_unicode_block_entries_bytes(es: Seq<UnicodeBlockBTreeEntry>) -> Seq<u8>
    decreases es.len(),
{
    if es.len() == 0 {
        Seq::empty()
    } else {
        spec_unicode_block_entries_bytes(es.drop_last()) + spec_unicode_block_btree_entry_bytes(
            es.last(),
        )
    }
}

pub open spec fn spec_unicode_intermediate_entries_bytes(es: Seq<UnicodeBTreePageEntry>) -> Seq<u8>
    decreases es.len(),
{
    if es.len() == 0 {
        Seq::empty()
    } else {
        spec_unicode_intermediate_entries_bytes(
            es.drop_last(),
        ) + spec_unicode_btree_page_entry_bytes(es.last())
    }
}

/// The 512-byte image of a B-tree page, 64-bit width: the entries, zero
/// fill up to 488 bytes, the count/max/size/level tail with zero padding,
/// and the trailer restamped with the CRC of the 496 bytes before it.
pub open spec fn spec_unicode_node_btree_page_bytes(m: UnicodeNodeBTreePageModel) -> Seq<u8> {
    let covered = match m {
        UnicodeNodeBTreePageModel::Leaf(lp) => spec_unicode_node_entries_bytes(lp.entries)
            + crate::bytes::zero_bytes(488 - 32 * lp.entries.len()) + seq![
            lp.entries.len() as u8,
            15u8,
            32u8,
            0u8,
        ] + spec_u32_bytes(0),
        UnicodeNodeBTreePageModel::Intermediate(ip) => spec_unicode_intermediate_entries_bytes(
            ip.entries,
        ) + crate::bytes::zero_bytes(488 - 24 * ip.entries.len()) + seq![
            ip.entries.len() as u8,
            20u8,
            24u8,
            ip.level,
        ] + spec_u32_bytes(0),
    };
    let t = match m {
        UnicodeNodeBTreePageModel::Leaf(lp) => lp.trailer,
        UnicodeNodeBTreePageModel::Intermediate(ip) => ip.trailer,
    };
    covered + crate::page::spec_unicode_page_trailer_bytes(
        (UnicodePageTrailer {
            page_type: t.page_type,
            signature: t.signature,
            crc: spec_crc(0, covered),
            block_id: t.block_id,
        }),
    )
}

fn serialize_unicode_node_leaf_entries(es: &Vec<UnicodeNodeBTreeEntry>, out: &mut Vec<u8>)
    ensures
        final(out)@ == old(out)@ + spec_unicode_node_entries_bytes(es@),
{
    let n = es.len();
    let mut k: usize = 0;
    while k < n
        invariant
            k <= n,
            n == es@.len(),
            out@ == old(out)@ + spec_unicode_node_entries_bytes(es@.subrange(0, k as int)),
        decreases n - k,
    {
        serialize_unicode_node_btree_entry(&es[k], out);
        k = k + 1;
        proof {
            let p = es@.subrange(0, k as int);
            assert(p.drop_last() =~= es@.subrange(0, k - 1 as int));
            assert(p.last() == es@[k - 1 as int]);
        }
    }
    proof {
        assert(es@.subrange(0, n as int) =~= es@);
    }
}

fn serialize_unicode_block_leaf_entries(es: &Vec<UnicodeBlockBTreeEntry>, out: &mut Vec<u8>)
    ensures
        final(out)@ == old(out)@ + spec_unicode_block_entries_bytes(es@),
{
    let n = es.len();
    let mut k: usize = 0;
    while k < n
        invariant
            k <= n,
            n == es@.len(),
            out@ == old(out)@ + spec_unicode_block_entries_bytes(es@.subrange(0, k as int)),
        decreases n - k,
    {
        serialize_unicode_block_btree_entry(&es[k], out);
        k = k + 1;
        proof {
            let p = es@.subrange(0, k as int);
            assert(p.drop_last() =~= es@.subrange(0, k - 1 as int));
            assert(p.last() == es@[k - 1 as int]);
        }
    }
    proof {
        assert(es@.subrange(0, n as int) =~= es@);
    }
}

fn serialize_unicode_intermediate_page_entries(es: &Vec<UnicodeBTreePageEntry>, out: &mut Vec<u8>)
    ensures
        final(out)@ == old(out)@ + spec_unicode_intermediate_entries_bytes(es@),
{
    let n = es.len();
    let mut k: usize = 0;
    while k < n
        invariant
            k <= n,
            n == es@.len(),
            out@ == old(out)@ + spec_unicode_intermediate_entries_bytes(es@.subrange(0, k as int)),
        decreases n - k,
    {
        serialize_unicode_btree_page_entry(&es[k], out);
        k = k + 1;
        proof {
            let p = es@.subrange(0, k as int);
            assert(p.drop_last() =~= es@.subrange(0, k - 1 as int));
            assert(p.last() == es@[k - 1 as int]);
        }
    }
    proof {
        assert(es@.subrange(0, n as int) =~= es@);
    }
}

proof fn lemma_unicode_node_entries_bytes_len(es: Seq<UnicodeNodeBTreeEntry>)
    ensures
        spec_unicode_node_entries_bytes(es).len() == 32 * es.len(),
    decreases es.len(),
{
    if es.len() > 0 {
        lemma_unicode_node_entries_bytes_len(es.drop_last());
    }
}

proof fn lemma_unicode_block_entries_bytes_len(es: Seq<UnicodeBlockBTreeEntry>)
    ensures
        spec_unicode_block_entries_bytes(es).len() == 24 * es.len(),
    decreases es.len(),
{
    if es.len() > 0 {
        lemma_unicode_block_entries_bytes_len(es.drop_last());
    }
}

proof fn lemma_unicode_intermediate_entries_bytes_len(es: Seq<UnicodeBTreePageEntry>)
    ensures
        spec_unicode_intermediate_entries_bytes(es).len() == 24 * es.len(),
    decreases es.len(),
{
    if es.len() > 0 {
        lemma_unicode_intermediate_entries_bytes_len(es.drop_last());
    }
}

/// Appends the 512-byte image of a node B-tree page; unused entry slots
/// are zero-filled and the trailer CRC is recomputed.
pub fn serialize_unicode_node_btree_page(p: &UnicodeNodeBTreePage, out: &mut Vec<u8>)
    requires
        (p@ matches UnicodeNodeBTreePageModel::Leaf(lp) ==> lp.entries.len() <= 15),
        (p@ matches UnicodeNodeBTreePageModel::Intermediate(ip) ==> ip.entries.len() <= 20),
    ensures
        final(out)@ == old(out)@ + spec_unicode_node_btree_page_bytes(p@),
        (final(out)@).len() == old(out)@.len() + PAGE_SIZE,
{
    match p {
        UnicodeNodeBTreePage::Leaf(lp) => {
            let mut body: Vec<u8> = Vec::new();
            serialize_unicode_node_leaf_entries(&lp.entries, &mut body);
            proof {
                lemma_unicode_node_entries_bytes_len(lp.entries@);
            }
            crate::bytes::write_zeros(&mut body, 488 - 32 * lp.entries.len());
            crate::bytes::write_u8(&mut body, lp.entries.len() as u8);
            crate::bytes::write_u8(&mut body, 15);
            crate::bytes::write_u8(&mut body, 32);
            crate::bytes::write_u8(&mut body, 0);
            write_u32(&mut body, 0);
            proof {
                assert(body@ =~= spec_unicode_node_entries_bytes(lp.entries@)
                    + crate::bytes::zero_bytes(488 - 32 * lp.entries@.len()) + seq![
                    (lp.entries@.len() as u8),
                    15u8,
                    32u8,
                    0u8,
                ] + spec_u32_bytes(0));
            }
            let ghost cov = body@;
            let c = compute_crc(0, body.as_slice());
            let t = UnicodePageTrailer {
                page_type: lp.trailer.page_type,
                signature: lp.trailer.signature,
                crc: c,
                block_id: lp.trailer.block_id,
            };
            out.append(&mut body);
            crate::page::serialize_unicode_page_trailer(&t, out);
            proof {
                assert(p@ == UnicodeNodeBTreePageModel::Leaf(lp@));
                assert(spec_unicode_node_btree_page_bytes(p@) == cov
                    + crate::page::spec_unicode_page_trailer_bytes(t));
                assert(out@ =~= old(out)@ + spec_unicode_node_btree_page_bytes(p@));
            }
        },
        UnicodeNodeBTreePage::Intermediate(ip) => {
            let mut body: Vec<u8> = Vec::new();
            serialize_unicode_intermediate_page_entries(&ip.entries, &mut body);
            proof {
                lemma_unicode_intermediate_entries_bytes_len(ip.entries@);
            }
            crate::bytes::write_zeros(&mut body, 488 - 24 * ip.entries.len());
            crate::bytes::write_u8(&mut body, ip.entries.len() as u8);
            crate::bytes::write_u8(&mut body, 20);
            crate::bytes::write_u8(&mut body, 24);
            crate::bytes::write_u8(&mut body, ip.level);
            write_u32(&mut body, 0);
            proof {
                assert(body@ =~= spec_unicode_intermediate_entries_bytes(ip.entries@)
                    + crate::bytes::zero_bytes(488 - 24 * ip.entries@.len()) + seq![
                    (ip.entries@.len() as u8),
                    20u8,
                    24u8,
                    ip.level,
                ] + spec_u32_bytes(0));
            }
            let ghost cov = body@;
            let c = compute_crc(0, body.as_slice());
            let t = UnicodePageTrailer {
                page_type: ip.trailer.page_type,
                signature: ip.trailer.signature,
                crc: c,
                block_id: ip.trailer.block_id,
            };
            out.append(&mut body);
            crate::page::serialize_unicode_page_trailer(&t, out);
            proof {
                assert(p@ == UnicodeNodeBTreePageModel::Intermediate(ip@));
                assert(spec_unicode_node_btree_page_bytes(p@) == cov
                    + crate::page::spec_unicode_page_trailer_bytes(t));
                assert(out@ =~= old(out)@ + spec_unicode_node_btree_page_bytes(p@));
            }
        },
    }
}

/// The 512-byte image of a block B-tree page, 64-bit width.
pub open spec fn spec_unicode_block_btree_page_bytes(m: UnicodeBlockBTreePageModel) -> Seq<u8> {
    let covered = match m {
        UnicodeBlockBTreePageModel::Leaf(lp) => spec_unicode_block_entries_bytes(lp.entries)
            + crate::bytes::zero_bytes(488 - 24 * lp.entries.len()) + seq![
            lp.entries.len() as u8,
            20u8,
            24u8,
            0u8,
        ] + spec_u32_bytes(0),
        UnicodeBlockBTreePageModel::Intermediate(ip) => spec_unicode_intermediate_entries_bytes(
            ip.entries,
        ) + crate::bytes::zero_bytes(488 - 24 * ip.entries.len()) + seq![
            ip.entries.len() as u8,
            20u8,
            24u8,
            ip.level,
        ] + spec_u32_bytes(0),
    };
    let t = match m {
        UnicodeBlockBTreePageModel::Leaf(lp) => lp.trailer,
        UnicodeBlockBTreePageModel::Intermediate(ip) => ip.trailer,
    };
    covered + crate::page::spec_unicode_page_trailer_bytes(
        (UnicodePageTrailer {
            page_type: t.page_type,
            signature: t.signature,
            crc: spec_crc(0, covered),
            block_id: t.block_id,
        }),
    )
}

/// Appends the 512-byte image of a block B-tree page.
pub fn serialize_unicode_block_btree_page(p: &UnicodeBlockBTreePage, out: &mut Vec<u8>)
    requires
        (p@ matches UnicodeBlockBTreePageModel::Leaf(lp) ==> lp.entries.len() <= 20),
        (p@ matches UnicodeBlockBTreePageModel::Intermediate(ip) ==> ip.entries.len() <= 20),
    ensures
        final(out)@ == old(out)@ + spec_unicode_block_btree_page_bytes(p@),
        (final(out)@).len() == old(out)@.len() + PAGE_SIZE,
{
    match p {
        UnicodeBlockBTreePage::Leaf(lp) => {
            let mut body: Vec<u8> = Vec::new();
            serialize_unicode_block_leaf_entries(&lp.entries, &mut body);
            proof {
                lemma_unicode_block_entries_bytes_len(lp.entries@);
            }
            crate::bytes::write_zeros(&mut body, 488 - 24 * lp.entries.len());
            crate::bytes::write_u8(&mut body, lp.entries.len() as u8);
            crate::bytes::write_u8(&mut body, 20);
            crate::bytes::write_u8(&mut body, 24);
            crate::bytes::write_u8(&mut body, 0);
            write_u32(&mut body, 0);
            proof {
                assert(body@ =~= spec_unicode_block_entries_bytes(lp.entries@)
                    + crate::bytes::zero_bytes(488 - 24 * lp.entries@.len()) + seq![
                    (lp.entries@.len() as u8),
                    20u8,
                    24u8,
                    0u8,
                ] + spec_u32_bytes(0));
            }
            let ghost cov = body@;
            let c = compute_crc(0, body.as_slice());
            let t = UnicodePageTrailer {
                page_type: lp.trailer.page_type,
                signature: lp.trailer.signature,
                crc: c,
                block_id: lp.trailer.block_id,
            };
            out.append(&mut body);
            crate::page::serialize_unicode_page_trailer(&t, out);
            proof {
                assert(p@ == UnicodeBlockBTreePageModel::Leaf(lp@));
                assert(spec_unicode_block_btree_page_bytes(p@) == cov
                    + crate::page::spec_unicode_page_trailer_bytes(t));
                assert(out@ =~= old(out)@ + spec_unicode_block_btree_page_bytes(p@));
            }
        },
        UnicodeBlockBTreePage::Intermediate(ip) => {
            let mut body: Vec<u8> = Vec::new();
            serialize_unicode_intermediate_page_entries(&ip.entries, &mut body);
            proof {
                lemma_unicode_intermediate_entries_bytes_len(ip.entries@);
            }
            crate::bytes::write_zeros(&mut body, 488 - 24 * ip.entries.len());
            crate::bytes::write_u8(&mut body, ip.entries.len() as u8);
            crate::bytes::write_u8(&mut body, 20);
            crate::bytes::write_u8(&mut body, 24);
            crate::bytes::write_u8(&mut body, ip.level);
            write_u32(&mut body, 0);
            proof {
                assert(body@ =~= spec_unicode_intermediate_entries_bytes(ip.entries@)
                    + crate::bytes::zero_bytes(488 - 24 * ip.entries@.len()) + seq![
                    (ip.entries@.len() as u8),
                    20u8,
                    24u8,
                    ip.level,
                ] + spec_u32_bytes(0));
            }
            let ghost cov = body@;
            let c = compute_crc(0, body.as_slice());
            let t = UnicodePageTrailer {
                page_type: ip.trailer.page_type,
                signature: ip.trailer.signature,
                crc: c,
                block_id: ip.trailer.block_id,
            };
            out.append(&mut body);
            crate::page::serialize_unicode_page_trailer(&t, out);
            proof {
                assert(p@ == UnicodeBlockBTreePageModel::Intermediate(ip@));
                assert(spec_unicode_block_btree_page_bytes(p@) == cov
                    + crate::page::spec_unicode_page_trailer_bytes(t));
                assert(out@ =~= old(out)@ + spec_unicode_block_btree_page_bytes(p@));
            }
        },
    }
}


/// The 16 bytes of a node-leaf entry, 32-bit width.
pub open spec fn spec_ansi_node_btree_entry_bytes(e: AnsiNodeBTreeEntry) -> Seq<u8> {
    spec_u32_bytes(e.node.raw_spec()) + spec_u32_bytes(e.data.raw_spec()) + spec_u32_bytes(
        match e.sub_node {
            Some(b) => b.raw_spec(),
            None => 0u32,
        },
    ) + spec_u32_bytes(e.parent.raw_spec())
}

pub fn serialize_ansi_node_btree_entry(e: &AnsiNodeBTreeEntry, out: &mut Vec<u8>)
    ensures
        final(out)@ == old(out)@ + spec_ansi_node_btree_entry_bytes(*e),
{
    write_u32(out, e.node.raw());
    write_u32(out, e.data.to_raw());
    let sv: u32 = match e.sub_node {
        Some(b) => b.to_raw(),
        None => 0,
    };
    write_u32(out, sv);
    write_u32(out, e.parent.raw());
    proof {
        assert(out@ =~= old(out)@ + spec_ansi_node_btree_entry_bytes(*e));
    }
}

/// The 12 bytes of a block-leaf entry, 32-bit width.
pub open spec fn spec_ansi_block_btree_entry_bytes(e: AnsiBlockBTreeEntry) -> Seq<u8> {
    crate::block_ref::spec_ansi_block_ref_bytes(e.block) + spec_u16_bytes(e.size) + spec_u16_bytes(
        e.ref_count,
    )
}

pub fn serialize_ansi_block_btree_entry(e: &AnsiBlockBTreeEntry, out: &mut Vec<u8>)
    ensures
        final(out)@ == old(out)@ + spec_ansi_block_btree_entry_bytes(*e),
{
    crate::block_ref::serialize_ansi_block_ref(&e.block, out);
    write_u16(out, e.size);
    write_u16(out, e.ref_count);
    proof {
        assert(out@ =~= old(out)@ + spec_ansi_block_btree_entry_bytes(*e));
    }
}

/// The 12 bytes of an intermediate entry, 32-bit width.
pub open spec fn spec_ansi_btree_page_entry_bytes(e: AnsiBTreePageEntry) -> Seq<u8> {
    spec_u32_bytes(e.key) + crate::block_ref::spec_ansi_block_ref_bytes(e.block)
}

pub fn serialize_ansi_btree_page_entry(e: &AnsiBTreePageEntry, out: &mut Vec<u8>)
    ensures
        final(out)@ == old(out)@ + spec_ansi_btree_page_entry_bytes(*e),
{
    write_u32(out, e.key);
    crate::block_ref::serialize_ansi_block_ref(&e.block, out);
    proof {
        assert(out@ =~= old(out)@ + spec_ansi_btree_page_entry_bytes(*e));
    }
}

pub open spec fn spec_ansi_node_entries_bytes(es: Seq<AnsiNodeBTreeEntry>) -> Seq<u8>
    decreases es.len(),
{
    if es.len() == 0 {
        Seq::empty()
    } else {
        spec_ansi_node_entries_bytes(es.drop_last()) + spec_ansi_node_btree_entry_bytes(es.last())
    }
}

pub open spec fn spec_ansi_block_entries_bytes(es: Seq<AnsiBlockBTreeEntry>) -> Seq<u8>
    decreases es.len(),
{
    if es.len() == 0 {
        Seq::empty()
    } else {
        spec_ansi_block_entries_bytes(es.drop_last()) + spec_ansi_block_btree_entry_bytes(
            es.last(),
        )
    }
}

pub open spec fn spec_ansi_intermediate_entries_bytes(es: Seq<AnsiBTreePageEntry>) -> Seq<u8>
    decreases es.len(),
{
    if es.len() == 0 {
        Seq::empty()
    } else {
        spec_ansi_intermediate_entries_bytes(es.drop_last()) + spec_ansi_btree_page_entry_bytes(
            es.last(),
        )
    }
}

fn serialize_ansi_node_leaf_entries(es: &Vec<AnsiNodeBTreeEntry>, out: &mut Vec<u8>)
    ensures
        final(out)@ == old(out)@ + spec_ansi_node_entries_bytes(es@),
{
    let n = es.len();
    let mut k: usize = 0;
    while k < n
        invariant
            k <= n,
            n == es@.len(),
            out@ == old(out)@ + spec_ansi_node_entries_bytes(es@.subrange(0, k as int)),
        decreases n - k,
    {
        serialize_ansi_node_btree_entry(&es[k], out);
        k = k + 1;
        proof {
            let p = es@.subrange(0, k as int);
            assert(p.drop_last() =~= es@.subrange(0, k - 1 as int));
            assert(p.last() == es@[k - 1 as int]);
        }
    }
    proof {
        assert(es@.subrange(0, n as int) =~= es@);
    }
}

fn serialize_ansi_block_leaf_entries(es: &Vec<AnsiBlockBTreeEntry>, out: &mut Vec<u8>)
    ensures
        final(out)@ == old(out)@ + spec_ansi_block_entries_bytes(es@),
{
    let n = es.len();
    let mut k: usize = 0;
    while k < n
        invariant
            k <= n,
            n == es@.len(),
            out@ == old(out)@ + spec_ansi_block_entries_bytes(es@.subrange(0, k as int)),
        decreases n - k,
    {
        serialize_ansi_block_btree_entry(&es[k], out);
        k = k + 1;
        proof {
            let p = es@.subrange(0, k as int);
            assert(p.drop_last() =~= es@.subrange(0, k - 1 as int));
            assert(p.last() == es@[k - 1 as int]);
        }
    }
    proof {
        assert(es@.subrange(0, n as int) =~= es@);
    }
}

fn serialize_ansi_intermediate_page_entries(es: &Vec<AnsiBTreePageEntry>, out: &mut Vec<u8>)
    ensures
        final(out)@ == old(out)@ + spec_ansi_intermediate_entries_bytes(es@),
{
    let n = es.len();
    let mut k: usize = 0;
    while k < n
        invariant
            k <= n,
            n == es@.len(),
            out@ == old(out)@ + spec_ansi_intermediate_entries_bytes(es@.subrange(0, k as int)),
        decreases n - k,
    {
        serialize_ansi_btree_page_entry(&es[k], out);
        k = k + 1;
        proof {
            let p = es@.subrange(0, k as int);
            assert(p.drop_last() =~= es@.subrange(0, k - 1 as int));
            assert(p.last() == es@[k - 1 as int]);
        }
    }
    proof {
        assert(es@.subrange(0, n as int) =~= es@);
    }
}

proof fn lemma_ansi_node_entries_bytes_len(es: Seq<AnsiNodeBTreeEntry>)
    ensures
        spec_ansi_node_entries_bytes(es).len() == 16 * es.len(),
    decreases es.len(),
{
    if es.len() > 0 {
        lemma_ansi_node_entries_bytes_len(es.drop_last());
    }
}

proof fn lemma_ansi_block_entries_bytes_len(es: Seq<AnsiBlockBTreeEntry>)
    ensures
        spec_ansi_block_entries_bytes(es).len() == 12 * es.len(),
    decreases es.len(),
{
    if es.len() > 0 {
        lemma_ansi_block_entries_bytes_len(es.drop_last());
    }
}

proof fn lemma_ansi_intermediate_entries_bytes_len(es: Seq<AnsiBTreePageEntry>)
    ensures
        spec_ansi_intermediate_entries_bytes(es).len() == 12 * es.len(),
    decreases es.len(),
{
    if es.len() > 0 {
        lemma_ansi_intermediate_entries_bytes_len(es.drop_last());
    }
}

/// The 512-byte image of a node B-tree page, 32-bit width: 496 entry
/// bytes, the four tail bytes, and the trailer restamped with the CRC of
/// the 500 bytes before it.
pub open spec fn spec_ansi_node_btree_page_bytes(m: AnsiNodeBTreePageModel) -> Seq<u8> {
    let covered = match m {
        AnsiNodeBTreePageModel::Leaf(lp) => spec_ansi_node_entries_bytes(lp.entries)
            + crate::bytes::zero_bytes(496 - 16 * lp.entries.len()) + seq![
            lp.entries.len() as u8,
            31u8,
            16u8,
            0u8,
        ],
        AnsiNodeBTreePageModel::Intermediate(ip) => spec_ansi_intermediate_entries_bytes(
            ip.entries,
        ) + crate::bytes::zero_bytes(496 - 12 * ip.entries.len()) + seq![
            ip.entries.len() as u8,
            41u8,
            12u8,
            ip.level,
        ],
    };
    let t = match m {
        AnsiNodeBTreePageModel::Leaf(lp) => lp.trailer,
        AnsiNodeBTreePageModel::Intermediate(ip) => ip.trailer,
    };
    covered + crate::page::spec_ansi_page_trailer_bytes(
        (AnsiPageTrailer {
            page_type: t.page_type,
            signature: t.signature,
            block_id: t.block_id,
            crc: spec_crc(0, covered),
        }),
    )
}

/// Appends the 512-byte image of a node B-tree page, 32-bit width.
pub fn serialize_ansi_node_btree_page(p: &AnsiNodeBTreePage, out: &mut Vec<u8>)
    requires
        (p@ matches AnsiNodeBTreePageModel::Leaf(lp) ==> lp.entries.len() <= 31),
        (p@ matches AnsiNodeBTreePageModel::Intermediate(ip) ==> ip.entries.len() <= 41),
    ensures
        final(out)@ == old(out)@ + spec_ansi_node_btree_page_bytes(p@),
        (final(out)@).len() == old(out)@.len() + PAGE_SIZE,
{
    match p {
        AnsiNodeBTreePage::Leaf(lp) => {
            let mut body: Vec<u8> = Vec::new();
            serialize_ansi_node_leaf_entries(&lp.entries, &mut body);
            proof {
                lemma_ansi_node_entries_bytes_len(lp.entries@);
            }
            crate::bytes::write_zeros(&mut body, 496 - 16 * lp.entries.len());
            crate::bytes::write_u8(&mut body, lp.entries.len() as u8);
            crate::bytes::write_u8(&mut body, 31);
            crate::bytes::write_u8(&mut body, 16);
            crate::bytes::write_u8(&mut body, 0);
            proof {
                assert(body@ =~= spec_ansi_node_entries_bytes(lp.entries@)
                    + crate::bytes::zero_bytes(496 - 16 * lp.entries@.len()) + seq![
                    (lp.entries@.len() as u8),
                    31u8,
                    16u8,
                    0u8,
                ]);
            }
            let ghost cov = body@;
            let c = compute_crc(0, body.as_slice());
            let t = AnsiPageTrailer {
                page_type: lp.trailer.page_type,
                signature: lp.trailer.signature,
                block_id: lp.trailer.block_id,
                crc: c,
            };
            out.append(&mut body);
            crate::page::serialize_ansi_page_trailer(&t, out);
            proof {
                assert(p@ == AnsiNodeBTreePageModel::Leaf(lp@));
                assert(spec_ansi_node_btree_page_bytes(p@) == cov
                    + crate::page::spec_ansi_page_trailer_bytes(t));
                assert(out@ =~= old(out)@ + spec_ansi_node_btree_page_bytes(p@));
            }
        },
        AnsiNodeBTreePage::Intermediate(ip) => {
            let mut body: Vec<u8> = Vec::new();
            serialize_ansi_intermediate_page_entries(&ip.entries, &mut body);
            proof {
                lemma_ansi_intermediate_entries_bytes_len(ip.entries@);
            }
            crate::bytes::write_zeros(&mut body, 496 - 12 * ip.entries.len());
            crate::bytes::write_u8(&mut body, ip.entries.len() as u8);
            crate::bytes::write_u8(&mut body, 41);
            crate::bytes::write_u8(&mut body, 12);
            crate::bytes::write_u8(&mut body, ip.level);
            proof {
                assert(body@ =~= spec_ansi_intermediate_entries_bytes(ip.entries@)
                    + crate::bytes::zero_bytes(496 - 12 * ip.entries@.len()) + seq![
                    (ip.entries@.len() as u8),
                    41u8,
                    12u8,
                    ip.level,
                ]);
            }
            let ghost cov = body@;
            let c = compute_crc(0, body.as_slice());
            let t = AnsiPageTrailer {
                page_type: ip.trailer.page_type,
                signature: ip.trailer.signature,
                block_id: ip.trailer.block_id,
                crc: c,
            };
            out.append(&mut body);
            crate::page::serialize_ansi_page_trailer(&t, out);
            proof {
                assert(p@ == AnsiNodeBTreePageModel::Intermediate(ip@));
                assert(spec_ansi_node_btree_page_bytes(p@) == cov
                    + crate::page::spec_ansi_page_trailer_bytes(t));
                assert(out@ =~= old(out)@ + spec_ansi_node_btree_page_bytes(p@));
            }
        },
    }
}

/// The 512-byte image of a block B-tree page, 32-bit width.
pub open spec fn spec_ansi_block_btree_page_bytes(m: AnsiBlockBTreePageModel) -> Seq<u8> {
    let covered = match m {
        AnsiBlockBTreePageModel::Leaf(lp) => spec_ansi_block_entries_bytes(lp.entries)
            + crate::bytes::zero_bytes(496 - 12 * lp.entries.len()) + seq![
            lp.entries.len() as u8,
            41u8,
            12u8,
            0u8,
        ],
        AnsiBlockBTreePageModel::Intermediate(ip) => spec_ansi_intermediate_entries_bytes(
            ip.entries,
        ) + crate::bytes::zero_bytes(496 - 12 * ip.entries.len()) + seq![
            ip.entries.len() as u8,
            41u8,
            12u8,
            ip.level,
        ],
    };
    let t = match m {
        AnsiBlockBTreePageModel::Leaf(lp) => lp.trailer,
        AnsiBlockBTreePageModel::Intermediate(ip) => ip.trailer,
    };
    covered + crate::page::spec_ansi_page_trailer_bytes(
        (AnsiPageTrailer {
            page_type: t.page_type,
            signature: t.signature,
            block_id: t.block_id,
            crc: spec_crc(0, covered),
        }),
    )
}

/// Appends the 512-byte image of a block B-tree page, 32-bit width.
pub fn serialize_ansi_block_btree_page(p: &AnsiBlockBTreePage, out: &mut Vec<u8>)
    requires
        (p@ matches AnsiBlockBTreePageModel::Leaf(lp) ==> lp.entries.len() <= 41),
        (p@ matches AnsiBlockBTreePageModel::Intermediate(ip) ==> ip.entries.len() <= 41),
    ensures
        final(out)@ == old(out)@ + spec_ansi_block_btree_page_bytes(p@),
        (final(out)@).len() == old(out)@.len() + PAGE_SIZE,
{
    match p {
        AnsiBlockBTreePage::Leaf(lp) => {
            let mut body: Vec<u8> = Vec::new();
            serialize_ansi_block_leaf_entries(&lp.entries, &mut body);
            proof {
                lemma_ansi_block_entries_bytes_len(lp.entries@);
            }
            crate::bytes::write_zeros(&mut body, 496 - 12 * lp.entries.len());
            crate::bytes::write_u8(&mut body, lp.entries.len() as u8);
            crate::bytes::write_u8(&mut body, 41);
            crate::bytes::write_u8(&mut body, 12);
            crate::bytes::write_u8(&mut body, 0);
            proof {
                assert(body@ =~= spec_ansi_block_entries_bytes(lp.entries@)
                    + crate::bytes::zero_bytes(496 - 12 * lp.entries@.len()) + seq![
                    (lp.entries@.len() as u8),
                    41u8,
                    12u8,
                    0u8,
                ]);
            }
            let ghost cov = body@;
            let c = compute_crc(0, body.as_slice());
            let t = AnsiPageTrailer {
                page_type: lp.trailer.page_type,
                signature: lp.trailer.signature,
                block_id: lp.trailer.block_id,
                crc: c,
            };
            out.append(&mut body);
            crate::page::serialize_ansi_page_trailer(&t, out);
            proof {
                assert(p@ == AnsiBlockBTreePageModel::Leaf(lp@));
                assert(spec_ansi_block_btree_page_bytes(p@) == cov
                    + crate::page::spec_ansi_page_trailer_bytes(t));
                assert(out@ =~= old(out)@ + spec_ansi_block_btree_page_bytes(p@));
            }
        },
        AnsiBlockBTreePage::Intermediate(ip) => {
            let mut body: Vec<u8> = Vec::new();
            serialize_ansi_intermediate_page_entries(&ip.entries, &mut body);
            proof {
                lemma_ansi_intermediate_entries_bytes_len(ip.entries@);
            }
            crate::bytes::write_zeros(&mut body, 496 - 12 * ip.entries.len());
            crate::bytes::write_u8(&mut body, ip.entries.len() as u8);
            crate::bytes::write_u8(&mut body, 41);
            crate::bytes::write_u8(&mut body, 12);
            crate::bytes::write_u8(&mut body, ip.level);
            proof {
                assert(body@ =~= spec_ansi_intermediate_entries_bytes(ip.entries@)
                    + crate::bytes::zero_bytes(496 - 12 * ip.entries@.len()) + seq![
                    (ip.entries@.len() as u8),
                    41u8,
                    12u8,
                    ip.level,
                ]);
            }
            let ghost cov = body@;
            let c = compute_crc(0, body.as_slice());
            let t = AnsiPageTrailer {
                page_type: ip.trailer.page_type,
                signature: ip.trailer.signature,
                block_id: ip.trailer.block_id,
                crc: c,
            };
            out.append(&mut body);
            crate::page::serialize_ansi_page_trailer(&t, out);
            proof {
                assert(p@ == AnsiBlockBTreePageModel::Intermediate(ip@));
                assert(spec_ansi_block_btree_page_bytes(p@) == cov
                    + crate::page::spec_ansi_page_trailer_bytes(t));
                assert(out@ =~= old(out)@ + spec_ansi_block_btree_page_bytes(p@));
            }
        },
    }
}


proof fn lemma_unicode_block_btree_entry_bytes_round_trip(e: UnicodeBlockBTreeEntry)
    ensures
        spec_unicode_block_btree_entry_bytes(e).len() == 24,
        spec_parse_unicode_block_btree_entry(spec_unicode_block_btree_entry_bytes(e), 0) == e,
{
    let s = spec_unicode_block_btree_entry_bytes(e);
    crate::bytes::lemma_u64_round_trip(e.block.block.raw_spec());
    crate::bytes::lemma_u64_round_trip(e.block.index);
    crate::bytes::lemma_u16_round_trip(e.size);
    crate::bytes::lemma_u16_round_trip(e.ref_count);
    assert(spec_u64_at(s, 0) == e.block.block.raw_spec());
    assert(spec_u64_at(s, 8) == e.block.index);
    assert(spec_u16_at(s, 16) == e.size);
    assert(spec_u16_at(s, 18) == e.ref_count);
}

proof fn lemma_unicode_btree_page_entry_bytes_round_trip(e: UnicodeBTreePageEntry)
    ensures
        spec_unicode_btree_page_entry_bytes(e).len() == 24,
        spec_parse_unicode_btree_page_entry(spec_unicode_btree_page_entry_bytes(e), 0) == e,
{
    let s = spec_unicode_btree_page_entry_bytes(e);
    crate::bytes::lemma_u64_round_trip(e.key);
    crate::bytes::lemma_u64_round_trip(e.block.block.raw_spec());
    crate::bytes::lemma_u64_round_trip(e.block.index);
    assert(spec_u64_at(s, 0) == e.key);
    assert(spec_u64_at(s, 8) == e.block.block.raw_spec());
    assert(spec_u64_at(s, 16) == e.block.index);
}

proof fn lemma_unicode_block_entries_bytes_index(es: Seq<UnicodeBlockBTreeEntry>, k: int)
    requires
        0 <= k < es.len(),
    ensures
        spec_unicode_block_entries_bytes(es).subrange(24 * k, 24 * k + 24)
            == spec_unicode_block_btree_entry_bytes(es[k]),
    decreases es.len(),
{
    lemma_unicode_block_entries_bytes_len(es);
    lemma_unicode_block_entries_bytes_len(es.drop_last());
    lemma_unicode_block_btree_entry_bytes_round_trip(es.last());
    if k == es.len() - 1 {
        assert(spec_unicode_block_entries_bytes(es).subrange(24 * k, 24 * k + 24)
            =~= spec_unicode_block_btree_entry_bytes(es[k]));
    } else {
        lemma_unicode_block_entries_bytes_index(es.drop_last(), k);
        assert(spec_unicode_block_entries_bytes(es).subrange(24 * k, 24 * k + 24)
            =~= spec_unicode_block_entries_bytes(es.drop_last()).subrange(24 * k, 24 * k + 24));
        assert(es.drop_last()[k] == es[k]);
    }
}

proof fn lemma_unicode_intermediate_entries_bytes_index(es: Seq<UnicodeBTreePageEntry>, k: int)
    requires
        0 <= k < es.len(),
    ensures
        spec_unicode_intermediate_entries_bytes(es).subrange(24 * k, 24 * k + 24)
            == spec_unicode_btree_page_entry_bytes(es[k]),
    decreases es.len(),
{
    lemma_unicode_intermediate_entries_bytes_len(es);
    lemma_unicode_intermediate_entries_bytes_len(es.drop_last());
    lemma_unicode_btree_page_entry_bytes_round_trip(es.last());
    if k == es.len() - 1 {
        assert(spec_unicode_intermediate_entries_bytes(es).subrange(24 * k, 24 * k + 24)
            =~= spec_unicode_btree_page_entry_bytes(es[k]));
    } else {
        lemma_unicode_intermediate_entries_bytes_index(es.drop_last(), k);
        assert(spec_unicode_intermediate_entries_bytes(es).subrange(24 * k, 24 * k + 24)
            =~= spec_unicode_intermediate_entries_bytes(es.drop_last()).subrange(
            24 * k,
            24 * k + 24,
        ));
        assert(es.drop_last()[k] == es[k]);
    }
}

proof fn lemma_unicode_block_btree_entry_parse_window(s: Seq<u8>, i: int)
    requires
        0 <= i,
        i + 24 <= s.len(),
    ensures
        spec_parse_unicode_block_btree_entry(s, i) == spec_parse_unicode_block_btree_entry(
            s.subrange(i, i + 24),
            0,
        ),
{
    let w = s.subrange(i, i + 24);
    assert(spec_u64_at(w, 0) == spec_u64_at(s, i));
    assert(spec_u64_at(w, 8) == spec_u64_at(s, i + 8));
    assert(spec_u16_at(w, 16) == spec_u16_at(s, i + 16));
    assert(spec_u16_at(w, 18) == spec_u16_at(s, i + 18));
}

proof fn lemma_unicode_btree_page_entry_parse_window(s: Seq<u8>, i: int)
    requires
        0 <= i,
        i + 24 <= s.len(),
    ensures
        spec_parse_unicode_btree_page_entry(s, i) == spec_parse_unicode_btree_page_entry(
            s.subrange(i, i + 24),
            0,
        ),
{
    let w = s.subrange(i, i + 24);
    assert(spec_u64_at(w, 0) == spec_u64_at(s, i));
    assert(spec_u64_at(w, 8) == spec_u64_at(s, i + 8));
    assert(spec_u64_at(w, 16) == spec_u64_at(s, i + 16));
}

#[verifier::rlimit(100)]
proof fn lemma_unicode_block_btree_leaf_page_round_trip(lp: UnicodeBlockBTreeLeafPageModel)
    requires
        lp.entries.len() <= 20,
        lp.trailer.page_type == PageType::NodeBTree || lp.trailer.page_type
            == PageType::BlockBTree,
    ensures
        spec_parse_unicode_block_btree_page(
            spec_unicode_block_btree_page_bytes(UnicodeBlockBTreePageModel::Leaf(lp)),
            0,
        ) matches Ok(m2) && (m2 matches UnicodeBlockBTreePageModel::Leaf(lp2) && lp2.entries
            == lp.entries && lp2.trailer.page_type == lp.trailer.page_type
            && lp2.trailer.signature == lp.trailer.signature && lp2.trailer.block_id
            == lp.trailer.block_id),
{
    let m = UnicodeBlockBTreePageModel::Leaf(lp);
    let s = spec_unicode_block_btree_page_bytes(m);
    let eb = spec_unicode_block_entries_bytes(lp.entries);
    let count = lp.entries.len() as int;
    let front = eb + crate::bytes::zero_bytes(488 - 24 * count);
    let covered = front + seq![lp.entries.len() as u8, 20u8, 24u8, 0u8]
        + crate::bytes::spec_u32_bytes(0);
    let t = (UnicodePageTrailer {
        page_type: lp.trailer.page_type,
        signature: lp.trailer.signature,
        crc: spec_crc(0, covered),
        block_id: lp.trailer.block_id,
    });
    lemma_unicode_block_entries_bytes_len(lp.entries);
    assert(front.len() == 488);
    assert(covered.len() == 496);
    assert(s =~= covered + crate::page::spec_unicode_page_trailer_bytes(t));
    assert(s.len() == 512);
    assert(s[488] == lp.entries.len() as u8);
    assert(s[489] == 20u8 && s[490] == 24u8 && s[491] == 0u8);
    assert((0u32 & 0xFF) as u8 == 0u8 && ((0u32 >> 8) & 0xFF) as u8 == 0u8 && ((0u32 >> 16)
        & 0xFF) as u8 == 0u8 && ((0u32 >> 24) & 0xFF) as u8 == 0u8) by (bit_vector);
    assert(crate::bytes::spec_u32_bytes(0u32) =~= seq![0u8, 0u8, 0u8, 0u8]);
    assert(s[492] == 0u8 && s[493] == 0u8 && s[494] == 0u8 && s[495] == 0u8);
    assert(spec_u32_at(s, 492) == crate::bytes::u32_le(s[492], s[493], s[494], s[495]));
    assert(crate::bytes::u32_le(0u8, 0u8, 0u8, 0u8) == 0) by (bit_vector);
    assert(s.subrange(496, 512) =~= crate::page::spec_unicode_page_trailer_bytes(t));
    crate::page::lemma_unicode_page_trailer_parse_window(s, 496);
    crate::page::lemma_unicode_page_trailer_round_trip(t);
    assert(s.subrange(0, 496) =~= covered);
    assert(spec_parse_unicode_btree_frame(s, 0, 24) == NdbResult::<
        (int, u8, UnicodePageTrailer),
    >::Ok((count, 0u8, t)));
    assert forall|k: int| 0 <= k < count implies spec_parse_unicode_block_btree_entry(s, 24 * k)
        == lp.entries[k] by {
        lemma_unicode_block_btree_entry_parse_window(s, 24 * k);
        lemma_unicode_block_entries_bytes_index(lp.entries, k);
        lemma_unicode_block_btree_entry_bytes_round_trip(lp.entries[k]);
        assert(s.subrange(24 * k, 24 * k + 24) =~= eb.subrange(24 * k, 24 * k + 24));
    }
    assert(spec_unicode_block_leaf_entries(s, 0, count) =~= lp.entries);
}

#[verifier::rlimit(100)]
proof fn lemma_unicode_block_btree_intermediate_page_round_trip(
    ip: UnicodeBTreeIntermediatePageModel,
)
    requires
        ip.entries.len() <= 20,
        1 <= ip.level <= 8,
        ip.trailer.page_type == PageType::NodeBTree || ip.trailer.page_type
            == PageType::BlockBTree,
    ensures
        spec_parse_unicode_block_btree_page(
            spec_unicode_block_btree_page_bytes(UnicodeBlockBTreePageModel::Intermediate(ip)),
            0,
        ) matches Ok(m2) && (m2 matches UnicodeBlockBTreePageModel::Intermediate(ip2)
            && ip2.entries == ip.entries && ip2.level == ip.level && ip2.trailer.page_type
            == ip.trailer.page_type && ip2.trailer.signature == ip.trailer.signature
            && ip2.trailer.block_id == ip.trailer.block_id),
{
    let m = UnicodeBlockBTreePageModel::Intermediate(ip);
    let s = spec_unicode_block_btree_page_bytes(m);
    let eb = spec_unicode_intermediate_entries_bytes(ip.entries);
    let count = ip.entries.len() as int;
    let front = eb + crate::bytes::zero_bytes(488 - 24 * count);
    let covered = front + seq![ip.entries.len() as u8, 20u8, 24u8, ip.level]
        + crate::bytes::spec_u32_bytes(0);
    let t = (UnicodePageTrailer {
        page_type: ip.trailer.page_type,
        signature: ip.trailer.signature,
        crc: spec_crc(0, covered),
        block_id: ip.trailer.block_id,
    });
    lemma_unicode_intermediate_entries_bytes_len(ip.entries);
    assert(front.len() == 488);
    assert(covered.len() == 496);
    assert(s =~= covered + crate::page::spec_unicode_page_trailer_bytes(t));
    assert(s.len() == 512);
    assert(s[488] == ip.entries.len() as u8);
    assert(s[489] == 20u8 && s[490] == 24u8 && s[491] == ip.level);
    assert((0u32 & 0xFF) as u8 == 0u8 && ((0u32 >> 8) & 0xFF) as u8 == 0u8 && ((0u32 >> 16)
        & 0xFF) as u8 == 0u8 && ((0u32 >> 24) & 0xFF) as u8 == 0u8) by (bit_vector);
    assert(crate::bytes::spec_u32_bytes(0u32) =~= seq![0u8, 0u8, 0u8, 0u8]);
    assert(s[492] == 0u8 && s[493] == 0u8 && s[494] == 0u8 && s[495] == 0u8);
    assert(spec_u32_at(s, 492) == crate::bytes::u32_le(s[492], s[493], s[494], s[495]));
    assert(crate::bytes::u32_le(0u8, 0u8, 0u8, 0u8) == 0) by (bit_vector);
    assert(s.subrange(496, 512) =~= crate::page::spec_unicode_page_trailer_bytes(t));
    crate::page::lemma_unicode_page_trailer_parse_window(s, 496);
    crate::page::lemma_unicode_page_trailer_round_trip(t);
    assert(s.subrange(0, 496) =~= covered);
    assert(spec_parse_unicode_btree_frame(s, 0, 24) == NdbResult::<
        (int, u8, UnicodePageTrailer),
    >::Ok((count, ip.level, t)));
    assert forall|k: int| 0 <= k < count implies spec_parse_unicode_btree_page_entry(s, 24 * k)
        == ip.entries[k] by {
        lemma_unicode_btree_page_entry_parse_window(s, 24 * k);
        lemma_unicode_intermediate_entries_bytes_index(ip.entries, k);
        lemma_unicode_btree_page_entry_bytes_round_trip(ip.entries[k]);
        assert(s.subrange(24 * k, 24 * k + 24) =~= eb.subrange(24 * k, 24 * k + 24));
    }
    assert(spec_unicode_intermediate_entries(s, 0, count) =~= ip.entries);
}

/// Parsing the serialized image of a block B-tree page restores the page:
/// the entries, the level, and the trailer, whose CRC is the one the
/// serializer stamped over the bytes it wrote.
pub proof fn lemma_unicode_block_btree_page_round_trip(m: UnicodeBlockBTreePageModel)
    requires
        (m matches UnicodeBlockBTreePageModel::Leaf(lp) ==> (lp.entries.len() <= 20
            && (lp.trailer.page_type == PageType::NodeBTree || lp.trailer.page_type
            == PageType::BlockBTree))),
        (m matches UnicodeBlockBTreePageModel::Intermediate(ip) ==> (ip.entries.len() <= 20 && 1
            <= ip.level <= 8 && (ip.trailer.page_type == PageType::NodeBTree
            || ip.trailer.page_type == PageType::BlockBTree))),
    ensures
        spec_parse_unicode_block_btree_page(spec_unicode_block_btree_page_bytes(m), 0)
            matches Ok(m2) && (match (m, m2) {
            (
                UnicodeBlockBTreePageModel::Leaf(lp),
                UnicodeBlockBTreePageModel::Leaf(lp2),
            ) => lp2.entries == lp.entries && lp2.trailer.page_type == lp.trailer.page_type
                && lp2.trailer.signature == lp.trailer.signature && lp2.trailer.block_id
                == lp.trailer.block_id,
            (
                UnicodeBlockBTreePageModel::Intermediate(ip),
                UnicodeBlockBTreePageModel::Intermediate(ip2),
            ) => ip2.entries == ip.entries && ip2.level == ip.level && ip2.trailer.page_type
                == ip.trailer.page_type && ip2.trailer.signature == ip.trailer.signature
                && ip2.trailer.block_id == ip.trailer.block_id,
            _ => false,
        }),
{
    match m {
        UnicodeBlockBTreePageModel::Leaf(lp) => {
            lemma_unicode_block_btree_leaf_page_round_trip(lp);
        },
        UnicodeBlockBTreePageModel::Intermediate(ip) => {
            lemma_unicode_block_btree_intermediate_page_round_trip(ip);
        },
    }
}


proof fn lemma_unicode_node_btree_entry_bytes_round_trip(e: UnicodeNodeBTreeEntry)
    requires
        e.sub_node matches Some(b) ==> b.masked_spec() != 0,
    ensures
        spec_unicode_node_btree_entry_bytes(e).len() == 32,
        spec_parse_unicode_node_btree_entry(spec_unicode_node_btree_entry_bytes(e), 0) == e,
{
    let s = spec_unicode_node_btree_entry_bytes(e);
    let sv: u64 = match e.sub_node {
        Some(b) => b.raw_spec(),
        None => 0u64,
    };
    crate::bytes::lemma_u64_round_trip(e.node.raw_spec() as u64);
    crate::bytes::lemma_u64_round_trip(e.data.raw_spec());
    crate::bytes::lemma_u64_round_trip(sv);
    crate::bytes::lemma_u32_round_trip(e.parent.raw_spec());
    assert(spec_u64_at(s, 0) == e.node.raw_spec() as u64);
    assert(spec_u64_at(s, 8) == e.data.raw_spec());
    assert(spec_u64_at(s, 16) == sv);
    assert(spec_u32_at(s, 24) == e.parent.raw_spec());
    let nid = e.node.raw_spec() as u64;
    assert((nid & 0xFFFF_FFFF) as u32 == nid as u32) by (bit_vector)
        requires
            nid <= 0xFFFF_FFFFu64,
    ;
    match e.sub_node {
        Some(b) => {
            assert(b.raw_spec() & 0xFFFF_FFFF_FFFF_FFFE == b.masked_spec());
        },
        None => {
            assert(0u64 & 0xFFFF_FFFF_FFFF_FFFE == 0) by (bit_vector);
        },
    }
}

#[verifier::rlimit(100)]
proof fn lemma_unicode_node_entries_bytes_index(es: Seq<UnicodeNodeBTreeEntry>, k: int)
    requires
        0 <= k < es.len(),
        forall|j: int|
            0 <= j < es.len() ==> ((#[trigger] es[j]).sub_node matches Some(b)
                ==> b.masked_spec() != 0),
    ensures
        spec_unicode_node_entries_bytes(es).subrange(32 * k, 32 * k + 32)
            == spec_unicode_node_btree_entry_bytes(es[k]),
    decreases es.len(),
{
    lemma_unicode_node_entries_bytes_len(es);
    lemma_unicode_node_entries_bytes_len(es.drop_last());
    lemma_unicode_node_btree_entry_bytes_round_trip(es.last());
    if k == es.len() - 1 {
        assert(spec_unicode_node_entries_bytes(es).subrange(32 * k, 32 * k + 32)
            =~= spec_unicode_node_btree_entry_bytes(es[k]));
    } else {
        assert(forall|j: int|
            0 <= j < es.drop_last().len() ==> es.drop_last()[j] == es[j]);
        lemma_unicode_node_entries_bytes_index(es.drop_last(), k);
        assert(spec_unicode_node_entries_bytes(es).subrange(32 * k, 32 * k + 32)
            =~= spec_unicode_node_entries_bytes(es.drop_last()).subrange(32 * k, 32 * k + 32));
        assert(es.drop_last()[k] == es[k]);
    }
}

proof fn lemma_unicode_node_btree_entry_parse_window(s: Seq<u8>, i: int)
    requires
        0 <= i,
        i + 32 <= s.len(),
    ensures
        spec_parse_unicode_node_btree_entry(s, i) == spec_parse_unicode_node_btree_entry(
            s.subrange(i, i + 32),
            0,
        ),
{
    let w = s.subrange(i, i + 32);
    assert(spec_u64_at(w, 0) == spec_u64_at(s, i));
    assert(spec_u64_at(w, 8) == spec_u64_at(s, i + 8));
    assert(spec_u64_at(w, 16) == spec_u64_at(s, i + 16));
    assert(spec_u32_at(w, 24) == spec_u32_at(s, i + 24));
}

#[verifier::rlimit(100)]
proof fn lemma_unicode_node_btree_leaf_page_round_trip_aux(lp: UnicodeNodeBTreeLeafPageModel)
    requires
        lp.entries.len() <= 15,
        lp.trailer.page_type == PageType::NodeBTree || lp.trailer.page_type
            == PageType::BlockBTree,
        forall|k: int|
            0 <= k < lp.entries.len() ==> ((#[trigger] lp.entries[k]).sub_node matches Some(b)
                ==> b.masked_spec() != 0),
    ensures
        spec_parse_unicode_node_btree_page(
            spec_unicode_node_btree_page_bytes(UnicodeNodeBTreePageModel::Leaf(lp)),
            0,
        ) matches Ok(m2) && (m2 matches UnicodeNodeBTreePageModel::Leaf(lp2) && lp2.entries
            == lp.entries && lp2.trailer.page_type == lp.trailer.page_type
            && lp2.trailer.signature == lp.trailer.signature && lp2.trailer.block_id
            == lp.trailer.block_id),
{
    let m = UnicodeNodeBTreePageModel::Leaf(lp);
    let s = spec_unicode_node_btree_page_bytes(m);
    let eb = spec_unicode_node_entries_bytes(lp.entries);
    let count = lp.entries.len() as int;
    let front = eb + crate::bytes::zero_bytes(488 - 32 * count);
    let covered = front + seq![lp.entries.len() as u8, 15u8, 32u8, 0u8]
        + crate::bytes::spec_u32_bytes(0);
    let t = (UnicodePageTrailer {
        page_type: lp.trailer.page_type,
        signature: lp.trailer.signature,
        crc: spec_crc(0, covered),
        block_id: lp.trailer.block_id,
    });
    lemma_unicode_node_entries_bytes_len(lp.entries);
    assert(front.len() == 488);
    assert(covered.len() == 496);
    assert(s =~= covered + crate::page::spec_unicode_page_trailer_bytes(t));
    assert(s.len() == 512);
    assert(s[488] == lp.entries.len() as u8);
    assert(s[489] == 15u8 && s[490] == 32u8 && s[491] == 0u8);
    assert((0u32 & 0xFF) as u8 == 0u8 && ((0u32 >> 8) & 0xFF) as u8 == 0u8 && ((0u32 >> 16)
        & 0xFF) as u8 == 0u8 && ((0u32 >> 24) & 0xFF) as u8 == 0u8) by (bit_vector);
    assert(crate::bytes::spec_u32_bytes(0u32) =~= seq![0u8, 0u8, 0u8, 0u8]);
    assert(s[492] == 0u8 && s[493] == 0u8 && s[494] == 0u8 && s[495] == 0u8);
    assert(spec_u32_at(s, 492) == crate::bytes::u32_le(s[492], s[493], s[494], s[495]));
    assert(crate::bytes::u32_le(0u8, 0u8, 0u8, 0u8) == 0) by (bit_vector);
    assert(s.subrange(496, 512) =~= crate::page::spec_unicode_page_trailer_bytes(t));
    crate::page::lemma_unicode_page_trailer_parse_window(s, 496);
    crate::page::lemma_unicode_page_trailer_round_trip(t);
    assert(s.subrange(0, 496) =~= covered);
    assert(spec_parse_unicode_btree_frame(s, 0, 32) == NdbResult::<
        (int, u8, UnicodePageTrailer),
    >::Ok((count, 0u8, t)));
    assert forall|k: int| 0 <= k < count implies spec_parse_unicode_node_btree_entry(s, 32 * k)
        == lp.entries[k] by {
        lemma_unicode_node_btree_entry_parse_window(s, 32 * k);
        lemma_unicode_node_entries_bytes_index(lp.entries, k);
        let e = lp.entries[k];
        lemma_unicode_node_btree_entry_bytes_round_trip(e);
        if e.sub_node is Some {
            let b = e.sub_node->0;
            assert(b.raw_spec() & 0xFFFF_FFFF_FFFF_FFFE == b.masked_spec());
        }
        assert(s.subrange(32 * k, 32 * k + 32) =~= eb.subrange(32 * k, 32 * k + 32));
    }
    assert(spec_unicode_node_leaf_entries(s, 0, count) =~= lp.entries);
}

/// Parsing the serialized image of a node B-tree leaf page restores the
/// page, provided no entry stores a sub-node id whose masked value is
/// zero (such an id is indistinguishable from "no sub-node" on disk).
pub proof fn lemma_unicode_node_btree_page_round_trip(m: UnicodeNodeBTreePageModel)
    requires
        m matches UnicodeNodeBTreePageModel::Leaf(lp) && lp.entries.len() <= 15
            && (lp.trailer.page_type == PageType::NodeBTree || lp.trailer.page_type
            == PageType::BlockBTree) && (forall|k: int|
            0 <= k < lp.entries.len() ==> ((#[trigger] lp.entries[k]).sub_node matches Some(b)
                ==> b.masked_spec() != 0)),
    ensures
        spec_parse_unicode_node_btree_page(spec_unicode_node_btree_page_bytes(m), 0)
            matches Ok(m2) && (match (m, m2) {
            (
                UnicodeNodeBTreePageModel::Leaf(lp),
                UnicodeNodeBTreePageModel::Leaf(lp2),
            ) => lp2.entries == lp.entries && lp2.trailer.page_type == lp.trailer.page_type
                && lp2.trailer.signature == lp.trailer.signature && lp2.trailer.block_id
                == lp.trailer.block_id,
            _ => false,
        }),
{
    match m {
        UnicodeNodeBTreePageModel::Leaf(lp) => {
            lemma_unicode_node_btree_leaf_page_round_trip_aux(lp);
        },
        UnicodeNodeBTreePageModel::Intermediate(_) => {},
    }
}


/// Re-serializing a parsed block-leaf entry reproduces its 24 bytes, when
/// the entry's four ignored padding bytes are zero.
proof fn lemma_unicode_block_btree_entry_bytes_exact(s: Seq<u8>, i: int)
    requires
        0 <= i,
        i + 24 <= s.len(),
        s[i + 20] == 0 && s[i + 21] == 0 && s[i + 22] == 0 && s[i + 23] == 0,
    ensures
        spec_unicode_block_btree_entry_bytes(spec_parse_unicode_block_btree_entry(s, i))
            == s.subrange(i, i + 24),
{
    crate::bytes::lemma_u64_bytes_inverse(
        s[i],
        s[i + 1],
        s[i + 2],
        s[i + 3],
        s[i + 4],
        s[i + 5],
        s[i + 6],
        s[i + 7],
    );
    crate::bytes::lemma_u64_bytes_inverse(
        s[i + 8],
        s[i + 9],
        s[i + 10],
        s[i + 11],
        s[i + 12],
        s[i + 13],
        s[i + 14],
        s[i + 15],
    );
    crate::bytes::lemma_u16_bytes_inverse(s[i + 16], s[i + 17]);
    crate::bytes::lemma_u16_bytes_inverse(s[i + 18], s[i + 19]);
    assert((0u32 & 0xFF) as u8 == 0u8 && ((0u32 >> 8) & 0xFF) as u8 == 0u8 && ((0u32 >> 16)
        & 0xFF) as u8 == 0u8 && ((0u32 >> 24) & 0xFF) as u8 == 0u8) by (bit_vector);
    assert(spec_unicode_block_btree_entry_bytes(spec_parse_unicode_block_btree_entry(s, i))
        =~= s.subrange(i, i + 24));
}

/// Re-serializing a parsed intermediate entry reproduces its 24 bytes;
/// every bit of an intermediate entry is significant.
proof fn lemma_unicode_btree_page_entry_bytes_exact(s: Seq<u8>, i: int)
    requires
        0 <= i,
        i + 24 <= s.len(),
    ensures
        spec_unicode_btree_page_entry_bytes(spec_parse_unicode_btree_page_entry(s, i))
            == s.subrange(i, i + 24),
{
    crate::bytes::lemma_u64_bytes_inverse(
        s[i],
        s[i + 1],
        s[i + 2],
        s[i + 3],
        s[i + 4],
        s[i + 5],
        s[i + 6],
        s[i + 7],
    );
    crate::bytes::lemma_u64_bytes_inverse(
        s[i + 8],
        s[i + 9],
        s[i + 10],
        s[i + 11],
        s[i + 12],
        s[i + 13],
        s[i + 14],
        s[i + 15],
    );
    crate::bytes::lemma_u64_bytes_inverse(
        s[i + 16],
        s[i + 17],
        s[i + 18],
        s[i + 19],
        s[i + 20],
        s[i + 21],
        s[i + 22],
        s[i + 23],
    );
    assert(spec_unicode_btree_page_entry_bytes(spec_parse_unicode_btree_page_entry(s, i))
        =~= s.subrange(i, i + 24));
}

/// Whether the bytes the block-B-tree page parse ignores are all zero:
/// the unused entry slots, and the padding dword of each leaf entry.
pub open spec fn spec_unicode_block_btree_page_padding_clear(s: Seq<u8>) -> bool
    recommends
        s.len() == 512,
{
    &&& forall|j: int| 24 * (s[488] as int) <= j < 488 ==> #[trigger] s[j] == 0
    &&& forall|j: int|
        0 <= j < 24 * (s[488] as int) && s[491] == 0 && j % 24 >= 20 ==> #[trigger] s[j] == 0
}

/// Serializing the page parsed from a 512-byte buffer whose ignored bytes
/// are zero reproduces the buffer exactly: parse then serialize is the
/// identity on well-formed page images.
#[verifier::rlimit(100)]
pub proof fn lemma_unicode_block_btree_page_buffer_identity(s: Seq<u8>)
    requires
        s.len() == 512,
        spec_parse_unicode_block_btree_page(s, 0) is Ok,
        spec_unicode_block_btree_page_padding_clear(s),
    ensures
        spec_unicode_block_btree_page_bytes(spec_parse_unicode_block_btree_page(s, 0)->Ok_0) == s,
{
    let m = spec_parse_unicode_block_btree_page(s, 0)->Ok_0;
    let f = spec_parse_unicode_btree_frame(s, 0, 24)->Ok_0;
    let count = f.0;
    let level = f.1;
    let t = f.2;
    assert(count == s[488] as int);
    assert(level == s[491]);
    assert((if level == 0 {
        24int
    } else {
        24int
    }) == 24);
    assert(488int / 24int == 20);
    assert(s[490] as int == 24);
    assert(s[489] as int == 20);
    assert(0 <= count <= 20);
    assert(spec_u32_at(s, 492) == 0);
    let b0 = s[492];
    let b1 = s[493];
    let b2 = s[494];
    let b3 = s[495];
    assert(b0 == 0 && b1 == 0 && b2 == 0 && b3 == 0) by (bit_vector)
        requires
            (b0 as u32) | ((b1 as u32) << 8) | ((b2 as u32) << 16) | ((b3 as u32) << 24) == 0u32,
    ;
    assert((0u32 & 0xFF) as u8 == 0u8 && ((0u32 >> 8) & 0xFF) as u8 == 0u8 && ((0u32 >> 16)
        & 0xFF) as u8 == 0u8 && ((0u32 >> 24) & 0xFF) as u8 == 0u8) by (bit_vector);
    if level == 0 {
        let lp = m->Leaf_0;
        assert(lp.entries == spec_unicode_block_leaf_entries(s, 0, count));
        assert(lp.entries.len() == count);
        lemma_unicode_block_entries_bytes_len(lp.entries);
        assert forall|k: int| 0 <= k < count implies spec_unicode_block_entries_bytes(
            lp.entries,
        ).subrange(24 * k, 24 * k + 24) == #[trigger] s.subrange(24 * k, 24 * k + 24) by {
            assert((24 * k + 20) % 24 == 20 && (24 * k + 21) % 24 == 21 && (24 * k + 22) % 24
                == 22 && (24 * k + 23) % 24 == 23) by (nonlinear_arith)
                requires
                    0 <= k,
            ;
            assert(24 * k + 23 < 24 * count) by (nonlinear_arith)
                requires
                    k < count,
            ;
            assert(s[24 * k + 20] == 0 && s[24 * k + 21] == 0 && s[24 * k + 22] == 0 && s[24 * k
                + 23] == 0);
            lemma_unicode_block_entries_bytes_index(lp.entries, k);
            lemma_unicode_block_btree_entry_bytes_exact(s, 24 * k);
        }
        let ebb = spec_unicode_block_entries_bytes(lp.entries);
        assert(ebb.len() == 24 * count);
        let out = spec_unicode_block_btree_page_bytes(m);
        assert(out.len() == 512);
        assert(spec_crc(0, s.subrange(0, 496)) == t.crc);
        assert forall|j: int| 0 <= j < 488 implies out[j] == s[j] by {
            let k = j / 24;
            vstd::arithmetic::div_mod::lemma_fundamental_div_mod(j, 24);
            if k < count {
                assert(ebb.subrange(24 * k, 24 * k + 24) == s.subrange(24 * k, 24 * k + 24));
                assert(ebb.subrange(24 * k, 24 * k + 24)[j - 24 * k] == s.subrange(
                    24 * k,
                    24 * k + 24,
                )[j - 24 * k]);
                assert(out[j] == ebb[j]);
            } else {
                assert(24 * count <= j);
                assert(s[j] == 0);
                assert(out[j] == 0);
            }
        }
        assert(out[488] == s[488]);
        assert(out[489] == s[489]);
        assert(out[490] == s[490]);
        assert(out[491] == s[491]);
        assert(out[492] == s[492] && out[493] == s[493] && out[494] == s[494] && out[495]
            == s[495]);
        let cov = ebb + crate::bytes::zero_bytes(488 - 24 * lp.entries.len()) + seq![
            lp.entries.len() as u8,
            20u8,
            24u8,
            0u8,
        ] + spec_u32_bytes(0);
        assert(out == cov + crate::page::spec_unicode_page_trailer_bytes(
            (UnicodePageTrailer {
                page_type: t.page_type,
                signature: t.signature,
                crc: spec_crc(0, cov),
                block_id: t.block_id,
            }),
        ));
        assert(cov.len() == 496);
        assert(out.subrange(0, 496) =~= cov);
        assert(out.subrange(0, 496) =~= s.subrange(0, 496));
        assert(cov =~= s.subrange(0, 496));
        assert(spec_crc(0, cov) == t.crc);
        crate::page::lemma_unicode_page_trailer_bytes_exact(s, 496, t);
        assert(out =~= s.subrange(0, 496) + s.subrange(496, 512));
        assert(s.subrange(0, 496) + s.subrange(496, 512) =~= s);
    } else {
        let ip = m->Intermediate_0;
        assert(ip.entries == spec_unicode_intermediate_entries(s, 0, count));
        assert(ip.entries.len() == count);
        lemma_unicode_intermediate_entries_bytes_len(ip.entries);
        assert forall|k: int| 0 <= k < count implies spec_unicode_intermediate_entries_bytes(
            ip.entries,
        ).subrange(24 * k, 24 * k + 24) == #[trigger] s.subrange(24 * k, 24 * k + 24) by {
            lemma_unicode_intermediate_entries_bytes_index(ip.entries, k);
            lemma_unicode_btree_page_entry_bytes_exact(s, 24 * k);
        }
        let ebb = spec_unicode_intermediate_entries_bytes(ip.entries);
        assert(ebb.len() == 24 * count);
        let out = spec_unicode_block_btree_page_bytes(m);
        assert(out.len() == 512);
        assert(spec_crc(0, s.subrange(0, 496)) == t.crc);
        assert forall|j: int| 0 <= j < 488 implies out[j] == s[j] by {
            let k = j / 24;
            vstd::arithmetic::div_mod::lemma_fundamental_div_mod(j, 24);
            if k < count {
                assert(ebb.subrange(24 * k, 24 * k + 24) == s.subrange(24 * k, 24 * k + 24));
                assert(ebb.subrange(24 * k, 24 * k + 24)[j - 24 * k] == s.subrange(
                    24 * k,
                    24 * k + 24,
                )[j - 24 * k]);
                assert(out[j] == ebb[j]);
            } else {
                assert(24 * count <= j);
                assert(s[j] == 0);
                assert(out[j] == 0);
            }
        }
        assert(out[488] == s[488]);
        assert(out[489] == s[489]);
        assert(out[490] == s[490]);
        assert(out[491] == s[491]);
        assert(out[492] == s[492] && out[493] == s[493] && out[494] == s[494] && out[495]
            == s[495]);
        let cov = ebb + crate::bytes::zero_bytes(488 - 24 * ip.entries.len()) + seq![
            ip.entries.len() as u8,
            20u8,
            24u8,
            ip.level,
        ] + spec_u32_bytes(0);
        assert(out == cov + crate::page::spec_unicode_page_trailer_bytes(
            (UnicodePageTrailer {
                page_type: t.page_type,
                signature: t.signature,
                crc: spec_crc(0, cov),
                block_id: t.block_id,
            }),
        ));
        assert(cov.len() == 496);
        assert(out.subrange(0, 496) =~= cov);
        assert(out.subrange(0, 496) =~= s.subrange(0, 496));
        assert(cov =~= s.subrange(0, 496));
        assert(spec_crc(0, cov) == t.crc);
        crate::page::lemma_unicode_page_trailer_bytes_exact(s, 496, t);
        assert(out =~= s.subrange(0, 496) + s.subrange(496, 512));
        assert(s.subrange(0, 496) + s.subrange(496, 512) =~= s);
    }
}

} // verus!
