use pst::block::{
    block_size, parse_unicode_block_trailer, parse_ansi_block_trailer, parse_unicode_data_block,
    serialize_unicode_block_trailer, serialize_ansi_block_trailer, AnsiBlockTrailer,
    UnicodeBlockTrailer, UnicodeDataBlock, MAX_BLOCK_SIZE,
};
use pst::block_id::{
    AnsiBlockId, UnicodeBlockId, MAX_ANSI_BLOCK_INDEX, MAX_UNICODE_BLOCK_INDEX,
};
use pst::block_ref::UnicodeBlockRef;
use pst::btree::{
    parse_unicode_block_btree_page, parse_unicode_node_btree_page, parse_ansi_block_btree_page,
    serialize_unicode_block_btree_page, serialize_unicode_node_btree_page,
    serialize_ansi_block_btree_page, AnsiBlockBTreeEntry, AnsiBlockBTreeLeafPage,
    AnsiBlockBTreePage, UnicodeBlockBTree, UnicodeBlockBTreeEntry, UnicodeBlockBTreeLeafPage,
    UnicodeBlockBTreePage, UnicodeNodeBTreeEntry, UnicodeNodeBTreeLeafPage, UnicodeNodeBTreePage,
};
use pst::crc::compute_crc;
use pst::data_tree::{
    parse_data_tree_block_header, parse_unicode_data_tree_block, DataTreeBlockHeader,
    UnicodeDataTree, UnicodeDataTreeBlock, UnicodeDataTreeEntry,
};
use pst::encode::{
    cyclic_encode_decode_block, permute_decode_block, permute_encode_block, NdbCryptMethod,
};
use pst::error::{NdbError, PstError};
use pst::header::{parse_unicode_header, serialize_unicode_header, parse_ansi_header};
use pst::node_id::NodeId;
use pst::page::{
    parse_unicode_map_page, parse_unicode_page_trailer, serialize_unicode_page_trailer, PageType,
    UnicodeMapPage, UnicodePageTrailer,
};
use pst::rebuild::{
    mark_page_allocation, unicode_rebuild_allocation_map, AllocationMapPageInfo,
    AMAP_DATA_SIZE, AMAP_FIRST_OFFSET,
};
use pst::root::{parse_unicode_root, serialize_unicode_root, AmapStatus, UnicodeRoot};
use pst::sub_node_tree::{
    parse_unicode_sub_node_header, parse_unicode_sub_node_tree, IntermediateSubNodeTreeEntry,
    LeafSubNodeTreeEntry, SubNodeTreeBlock, UnicodeSubNodeTree, UnicodeSubNodeTreeBlockHeader,
};
use pst::rebuild::ansi_rebuild_allocation_map;
use pst::block_ref::AnsiBlockRef;
use pst::density_list::{
    parse_unicode_density_list_page, DensityListPageEntry, UnicodeDensityListPage,
    MAX_DENSITY_LIST_ENTRIES,
};

#[test]
fn test_unicode_bid_index_overflow() {
    let Err(NdbError::InvalidUnicodeBlockIndex(value)) =
        UnicodeBlockId::new(false, MAX_UNICODE_BLOCK_INDEX + 1)
    else {
        panic!("UnicodeBlockId should be out of range");
    };
    assert_eq!(value, MAX_UNICODE_BLOCK_INDEX + 1);
}

#[test]
fn test_ansi_bid_index_overflow() {
    let Err(NdbError::InvalidAnsiBlockIndex(value)) =
        AnsiBlockId::new(false, MAX_ANSI_BLOCK_INDEX + 1)
    else {
        panic!("AnsiBlockId should be out of range");
    };
    assert_eq!(value, MAX_ANSI_BLOCK_INDEX + 1);
}

#[test]
fn test_block_id_round_trip() {
    let bid = UnicodeBlockId::new(true, 0x1234).unwrap();
    assert!(bid.is_internal());
    assert_eq!(bid.index(), 0x1234);
    let bid = UnicodeBlockId::new(false, MAX_UNICODE_BLOCK_INDEX).unwrap();
    assert!(!bid.is_internal());
    assert_eq!(bid.index(), MAX_UNICODE_BLOCK_INDEX);
    let bid = AnsiBlockId::new(true, MAX_ANSI_BLOCK_INDEX).unwrap();
    assert!(bid.is_internal());
    assert_eq!(bid.index(), MAX_ANSI_BLOCK_INDEX);
    // The mutation bit is ignored by the masked view.
    let raw = UnicodeBlockId::from_raw(0x41);
    assert_eq!(raw.masked(), 0x40);
}

#[test]
fn test_node_id_parts() {
    let nid = NodeId::from_raw(0x0000_0221);
    assert_eq!(nid.id_type(), 1);
    assert_eq!(nid.index(), 0x11);
    assert_eq!(nid.raw(), 0x221);
}

#[test]
fn test_block_size_values() {
    assert_eq!(block_size(0), 64);
    assert_eq!(block_size(1), 64);
    assert_eq!(block_size(64), 64);
    assert_eq!(block_size(65), 128);
    assert_eq!(block_size(128), 128);
    assert_eq!(block_size(129), 192);
    assert_eq!(block_size(8176), 8192);
    assert_eq!(block_size(8192), 8192);
    assert_eq!(block_size(8193), 8192);
    assert_eq!(block_size(u16::MAX), 8192);
    // Within the uncapped range the rule is rounding up to 64.
    for n in [100u16, 1000, 4097, 8129] {
        assert_eq!(block_size(n), n.div_ceil(64) * 64);
    }
}

#[test]
fn test_crc_values() {
    assert_eq!(compute_crc(0, &[]), 0);
    assert_eq!(compute_crc(0, &[1, 2, 3]), 0xAAFD_590F);
    assert_eq!(compute_crc(0, b"abc"), 0xCA65_98D0);
    // Order-sensitive.
    assert_ne!(compute_crc(0, &[2, 1, 3]), compute_crc(0, &[1, 2, 3]));
}

#[test]
fn test_permute_round_trip_512() {
    let payload: Vec<u8> = (0..512u32).map(|i| (i * 7 + 3) as u8).collect();
    let mut buf = payload.clone();
    permute_encode_block(&mut buf);
    assert_ne!(buf, payload);
    permute_decode_block(&mut buf);
    assert_eq!(buf, payload);
}

#[test]
fn test_permute_byte_value() {
    let mut buf = vec![0u8, 1u8];
    permute_encode_block(&mut buf);
    assert_eq!(buf, vec![13u8, 180u8]);
}

#[test]
fn test_cyclic_round_trip_key() {
    let payload: Vec<u8> = (0..512u32).map(|i| (i % 251) as u8).collect();
    let mut buf = payload.clone();
    cyclic_encode_decode_block(&mut buf, 0xDEAD_BEEF);
    assert_ne!(buf, payload);
    cyclic_encode_decode_block(&mut buf, 0xDEAD_BEEF);
    assert_eq!(buf, payload);
}

#[test]
fn test_crypt_method_codes() {
    assert_eq!(NdbCryptMethod::from_u8(0).unwrap(), NdbCryptMethod::NoCrypt);
    assert_eq!(NdbCryptMethod::from_u8(1).unwrap(), NdbCryptMethod::Permute);
    assert_eq!(NdbCryptMethod::from_u8(2).unwrap(), NdbCryptMethod::Cyclic);
    assert!(matches!(
        NdbCryptMethod::from_u8(9),
        Err(NdbError::InvalidCryptMethod(9))
    ));
}

#[test]
fn test_unicode_block_trailer_round_trip() {
    let t = UnicodeBlockTrailer::new(100, 0x1122, 0xDEAD_BEEF, UnicodeBlockId::from_raw(0x40))
        .unwrap();
    let mut buf: Vec<u8> = Vec::new();
    serialize_unicode_block_trailer(&t, &mut buf);
    assert_eq!(buf.len(), 16);
    let back = parse_unicode_block_trailer(&buf, 0).unwrap();
    assert_eq!(back, t);
}

#[test]
fn test_ansi_block_trailer_round_trip() {
    let t = AnsiBlockTrailer::new(42, 7, 0x0102_0304, AnsiBlockId::from_raw(0x80)).unwrap();
    let mut buf: Vec<u8> = Vec::new();
    serialize_ansi_block_trailer(&t, &mut buf);
    assert_eq!(buf.len(), 12);
    let back = parse_ansi_block_trailer(&buf, 0).unwrap();
    assert_eq!(back, t);
}

#[test]
fn test_block_trailer_rejects_size() {
    assert!(matches!(
        UnicodeBlockTrailer::new(0, 0, 0, UnicodeBlockId::from_raw(0)),
        Err(NdbError::InvalidBlockSize(0))
    ));
    let over = MAX_BLOCK_SIZE - 16 + 1;
    assert!(matches!(
        UnicodeBlockTrailer::new(over, 0, 0, UnicodeBlockId::from_raw(0)),
        Err(NdbError::InvalidBlockSize(v)) if v == over
    ));
}

#[test]
fn test_unicode_page_trailer_round_trip() {
    let t = UnicodePageTrailer::new(
        PageType::NodeBTree,
        0x5566,
        UnicodeBlockId::from_raw(0x4400),
        0xCAFE_F00D,
    );
    let mut buf: Vec<u8> = Vec::new();
    serialize_unicode_page_trailer(&t, &mut buf);
    assert_eq!(buf.len(), 16);
    assert_eq!(buf[0], 0x81);
    assert_eq!(buf[1], 0x81);
    let back = parse_unicode_page_trailer(&buf, 0).unwrap();
    assert_eq!(back, t);
}

#[test]
fn test_page_type_codes() {
    assert_eq!(PageType::from_u8(0x84).unwrap(), PageType::AllocationMap);
    assert!(matches!(
        PageType::from_u8(0x42),
        Err(NdbError::UnexpectedPageType(0x42))
    ));
    // A mismatched duplicate type byte is rejected.
    let mut buf = vec![0u8; 16];
    buf[0] = 0x80;
    buf[1] = 0x81;
    assert!(matches!(
        parse_unicode_page_trailer(&buf, 0),
        Err(NdbError::UnexpectedPageType(0x81))
    ));
}

#[test]
fn test_unicode_map_page_round_trip() {
    let mut bits = vec![0u8; 496];
    bits[0] = 0xFF;
    bits[1] = 0xFF;
    let trailer = UnicodePageTrailer::new(
        PageType::AllocationMap,
        0,
        UnicodeBlockId::from_raw(0x4400),
        0,
    );
    let page = UnicodeMapPage::new(bits, trailer);
    let mut buf: Vec<u8> = Vec::new();
    page.write_to(&mut buf);
    assert_eq!(buf.len(), 512);
    let back = parse_unicode_map_page(&buf, 0, PageType::AllocationMap).unwrap();
    assert_eq!(back.map_bits()[0], 0xFF);
    assert_eq!(back.map_bits()[2], 0);
    assert_eq!(back.trailer().crc(), compute_crc(0, &buf[..496]));
    // One flipped bitmap byte fails the CRC check.
    let mut bad = buf.clone();
    bad[5] ^= 1;
    assert!(matches!(
        parse_unicode_map_page(&bad, 0, PageType::AllocationMap),
        Err(NdbError::InvalidPageCrc(_))
    ));
    // The wrong expected page kind is refused.
    assert!(matches!(
        parse_unicode_map_page(&buf, 0, PageType::FreeMap),
        Err(NdbError::UnexpectedPageType(0x84))
    ));
}

fn build_data_block(data: &[u8], encoding: NdbCryptMethod, bid: UnicodeBlockId) -> Vec<u8> {
    let trailer =
        UnicodeBlockTrailer::new(data.len() as u16, 0x5AA5, 0, bid).unwrap();
    let block = UnicodeDataBlock::new(encoding, data.to_vec(), trailer).unwrap();
    let mut buf: Vec<u8> = Vec::new();
    block.write_to(&mut buf);
    buf
}

#[test]
fn test_unicode_data_block_round_trip() {
    let data = [1u8, 2, 3, 4, 5];
    for encoding in [NdbCryptMethod::NoCrypt, NdbCryptMethod::Permute, NdbCryptMethod::Cyclic] {
        let buf = build_data_block(&data, encoding, UnicodeBlockId::from_raw(0x40));
        assert_eq!(buf.len(), 64);
        let back = parse_unicode_data_block(&buf, 0, data.len() as u16, encoding).unwrap();
        assert_eq!(back.data().as_slice(), &data);
        assert_eq!(back.trailer().size(), data.len() as u16);
        assert_eq!(back.trailer().signature(), 0x5AA5);
    }
    // The permute codec really transforms the stored payload.
    let buf = build_data_block(&data, NdbCryptMethod::Permute, UnicodeBlockId::from_raw(0x40));
    assert_ne!(&buf[..5], &data);
}

#[test]
fn test_data_block_rejects_internal_id() {
    let internal = UnicodeBlockId::new(true, 7).unwrap();
    let trailer = UnicodeBlockTrailer::new(3, 0, 0, internal).unwrap();
    assert!(matches!(
        UnicodeDataBlock::new(NdbCryptMethod::NoCrypt, vec![1, 2, 3], trailer),
        Err(NdbError::InvalidUnicodeBlockTrailerId(_))
    ));
}

#[test]
fn test_data_block_crc_mismatch() {
    let data = [9u8; 32];
    let mut buf = build_data_block(&data, NdbCryptMethod::NoCrypt, UnicodeBlockId::from_raw(0x40));
    buf[0] ^= 0xFF;
    assert!(matches!(
        parse_unicode_data_block(&buf, 0, 32, NdbCryptMethod::NoCrypt),
        Err(NdbError::InvalidBlockCrc(_))
    ));
}

#[test]
fn test_unicode_root_round_trip() {
    let root = UnicodeRoot::new(
        0x10_0000,
        0x4400,
        1234,
        5678,
        UnicodeBlockRef::new(UnicodeBlockId::from_raw(0x2AA), 0x4800),
        UnicodeBlockRef::new(UnicodeBlockId::from_raw(0x2AE), 0x4A00),
        AmapStatus::Valid,
    );
    let mut buf: Vec<u8> = Vec::new();
    serialize_unicode_root(&root, &mut buf);
    assert_eq!(buf.len(), 72);
    let back = parse_unicode_root(&buf, 0);
    assert_eq!(back, root);
}

#[test]
fn test_amap_status_codes() {
    assert_eq!(AmapStatus::from_u8(0), AmapStatus::Invalid);
    assert_eq!(AmapStatus::from_u8(1), AmapStatus::PartiallyValid);
    assert_eq!(AmapStatus::from_u8(2), AmapStatus::Valid);
    // Unknown statuses read as Invalid.
    assert_eq!(AmapStatus::from_u8(77), AmapStatus::Invalid);
}

fn build_unicode_header(
    eof: u64,
    status: u8,
    nbt: (u64, u64),
    bbt: (u64, u64),
    crypt: u8,
) -> Vec<u8> {
    let mut h = vec![0u8; 564];
    h[0..4].copy_from_slice(&[0x21, 0x42, 0x44, 0x4E]);
    h[8..10].copy_from_slice(&[0x53, 0x4D]);
    h[10..12].copy_from_slice(&23u16.to_le_bytes());
    h[513] = crypt;
    // ROOT
    h[184..192].copy_from_slice(&eof.to_le_bytes());
    h[216..224].copy_from_slice(&nbt.0.to_le_bytes());
    h[224..232].copy_from_slice(&nbt.1.to_le_bytes());
    h[232..240].copy_from_slice(&bbt.0.to_le_bytes());
    h[240..248].copy_from_slice(&bbt.1.to_le_bytes());
    h[248] = status;
    h
}

#[test]
fn test_unicode_header_parse_and_rewrite() {
    let hb = build_unicode_header(0x10_0000, 2, (0x42, 0x4800), (0x46, 0x4A00), 1);
    let h = parse_unicode_header(&hb).unwrap();
    assert_eq!(h.version, 23);
    assert_eq!(h.crypt_method, NdbCryptMethod::Permute);
    assert_eq!(h.root.file_eof_index, 0x10_0000);
    assert_eq!(h.root.amap_is_valid, AmapStatus::Valid);
    assert_eq!(h.root.node_btree.index, 0x4800);
    assert_eq!(h.root.block_btree.index, 0x4A00);
    let out = serialize_unicode_header(&h);
    assert_eq!(out.len(), 564);
    let back = parse_unicode_header(&out).unwrap();
    assert_eq!(back.root, h.root);
    assert_eq!(back.crypt_method, h.crypt_method);
    // The rewritten image carries its partial CRC over bytes [8, 479).
    let pc = u32::from_le_bytes(out[4..8].try_into().unwrap());
    assert_eq!(pc, compute_crc(0, &out[8..479]));
}

#[test]
fn test_header_rejects() {
    let mut hb = build_unicode_header(0x10_0000, 2, (0, 0), (0, 0), 0);
    hb[0] = 0x22;
    assert!(matches!(
        parse_unicode_header(&hb),
        Err(NdbError::InvalidHeaderMagic(_))
    ));
    let mut hb = build_unicode_header(0x10_0000, 2, (0, 0), (0, 0), 0);
    hb[10..12].copy_from_slice(&14u16.to_le_bytes());
    assert!(matches!(parse_unicode_header(&hb), Err(NdbError::InvalidVersion(14))));
    let hb = build_unicode_header(0x10_0000, 2, (0, 0), (0, 0), 0x10);
    assert!(matches!(
        parse_unicode_header(&hb),
        Err(NdbError::InvalidCryptMethod(0x10))
    ));
    // A 32-bit-width header is rejected by the 64-bit parse and accepted
    // by its own.
    let mut ab = vec![0u8; 512];
    ab[0..4].copy_from_slice(&[0x21, 0x42, 0x44, 0x4E]);
    ab[8..10].copy_from_slice(&[0x53, 0x4D]);
    ab[10..12].copy_from_slice(&14u16.to_le_bytes());
    let ah = parse_ansi_header(&ab).unwrap();
    assert_eq!(ah.version, 14);
    assert_eq!(ah.root.amap_is_valid, AmapStatus::Invalid);
}

/// A 512-byte block-B-tree leaf page with the given 24-byte entries.
fn build_unicode_bbt_leaf_page(entries: &[[u8; 24]], bid: u64) -> Vec<u8> {
    let mut p = vec![0u8; 512];
    for (k, e) in entries.iter().enumerate() {
        p[24 * k..24 * k + 24].copy_from_slice(e);
    }
    p[488] = entries.len() as u8;
    p[489] = 20;
    p[490] = 24;
    p[491] = 0;
    let crc = compute_crc(0, &p[..496]);
    p[496] = 0x80;
    p[497] = 0x80;
    p[500..504].copy_from_slice(&crc.to_le_bytes());
    p[504..512].copy_from_slice(&bid.to_le_bytes());
    p
}

fn bbt_entry(bid: u64, ib: u64, cb: u16, cref: u16) -> [u8; 24] {
    let mut e = [0u8; 24];
    e[0..8].copy_from_slice(&bid.to_le_bytes());
    e[8..16].copy_from_slice(&ib.to_le_bytes());
    e[16..18].copy_from_slice(&cb.to_le_bytes());
    e[18..20].copy_from_slice(&cref.to_le_bytes());
    e
}

#[test]
fn test_unicode_btree_leaf_page_parse_and_find() {
    let entries = [bbt_entry(0x40, 0x8000, 100, 2), bbt_entry(0x80, 0x9000, 200, 1)];
    let file = build_unicode_bbt_leaf_page(&entries, 0x4400);
    let page = parse_unicode_block_btree_page(&file, 0).unwrap();
    match &page {
        UnicodeBlockBTreePage::Leaf(lp) => {
            assert_eq!(lp.entries.len(), 2);
            assert_eq!(lp.entries[0].block().block().to_raw(), 0x40);
            assert_eq!(lp.entries[0].block().index(), 0x8000);
            assert_eq!(lp.entries[0].size(), 100);
            assert_eq!(lp.entries[0].ref_count(), 2);
        }
        UnicodeBlockBTreePage::Intermediate(_) => panic!("expected a leaf page"),
    }
    let tree = UnicodeBlockBTree::read(&file, UnicodeBlockRef::new(UnicodeBlockId::from_raw(0), 0))
        .unwrap();
    let hit = tree.find_entry(&file, 0x80).unwrap();
    assert_eq!(hit.size(), 200);
    // A key with the mutation bit set still finds its entry.
    let hit = tree.find_entry(&file, 0x40).unwrap();
    assert_eq!(hit.size(), 100);
    assert!(matches!(
        tree.find_entry(&file, 0x44),
        Err(NdbError::BTreeEntryNotFound(0x44))
    ));
    // One corrupted byte in the entry region fails the page CRC. (The
    // byte sits inside the first entry, so the stored CRC no longer
    // matches.)
    let mut bad = file.clone();
    bad[3] ^= 0x40;
    assert!(matches!(
        parse_unicode_block_btree_page(&bad, 0),
        Err(NdbError::InvalidPageCrc(_))
    ));
}

#[test]
fn test_btree_page_level_rejected() {
    let mut p = build_unicode_bbt_leaf_page(&[], 0x4400);
    p[491] = 9;
    let crc = compute_crc(0, &p[..496]);
    p[500..504].copy_from_slice(&crc.to_le_bytes());
    assert!(matches!(
        parse_unicode_block_btree_page(&p, 0),
        Err(NdbError::InvalidBTreePageLevel(9))
    ));
}

#[test]
fn test_sub_node_leaf_find() {
    let header = UnicodeSubNodeTreeBlockHeader::new(0, 2);
    let internal = UnicodeBlockId::new(true, 3).unwrap();
    let entries = vec![
        LeafSubNodeTreeEntry::new(
            NodeId::from_raw(0x21),
            UnicodeBlockId::from_raw(0x100),
            None,
        ),
        LeafSubNodeTreeEntry::new(
            NodeId::from_raw(0x41),
            UnicodeBlockId::from_raw(0x200),
            Some(UnicodeBlockId::from_raw(0x300)),
        ),
    ];
    let trailer = UnicodeBlockTrailer::new(56, 0, 0, internal).unwrap();
    let block = SubNodeTreeBlock::new(header, entries, trailer).unwrap();
    let tree = UnicodeSubNodeTree::Leaf(block);
    let bt = UnicodeBlockBTree { root: UnicodeBlockRef::new(UnicodeBlockId::from_raw(0), 0) };
    let empty: [u8; 0] = [];
    let hit = tree.find_entry(&empty, &bt, NodeId::from_raw(0x41)).unwrap();
    assert_eq!(hit.to_raw(), 0x200);
    assert!(matches!(
        tree.find_entry(&empty, &bt, NodeId::from_raw(0x99)),
        Err(NdbError::SubNodeNotFound(n)) if n.raw() == 0x99
    ));
    let all = tree.entries(&empty, &bt).unwrap();
    assert_eq!(all.len(), 2);
    assert_eq!(all[1].sub_node().unwrap().to_raw(), 0x300);
}

#[test]
fn test_sub_node_header_padding() {
    let mut buf = vec![0u8; 8];
    buf[0] = 0x02;
    buf[4] = 1;
    assert!(matches!(
        parse_unicode_sub_node_header(&buf, 0),
        Err(NdbError::InvalidSubNodeBlockPadding(1))
    ));
}

#[test]
fn test_data_tree_header_parse() {
    let mut buf = vec![0u8; 8];
    buf[0] = 0x01;
    buf[1] = 2;
    buf[2..4].copy_from_slice(&5u16.to_le_bytes());
    buf[4..8].copy_from_slice(&0xAABB_CCDDu32.to_le_bytes());
    let h = parse_data_tree_block_header(&buf, 0).unwrap();
    assert_eq!(h, DataTreeBlockHeader::new(2, 5, 0xAABB_CCDD));
    assert_eq!(h.total_size(), 0xAABB_CCDD);
    buf[0] = 0x03;
    assert!(matches!(
        parse_data_tree_block_header(&buf, 0),
        Err(NdbError::InvalidInternalBlockType(0x03))
    ));
}

#[test]
fn test_data_tree_leaf_blocks() {
    let data = [7u8, 8, 9];
    let trailer = UnicodeBlockTrailer::new(3, 0, compute_crc(0, &data), UnicodeBlockId::from_raw(
        0x40,
    ))
    .unwrap();
    let block = UnicodeDataBlock::new(NdbCryptMethod::NoCrypt, data.to_vec(), trailer).unwrap();
    let tree = UnicodeDataTree::Leaf(block);
    let bt = UnicodeBlockBTree { root: UnicodeBlockRef::new(UnicodeBlockId::from_raw(0), 0) };
    let empty: [u8; 0] = [];
    let blocks = tree.blocks(&empty, NdbCryptMethod::NoCrypt, &bt).unwrap();
    assert_eq!(blocks.len(), 1);
    assert_eq!(blocks[0].data().as_slice(), &data);
    let entry = UnicodeDataTreeEntry::new(UnicodeBlockId::from_raw(0x42));
    assert_eq!(entry.block().to_raw(), 0x42);
}

#[test]
fn test_mark_page_allocation() {
    let mut bits = vec![0u8; 496];
    bits[0] = 0xFF;
    let trailer = UnicodePageTrailer::new(
        PageType::AllocationMap,
        0,
        UnicodeBlockId::from_raw(AMAP_FIRST_OFFSET),
        0,
    );
    let info = AllocationMapPageInfo {
        amap_page: UnicodeMapPage::new(bits, trailer),
        free_space: AMAP_DATA_SIZE - 512,
    };
    let mut pages = vec![info];
    // Mark the page at offset 0x4400 + 1024: bit 16, so bitmap byte 2.
    mark_page_allocation(AMAP_FIRST_OFFSET + 1024, &mut pages).unwrap();
    assert_eq!(pages[0].amap_page.map_bits()[2], 0xFF);
    assert_eq!(pages[0].free_space, AMAP_DATA_SIZE - 1024);
    // An offset beyond the covered span names a missing AMap page.
    assert!(matches!(
        mark_page_allocation(AMAP_FIRST_OFFSET + AMAP_DATA_SIZE, &mut pages),
        Err(PstError::AllocationMapPageNotFound(1))
    ));
}

/// A 512-byte node-B-tree leaf page with no entries.
fn build_unicode_nbt_empty_leaf_page(bid: u64) -> Vec<u8> {
    let mut p = vec![0u8; 512];
    p[488] = 0;
    p[489] = 15;
    p[490] = 32;
    p[491] = 0;
    let crc = compute_crc(0, &p[..496]);
    p[496] = 0x81;
    p[497] = 0x81;
    p[500..504].copy_from_slice(&crc.to_le_bytes());
    p[504..512].copy_from_slice(&bid.to_le_bytes());
    p
}

#[test]
fn test_unicode_rebuild_allocation_map() {
    let nbt_off: u64 = AMAP_FIRST_OFFSET + 1024;
    let bbt_off: u64 = AMAP_FIRST_OFFSET + 1536;
    let len = (AMAP_FIRST_OFFSET + AMAP_DATA_SIZE) as usize;
    let mut file = vec![0u8; len];
    let header = build_unicode_header(len as u64, 0, (0x42, nbt_off), (0x46, bbt_off), 0);
    file[..564].copy_from_slice(&header);
    let nbt = build_unicode_nbt_empty_leaf_page(nbt_off);
    file[nbt_off as usize..nbt_off as usize + 512].copy_from_slice(&nbt);
    let bbt = build_unicode_bbt_leaf_page(&[], bbt_off);
    file[bbt_off as usize..bbt_off as usize + 512].copy_from_slice(&bbt);

    let out = unicode_rebuild_allocation_map(&file).unwrap();
    assert_eq!(out.len(), file.len());
    let h2 = parse_unicode_header(&out).unwrap();
    assert_eq!(h2.root.amap_is_valid, AmapStatus::Valid);
    // One AMap page: 2 pages reserved for the maps, 2 B-tree pages marked.
    assert_eq!(h2.root.amap_free_size, AMAP_DATA_SIZE - 4 * 512);
    // The AMap page at its canonical offset: reserved bytes, then the two
    // marked pages at bitmap bytes 2 and 3.
    let amap = &out[AMAP_FIRST_OFFSET as usize..AMAP_FIRST_OFFSET as usize + 512];
    assert_eq!(amap[0], 0xFF);
    assert_eq!(amap[1], 0xFF);
    assert_eq!(amap[2], 0xFF);
    assert_eq!(amap[3], 0xFF);
    assert_eq!(amap[4], 0);
    assert_eq!(amap[496], 0x84);
    // One AMap page yields no PMap page (their count is num / 8), so the
    // slot the AMap reserved for it stays zeroed.
    let pmap = &out[0x4600..0x4600 + 512];
    assert_eq!(pmap[0], 0);
    // Both map pages carry the CRC of the bytes they protect.
    assert_eq!(
        u32::from_le_bytes(amap[500..504].try_into().unwrap()),
        compute_crc(0, &amap[..496])
    );

    // Rebuilding the result observes a valid status and changes nothing.
    let again = unicode_rebuild_allocation_map(&out).unwrap();
    assert_eq!(again, out);

    // A file whose maps are already valid is returned unchanged.
    let mut valid_file = file.clone();
    valid_file[248] = 2;
    let same = unicode_rebuild_allocation_map(&valid_file).unwrap();
    assert_eq!(same, valid_file);
}

#[test]
fn test_rebuild_reports_missing_amap_page() {
    // A B-tree page whose trailer block id lies beyond the covered span
    // aborts the rebuild.
    let nbt_off: u64 = AMAP_FIRST_OFFSET + 1024;
    let bbt_off: u64 = AMAP_FIRST_OFFSET + 1536;
    let len = (AMAP_FIRST_OFFSET + AMAP_DATA_SIZE) as usize;
    let mut file = vec![0u8; len];
    let header = build_unicode_header(len as u64, 0, (0x42, nbt_off), (0x46, bbt_off), 0);
    file[..564].copy_from_slice(&header);
    // The node page claims an offset past the single AMap page's span.
    let nbt = build_unicode_nbt_empty_leaf_page(AMAP_FIRST_OFFSET + AMAP_DATA_SIZE + 64);
    file[nbt_off as usize..nbt_off as usize + 512].copy_from_slice(&nbt);
    let bbt = build_unicode_bbt_leaf_page(&[], bbt_off);
    file[bbt_off as usize..bbt_off as usize + 512].copy_from_slice(&bbt);
    assert!(matches!(
        unicode_rebuild_allocation_map(&file),
        Err(PstError::AllocationMapPageNotFound(1))
    ));
}

#[test]
fn test_unicode_block_btree_page_serialize_round_trip() {
    let entries = vec![
        UnicodeBlockBTreeEntry {
            block: UnicodeBlockRef::new(UnicodeBlockId::from_raw(0x40), 0x8000),
            size: 100,
            ref_count: 2,
        },
        UnicodeBlockBTreeEntry {
            block: UnicodeBlockRef::new(UnicodeBlockId::from_raw(0x80), 0x9000),
            size: 64,
            ref_count: 1,
        },
    ];
    let trailer = UnicodePageTrailer::new(
        PageType::BlockBTree,
        0x1234,
        UnicodeBlockId::from_raw(0x4400),
        0,
    );
    let page = UnicodeBlockBTreePage::Leaf(UnicodeBlockBTreeLeafPage { entries, trailer });
    let mut s1: Vec<u8> = Vec::new();
    serialize_unicode_block_btree_page(&page, &mut s1);
    assert_eq!(s1.len(), 512);
    let page2 = parse_unicode_block_btree_page(&s1, 0).unwrap();
    match &page2 {
        UnicodeBlockBTreePage::Leaf(lp) => {
            assert_eq!(lp.entries.len(), 2);
            assert_eq!(lp.entries[0].size, 100);
            assert_eq!(lp.entries[1].block.index, 0x9000);
            assert_eq!(lp.trailer.signature, 0x1234);
        }
        UnicodeBlockBTreePage::Intermediate(_) => panic!("expected a leaf page"),
    }
    // Serializing the parsed page reproduces the buffer byte for byte.
    let mut s2: Vec<u8> = Vec::new();
    serialize_unicode_block_btree_page(&page2, &mut s2);
    assert_eq!(s1, s2);
}

#[test]
fn test_unicode_node_btree_page_serialize_round_trip() {
    let entries = vec![
        UnicodeNodeBTreeEntry {
            node: NodeId::from_raw(0x21),
            data: UnicodeBlockId::from_raw(0x40),
            sub_node: None,
            parent: NodeId::from_raw(0x122),
        },
        UnicodeNodeBTreeEntry {
            node: NodeId::from_raw(0x42),
            data: UnicodeBlockId::from_raw(0x80),
            sub_node: Some(UnicodeBlockId::from_raw(0x86)),
            parent: NodeId::from_raw(0x122),
        },
    ];
    let trailer = UnicodePageTrailer::new(
        PageType::NodeBTree,
        0,
        UnicodeBlockId::from_raw(0x4400),
        0,
    );
    let page = UnicodeNodeBTreePage::Leaf(UnicodeNodeBTreeLeafPage { entries, trailer });
    let mut s1: Vec<u8> = Vec::new();
    serialize_unicode_node_btree_page(&page, &mut s1);
    let page2 = parse_unicode_node_btree_page(&s1, 0).unwrap();
    match &page2 {
        UnicodeNodeBTreePage::Leaf(lp) => {
            assert_eq!(lp.entries.len(), 2);
            assert_eq!(lp.entries[0].sub_node, None);
            assert_eq!(lp.entries[1].sub_node.unwrap().to_raw(), 0x86);
        }
        UnicodeNodeBTreePage::Intermediate(_) => panic!("expected a leaf page"),
    }
    let mut s2: Vec<u8> = Vec::new();
    serialize_unicode_node_btree_page(&page2, &mut s2);
    assert_eq!(s1, s2);
}

#[test]
fn test_ansi_block_btree_page_serialize_round_trip() {
    let entries = vec![AnsiBlockBTreeEntry {
        block: AnsiBlockRef::new(AnsiBlockId::from_raw(0x40), 0x8000),
        size: 77,
        ref_count: 3,
    }];
    let trailer = pst::page::AnsiPageTrailer::new(
        PageType::BlockBTree,
        0,
        AnsiBlockId::from_raw(0x4400),
        0,
    );
    let page = AnsiBlockBTreePage::Leaf(AnsiBlockBTreeLeafPage { entries, trailer });
    let mut s1: Vec<u8> = Vec::new();
    serialize_ansi_block_btree_page(&page, &mut s1);
    assert_eq!(s1.len(), 512);
    let page2 = parse_ansi_block_btree_page(&s1, 0).unwrap();
    let mut s2: Vec<u8> = Vec::new();
    serialize_ansi_block_btree_page(&page2, &mut s2);
    assert_eq!(s1, s2);
}

#[test]
fn test_data_tree_block_serialize_round_trip() {
    let internal = UnicodeBlockId::new(true, 9).unwrap();
    let block = UnicodeDataTreeBlock {
        header: DataTreeBlockHeader::new(1, 2, 4096),
        entries: vec![
            UnicodeDataTreeEntry::new(UnicodeBlockId::from_raw(0x40)),
            UnicodeDataTreeEntry::new(UnicodeBlockId::from_raw(0x80)),
        ],
        trailer: UnicodeBlockTrailer::new(24, 0x77, 0, internal).unwrap(),
    };
    let mut s1: Vec<u8> = Vec::new();
    block.write_to(&mut s1);
    assert_eq!(s1.len(), 64);
    let back = parse_unicode_data_tree_block(&s1, 0, 24).unwrap();
    assert_eq!(back.header, block.header);
    assert_eq!(back.entries, block.entries);
    assert_eq!(back.trailer.size, 24);
    let mut s2: Vec<u8> = Vec::new();
    back.write_to(&mut s2);
    assert_eq!(s1, s2);
}

#[test]
fn test_sub_node_block_serialize_round_trip() {
    let internal = UnicodeBlockId::new(true, 3).unwrap();
    let header = UnicodeSubNodeTreeBlockHeader::new(0, 2);
    let entries = vec![
        LeafSubNodeTreeEntry::new(NodeId::from_raw(0x21), UnicodeBlockId::from_raw(0x100), None),
        LeafSubNodeTreeEntry::new(
            NodeId::from_raw(0x41),
            UnicodeBlockId::from_raw(0x200),
            Some(UnicodeBlockId::from_raw(0x300)),
        ),
    ];
    let trailer = UnicodeBlockTrailer::new(56, 0, 0, internal).unwrap();
    let block = SubNodeTreeBlock::new(header, entries, trailer).unwrap();
    let tree = UnicodeSubNodeTree::Leaf(block);
    let mut s1: Vec<u8> = Vec::new();
    tree.write_to(&mut s1);
    assert_eq!(s1.len(), 128);
    let back = parse_unicode_sub_node_tree(&s1, 0, 56).unwrap();
    match &back {
        UnicodeSubNodeTree::Leaf(lb) => {
            assert_eq!(lb.header, header);
            assert_eq!(lb.entries.len(), 2);
            assert_eq!(lb.entries[1].sub_node().unwrap().to_raw(), 0x300);
        }
        UnicodeSubNodeTree::Intermediate(_) => panic!("expected a leaf block"),
    }
    let mut s2: Vec<u8> = Vec::new();
    back.write_to(&mut s2);
    assert_eq!(s1, s2);
}

#[test]
fn test_sub_node_intermediate_descent() {
    // A two-level sub-node tree laid out in a small file image: the block
    // B-tree root page at offset 0 resolves the SI entry's child id to the
    // SL block stored at offset 512.
    let sl_bid = UnicodeBlockId::new(true, 5).unwrap();
    let sl_header = UnicodeSubNodeTreeBlockHeader::new(0, 1);
    let sl_entries = vec![LeafSubNodeTreeEntry::new(
        NodeId::from_raw(0x61),
        UnicodeBlockId::from_raw(0x700),
        None,
    )];
    let sl_trailer = UnicodeBlockTrailer::new(32, 0, 0, sl_bid).unwrap();
    let sl = UnicodeSubNodeTree::Leaf(
        SubNodeTreeBlock::new(sl_header, sl_entries, sl_trailer).unwrap(),
    );
    let mut sl_bytes: Vec<u8> = Vec::new();
    sl.write_to(&mut sl_bytes);
    assert_eq!(sl_bytes.len(), 64);

    let bbt_page = build_unicode_bbt_leaf_page(&[bbt_entry(sl_bid.masked(), 512, 32, 1)], 0);
    let mut file = vec![0u8; 576];
    file[..512].copy_from_slice(&bbt_page);
    file[512..].copy_from_slice(&sl_bytes);

    let si_header = UnicodeSubNodeTreeBlockHeader::new(1, 1);
    let si_entries = vec![IntermediateSubNodeTreeEntry::new(NodeId::from_raw(0x21), sl_bid)];
    let si_trailer = UnicodeBlockTrailer::new(24, 0, 0, UnicodeBlockId::new(true, 6).unwrap())
        .unwrap();
    let si = UnicodeSubNodeTree::Intermediate(
        SubNodeTreeBlock::new(si_header, si_entries, si_trailer).unwrap(),
    );
    let bt = UnicodeBlockBTree { root: UnicodeBlockRef::new(UnicodeBlockId::from_raw(0), 0) };
    // The prefix rule keeps the last entry whose node id is at most the
    // target, then the leaf is scanned for equality.
    let hit = si.find_entry(&file, &bt, NodeId::from_raw(0x61)).unwrap();
    assert_eq!(hit.to_raw(), 0x700);
    // A target below every SI key finds nothing.
    assert!(matches!(
        si.find_entry(&file, &bt, NodeId::from_raw(0x1)),
        Err(NdbError::SubNodeNotFound(_))
    ));
    // Flattening yields the leaf entries.
    let all = si.entries(&file, &bt).unwrap();
    assert_eq!(all.len(), 1);
    assert_eq!(all[0].node().raw(), 0x61);
}

#[test]
fn test_ansi_rebuild_no_op_when_valid() {
    let mut hb = vec![0u8; 0x4400 + 512];
    hb[0..4].copy_from_slice(&[0x21, 0x42, 0x44, 0x4E]);
    hb[8..10].copy_from_slice(&[0x53, 0x4D]);
    hb[10..12].copy_from_slice(&15u16.to_le_bytes());
    // ROOT at 164: eof at +4, status at +36 reads Valid.
    let eof = hb.len() as u32;
    hb[168..172].copy_from_slice(&eof.to_le_bytes());
    hb[200] = 2;
    let out = ansi_rebuild_allocation_map(&hb).unwrap();
    assert_eq!(out, hb);
}

#[test]
fn test_data_tree_intermediate_flattening() {
    // A level-1 fan-out block over two leaf data blocks, resolved through
    // a block B-tree page stored at offset 0 of a small file image. The
    // flattened payloads appear in entry order and their total length is
    // the fan-out header's total size.
    let d1: Vec<u8> = (1u8..=10).collect();
    let d2: Vec<u8> = (50u8..=61).collect();
    let bid1 = UnicodeBlockId::new(false, 1).unwrap();
    let bid2 = UnicodeBlockId::new(false, 2).unwrap();
    let b1 = build_data_block(&d1, NdbCryptMethod::NoCrypt, bid1);
    let b2 = build_data_block(&d2, NdbCryptMethod::NoCrypt, bid2);
    let bbt_page = build_unicode_bbt_leaf_page(
        &[
            bbt_entry(bid1.masked(), 512, d1.len() as u16, 1),
            bbt_entry(bid2.masked(), 576, d2.len() as u16, 1),
        ],
        0,
    );
    let mut file = vec![0u8; 640];
    file[..512].copy_from_slice(&bbt_page);
    file[512..576].copy_from_slice(&b1);
    file[576..640].copy_from_slice(&b2);

    let total = (d1.len() + d2.len()) as u32;
    let x = UnicodeDataTreeBlock {
        header: DataTreeBlockHeader::new(1, 2, total),
        entries: vec![UnicodeDataTreeEntry::new(bid1), UnicodeDataTreeEntry::new(bid2)],
        trailer: UnicodeBlockTrailer::new(24, 0, 0, UnicodeBlockId::new(true, 9).unwrap())
            .unwrap(),
    };
    let tree = UnicodeDataTree::Intermediate(x);
    let bt = UnicodeBlockBTree { root: UnicodeBlockRef::new(UnicodeBlockId::from_raw(0), 0) };
    let blocks = tree.blocks(&file, NdbCryptMethod::NoCrypt, &bt).unwrap();
    assert_eq!(blocks.len(), 2);
    let mut stream: Vec<u8> = Vec::new();
    for b in &blocks {
        stream.extend_from_slice(b.data());
    }
    let mut expected = d1.clone();
    expected.extend_from_slice(&d2);
    assert_eq!(stream, expected);
    match &tree {
        UnicodeDataTree::Intermediate(xb) => {
            assert_eq!(stream.len() as u32, xb.header().total_size());
        }
        UnicodeDataTree::Leaf(_) => panic!("expected a fan-out block"),
    }
}

#[test]
fn test_density_list_entry_packing() {
    let e = DensityListPageEntry::new(0xABCDE, 0x123);
    assert_eq!(e.page(), 0xABCDE);
    assert_eq!(e.free_slots(), 0x123);
    assert_eq!(e.0, (0x123 << 20) | 0xABCDE);
}

#[test]
fn test_unicode_density_list_round_trip() {
    let entries = vec![
        DensityListPageEntry::new(3, 100),
        DensityListPageEntry::new(7, 4095),
    ];
    let trailer = UnicodePageTrailer::new(
        PageType::DensityList,
        0,
        UnicodeBlockId::from_raw(0x4200),
        0,
    );
    let page = UnicodeDensityListPage::new(true, 5, entries, trailer).unwrap();
    let mut buf: Vec<u8> = Vec::new();
    page.write_to(&mut buf);
    assert_eq!(buf.len(), 512);
    assert_eq!(buf[0], 0x01);
    assert_eq!(buf[1], 2);
    let back = parse_unicode_density_list_page(&buf, 0).unwrap();
    assert!(back.backfill_complete());
    assert_eq!(back.current_page(), 5);
    assert_eq!(back.entries().len(), 2);
    assert_eq!(back.entries()[1].free_slots(), 4095);
    // Byte-identical under a second serialization.
    let mut buf2: Vec<u8> = Vec::new();
    back.write_to(&mut buf2);
    assert_eq!(buf, buf2);
    // A non-density page type at the trailer is refused.
    let mut bad = buf.clone();
    bad[496] = 0x84;
    bad[497] = 0x84;
    assert!(matches!(
        parse_unicode_density_list_page(&bad, 0),
        Err(NdbError::UnexpectedPageType(0x84))
    ));
    // An oversized entry count is refused.
    let over = vec![DensityListPageEntry::new(0, 0); MAX_DENSITY_LIST_ENTRIES + 1];
    assert!(matches!(
        UnicodeDensityListPage::new(false, 0, over, trailer),
        Err(NdbError::InvalidBTreeEntryCount(_))
    ));
}
