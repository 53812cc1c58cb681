//! The file header: magic values, format version, crypt method and the
//! ROOT structure, all at fixed offsets. Parsing keeps the raw prelude
//! bytes, so rewriting the header preserves every field this layer does not
//! interpret; rewriting restamps the root, the version, the crypt method,
//! and the header CRCs.

use vstd::prelude::*;
use crate::bytes::{
    read_u8, read_u16, read_u32, spec_u16_at, spec_u32_at, splice, splice_u16, splice_u32,
};
use crate::crc::{spec_crc, compute_crc};
use crate::encode::NdbCryptMethod;
use crate::error::{NdbError, NdbResult};
use crate::root::{
    UnicodeRoot, AnsiRoot, spec_parse_unicode_root, spec_parse_ansi_root, spec_unicode_root_bytes,
    spec_ansi_root_bytes, serialize_unicode_root, serialize_ansi_root,
    lemma_unicode_root_round_trip, lemma_ansi_root_round_trip, lemma_unicode_root_parse_window,
    lemma_ansi_root_parse_window,
};

verus! {

broadcast use vstd::slice::group_slice_axioms;

/// The four magic bytes at the start of every PST file, read little-endian.
pub const HEADER_MAGIC: u32 = 0x4E44_4221;

/// The two client-magic bytes at offset 8.
pub const CLIENT_MAGIC: u16 = 0x4D53;

pub const UNICODE_HEADER_SIZE: usize = 564;

pub const ANSI_HEADER_SIZE: usize = 512;

pub const UNICODE_ROOT_OFFSET: usize = 180;

pub const ANSI_ROOT_OFFSET: usize = 164;

pub const UNICODE_CRYPT_OFFSET: usize = 513;

pub const ANSI_CRYPT_OFFSET: usize = 461;

/// The partial header CRC at offset 4 covers these 471 bytes.
pub const HEADER_CRC_START: usize = 8;

pub const HEADER_CRC_PARTIAL_END: usize = 479;

/// The full header CRC (64-bit width only, at offset 524) covers
/// `[8, 524)`.
pub const UNICODE_HEADER_CRC_FULL_END: usize = 524;

/// The mathematical content of a 64-bit-width header: the raw prelude
/// bytes and the fields this layer interprets.
#[verifier::ext_equal]
pub ghost struct UnicodeHeaderModel {
    pub raw: Seq<u8>,
    pub version: u16,
    pub crypt_method: NdbCryptMethod,
    pub root: UnicodeRoot,
}

/// The header of a 64-bit-width file.
#[derive(Clone, Debug, PartialEq, Eq)]
pub struct UnicodeHeader {
    pub raw: Vec<u8>,
    pub version: u16,
    pub crypt_method: NdbCryptMethod,
    pub root: UnicodeRoot,
}

impl View for UnicodeHeader {
    type V = UnicodeHeaderModel;

    open spec fn view(&self) -> UnicodeHeaderModel {
        UnicodeHeaderModel {
            raw: self.raw@,
            version: self.version,
            crypt_method: self.crypt_method,
            root: self.root,
        }
    }
}

impl UnicodeHeader {
    pub open spec fn wf(m: UnicodeHeaderModel) -> bool {
        &&& m.raw.len() == UNICODE_HEADER_SIZE
        &&& spec_u32_at(m.raw, 0) == HEADER_MAGIC
        &&& spec_u16_at(m.raw, 8) == CLIENT_MAGIC
        &&& m.version >= 23
    }

    pub fn root(&self) -> (r: &UnicodeRoot)
        ensures
            *r == self.root,
    {
        &self.root
    }

    pub fn crypt_method(&self) -> (r: NdbCryptMethod)
        ensures
            r == self.crypt_method,
    {
        self.crypt_method
    }
}

/// The header at the start of `s`: magic, client magic, a 64-bit-width
/// version, and a known crypt method, with the root at its fixed offset.
pub open spec fn spec_parse_unicode_header(s: Seq<u8>) -> NdbResult<UnicodeHeaderModel> {
    if s.len() < UNICODE_HEADER_SIZE {
        Err(NdbError::InvalidHeaderMagic(0))
    } else if spec_u32_at(s, 0) != HEADER_MAGIC {
        Err(NdbError::InvalidHeaderMagic(spec_u32_at(s, 0)))
    } else if spec_u16_at(s, 8) != CLIENT_MAGIC {
        Err(NdbError::InvalidClientMagic(spec_u16_at(s, 8)))
    } else if spec_u16_at(s, 10) < 23 {
        Err(NdbError::InvalidVersion(spec_u16_at(s, 10)))
    } else {
        match NdbCryptMethod::spec_from_u8(s[UNICODE_CRYPT_OFFSET as int]) {
            Err(e) => Err(e),
            Ok(c) => Ok(
                (UnicodeHeaderModel {
                    raw: s.subrange(0, UNICODE_HEADER_SIZE as int),
                    version: spec_u16_at(s, 10),
                    crypt_method: c,
                    root: spec_parse_unicode_root(s, UNICODE_ROOT_OFFSET as int),
                }),
            ),
        }
    }
}

pub fn parse_unicode_header(b: &[u8]) -> (r: NdbResult<UnicodeHeader>)
    ensures
        (r matches Ok(h) && spec_parse_unicode_header(b@) matches Ok(m) && h@ == m
            && UnicodeHeader::wf(m)) || (r matches Err(e) && spec_parse_unicode_header(b@)
            == NdbResult::<UnicodeHeaderModel>::Err(e)),
    {
    let n: usize = b.len();
    if n < UNICODE_HEADER_SIZE {
        return Err(NdbError::InvalidHeaderMagic(0));
    }
    let magic = read_u32(b, 0);
    if magic != HEADER_MAGIC {
        return Err(NdbError::InvalidHeaderMagic(magic));
    }
    let client = read_u16(b, 8);
    if client != CLIENT_MAGIC {
        return Err(NdbError::InvalidClientMagic(client));
    }
    let version = read_u16(b, 10);
    if version < 23 {
        return Err(NdbError::InvalidVersion(version));
    }
    let crypt_method = match NdbCryptMethod::from_u8(read_u8(b, UNICODE_CRYPT_OFFSET)) {
        Ok(c) => c,
        Err(e) => {
            return Err(e);
        },
    };
    let root = crate::root::parse_unicode_root(b, UNICODE_ROOT_OFFSET);
    let raw = vstd::slice::slice_to_vec(vstd::slice::slice_subrange(b, 0, UNICODE_HEADER_SIZE));
    Ok(UnicodeHeader { raw, version, crypt_method, root })
}

/// Rewrites the header image: the kept prelude with the root, version and
/// crypt method stamped at their offsets, and both header CRCs recomputed
/// over the ranges they cover. Parsing the image yields the same fields
/// back.
pub fn serialize_unicode_header(h: &UnicodeHeader) -> (out: Vec<u8>)
    requires
        UnicodeHeader::wf(h@),
    ensures
        out@.len() == UNICODE_HEADER_SIZE,
        spec_parse_unicode_header(out@) matches Ok(m) && m.version == h.version
            && m.crypt_method == h.crypt_method && m.root == h.root && m.raw == out@,
        spec_u32_at(out@, 4) == spec_crc(
            0,
            out@.subrange(HEADER_CRC_START as int, HEADER_CRC_PARTIAL_END as int),
        ),
        spec_u32_at(out@, 524) == spec_crc(
            0,
            out@.subrange(HEADER_CRC_START as int, UNICODE_HEADER_CRC_FULL_END as int),
        ),
    {
    let mut out = vstd::slice::slice_to_vec(h.raw.as_slice());
    let mut rb: Vec<u8> = Vec::new();
    serialize_unicode_root(&h.root, &mut rb);
    splice(&mut out, UNICODE_ROOT_OFFSET, rb.as_slice());
    splice_u16(&mut out, 10, h.version);
    let vn: usize = out.len();
    out[UNICODE_CRYPT_OFFSET] = h.crypt_method.to_u8();
    let ghost s1 = out@;
    let pc = compute_crc(
        0,
        vstd::slice::slice_subrange(out.as_slice(), HEADER_CRC_START, HEADER_CRC_PARTIAL_END),
    );
    splice_u32(&mut out, 4, pc);
    let ghost s2 = out@;
    proof {
        assert(s2.subrange(8, 479) =~= s1.subrange(8, 479));
    }
    let fc = compute_crc(
        0,
        vstd::slice::slice_subrange(out.as_slice(), HEADER_CRC_START, UNICODE_HEADER_CRC_FULL_END),
    );
    splice_u32(&mut out, 524, fc);
    proof {
        let s3 = out@;
        assert(s3.subrange(8, 479) =~= s2.subrange(8, 479));
        assert(s3.subrange(8, 524) =~= s2.subrange(8, 524));
        assert(spec_u32_at(s3, 4) == pc);
        assert(spec_u32_at(s3, 0) == spec_u32_at(h.raw@, 0));
        assert(spec_u16_at(s3, 8) == spec_u16_at(h.raw@, 8));
        assert(spec_u16_at(s3, 10) == h.version);
        assert(s3[UNICODE_CRYPT_OFFSET as int] == h.crypt_method.to_u8_spec());
        assert(NdbCryptMethod::spec_from_u8(h.crypt_method.to_u8_spec())
            == NdbResult::<NdbCryptMethod>::Ok(h.crypt_method));
        assert(s3.subrange(
            UNICODE_ROOT_OFFSET as int,
            UNICODE_ROOT_OFFSET + 72 as int,
        ) =~= spec_unicode_root_bytes(h.root));
        lemma_unicode_root_parse_window(s3, UNICODE_ROOT_OFFSET as int);
        lemma_unicode_root_round_trip(h.root);
        assert(spec_parse_unicode_root(s3, UNICODE_ROOT_OFFSET as int) == h.root);
        assert(s3.subrange(0, UNICODE_HEADER_SIZE as int) =~= s3);
    }
    out
}

/// Header parsing reads nothing beyond the first 564 bytes.
pub proof fn lemma_unicode_header_parse_prefix(s1: Seq<u8>, s2: Seq<u8>)
    requires
        s1.len() >= UNICODE_HEADER_SIZE,
        s2.len() >= UNICODE_HEADER_SIZE,
        s1.subrange(0, UNICODE_HEADER_SIZE as int) == s2.subrange(0, UNICODE_HEADER_SIZE as int),
    ensures
        spec_parse_unicode_header(s1) == spec_parse_unicode_header(s2),
{
    assert forall|i: int| 0 <= i < UNICODE_HEADER_SIZE implies s1[i] == s2[i] by {
        assert(s1.subrange(0, UNICODE_HEADER_SIZE as int)[i] == s1[i]);
        assert(s2.subrange(0, UNICODE_HEADER_SIZE as int)[i] == s2[i]);
    }
    assert(spec_u32_at(s1, 0) == spec_u32_at(s2, 0));
    assert(spec_u16_at(s1, 8) == spec_u16_at(s2, 8));
    assert(spec_u16_at(s1, 10) == spec_u16_at(s2, 10));
    lemma_unicode_root_parse_window(s1, UNICODE_ROOT_OFFSET as int);
    lemma_unicode_root_parse_window(s2, UNICODE_ROOT_OFFSET as int);
    assert(s1.subrange(180, 252) =~= s2.subrange(180, 252));
    if spec_parse_unicode_header(s1) is Ok && spec_parse_unicode_header(s2) is Ok {
        let m1 = spec_parse_unicode_header(s1)->Ok_0;
        let m2 = spec_parse_unicode_header(s2)->Ok_0;
        assert(m1.raw =~= m2.raw);
        assert(m1 =~= m2);
    }
}

/// Header parsing reads nothing beyond the first 512 bytes, 32-bit width.
pub proof fn lemma_ansi_header_parse_prefix(s1: Seq<u8>, s2: Seq<u8>)
    requires
        s1.len() >= ANSI_HEADER_SIZE,
        s2.len() >= ANSI_HEADER_SIZE,
        s1.subrange(0, ANSI_HEADER_SIZE as int) == s2.subrange(0, ANSI_HEADER_SIZE as int),
    ensures
        spec_parse_ansi_header(s1) == spec_parse_ansi_header(s2),
{
    assert forall|i: int| 0 <= i < ANSI_HEADER_SIZE implies s1[i] == s2[i] by {
        assert(s1.subrange(0, ANSI_HEADER_SIZE as int)[i] == s1[i]);
        assert(s2.subrange(0, ANSI_HEADER_SIZE as int)[i] == s2[i]);
    }
    assert(spec_u32_at(s1, 0) == spec_u32_at(s2, 0));
    assert(spec_u16_at(s1, 8) == spec_u16_at(s2, 8));
    assert(spec_u16_at(s1, 10) == spec_u16_at(s2, 10));
    lemma_ansi_root_parse_window(s1, ANSI_ROOT_OFFSET as int);
    lemma_ansi_root_parse_window(s2, ANSI_ROOT_OFFSET as int);
    assert(s1.subrange(164, 204) =~= s2.subrange(164, 204));
    if spec_parse_ansi_header(s1) is Ok && spec_parse_ansi_header(s2) is Ok {
        let m1 = spec_parse_ansi_header(s1)->Ok_0;
        let m2 = spec_parse_ansi_header(s2)->Ok_0;
        assert(m1.raw =~= m2.raw);
        assert(m1 =~= m2);
    }
}

/// The mathematical content of a 32-bit-width header.
#[verifier::ext_equal]
pub ghost struct AnsiHeaderModel {
    pub raw: Seq<u8>,
    pub version: u16,
    pub crypt_method: NdbCryptMethod,
    pub root: AnsiRoot,
}

/// The header of a 32-bit-width file.
#[derive(Clone, Debug, PartialEq, Eq)]
pub struct AnsiHeader {
    pub raw: Vec<u8>,
    pub version: u16,
    pub crypt_method: NdbCryptMethod,
    pub root: AnsiRoot,
}

impl View for AnsiHeader {
    type V = AnsiHeaderModel;

    open spec fn view(&self) -> AnsiHeaderModel {
        AnsiHeaderModel {
            raw: self.raw@,
            version: self.version,
            crypt_method: self.crypt_method,
            root: self.root,
        }
    }
}

impl AnsiHeader {
    pub open spec fn wf(m: AnsiHeaderModel) -> bool {
        &&& m.raw.len() == ANSI_HEADER_SIZE
        &&& spec_u32_at(m.raw, 0) == HEADER_MAGIC
        &&& spec_u16_at(m.raw, 8) == CLIENT_MAGIC
        &&& (m.version == 14 || m.version == 15)
    }

    pub fn root(&self) -> (r: &AnsiRoot)
        ensures
            *r == self.root,
    {
        &self.root
    }

    pub fn crypt_method(&self) -> (r: NdbCryptMethod)
        ensures
            r == self.crypt_method,
    {
        self.crypt_method
    }
}

/// The header at the start of `s`, 32-bit width: the version must be one
/// of the two 32-bit-width versions.
pub open spec fn spec_parse_ansi_header(s: Seq<u8>) -> NdbResult<AnsiHeaderModel> {
    if s.len() < ANSI_HEADER_SIZE {
        Err(NdbError::InvalidHeaderMagic(0))
    } else if spec_u32_at(s, 0) != HEADER_MAGIC {
        Err(NdbError::InvalidHeaderMagic(spec_u32_at(s, 0)))
    } else if spec_u16_at(s, 8) != CLIENT_MAGIC {
        Err(NdbError::InvalidClientMagic(spec_u16_at(s, 8)))
    } else if spec_u16_at(s, 10) != 14 && spec_u16_at(s, 10) != 15 {
        Err(NdbError::InvalidVersion(spec_u16_at(s, 10)))
    } else {
        match NdbCryptMethod::spec_from_u8(s[ANSI_CRYPT_OFFSET as int]) {
            Err(e) => Err(e),
            Ok(c) => Ok(
                (AnsiHeaderModel {
                    raw: s.subrange(0, ANSI_HEADER_SIZE as int),
                    version: spec_u16_at(s, 10),
                    crypt_method: c,
                    root: spec_parse_ansi_root(s, ANSI_ROOT_OFFSET as int),
                }),
            ),
        }
    }
}

pub fn parse_ansi_header(b: &[u8]) -> (r: NdbResult<AnsiHeader>)
    ensures
        (r matches Ok(h) && spec_parse_ansi_header(b@) matches Ok(m) && h@ == m && AnsiHeader::wf(
            m,
        )) || (r matches Err(e) && spec_parse_ansi_header(b@) == NdbResult::<
        AnsiHeaderModel,
        >::Err(e)),
    {
    let n: usize = b.len();
    if n < ANSI_HEADER_SIZE {
        return Err(NdbError::InvalidHeaderMagic(0));
    }
    let magic = read_u32(b, 0);
    if magic != HEADER_MAGIC {
        return Err(NdbError::InvalidHeaderMagic(magic));
    }
    let client = read_u16(b, 8);
    if client != CLIENT_MAGIC {
        return Err(NdbError::InvalidClientMagic(client));
    }
    let version = read_u16(b, 10);
    if version != 14 && version != 15 {
        return Err(NdbError::InvalidVersion(version));
    }
    let crypt_method = match NdbCryptMethod::from_u8(read_u8(b, ANSI_CRYPT_OFFSET)) {
        Ok(c) => c,
        Err(e) => {
            return Err(e);
        },
    };
    let root = crate::root::parse_ansi_root(b, ANSI_ROOT_OFFSET);
    let raw = vstd::slice::slice_to_vec(vstd::slice::slice_subrange(b, 0, ANSI_HEADER_SIZE));
    Ok(AnsiHeader { raw, version, crypt_method, root })
}

/// Rewrites the header image, 32-bit width: root, version and crypt method
/// stamped, and the partial header CRC recomputed.
pub fn serialize_ansi_header(h: &AnsiHeader) -> (out: Vec<u8>)
    requires
        AnsiHeader::wf(h@),
    ensures
        out@.len() == ANSI_HEADER_SIZE,
        spec_parse_ansi_header(out@) matches Ok(m) && m.version == h.version && m.crypt_method
            == h.crypt_method && m.root == h.root && m.raw == out@,
        spec_u32_at(out@, 4) == spec_crc(
            0,
            out@.subrange(HEADER_CRC_START as int, HEADER_CRC_PARTIAL_END as int),
        ),
    {
    let mut out = vstd::slice::slice_to_vec(h.raw.as_slice());
    let mut rb: Vec<u8> = Vec::new();
    serialize_ansi_root(&h.root, &mut rb);
    splice(&mut out, ANSI_ROOT_OFFSET, rb.as_slice());
    splice_u16(&mut out, 10, h.version);
    let vn: usize = out.len();
    out[ANSI_CRYPT_OFFSET] = h.crypt_method.to_u8();
    let ghost s1 = out@;
    let pc = compute_crc(
        0,
        vstd::slice::slice_subrange(out.as_slice(), HEADER_CRC_START, HEADER_CRC_PARTIAL_END),
    );
    splice_u32(&mut out, 4, pc);
    proof {
        let s2 = out@;
        assert(s2.subrange(8, 479) =~= s1.subrange(8, 479));
        assert(spec_u32_at(s2, 4) == pc);
        assert(spec_u32_at(s2, 0) == spec_u32_at(h.raw@, 0));
        assert(spec_u16_at(s2, 8) == spec_u16_at(h.raw@, 8));
        assert(spec_u16_at(s2, 10) == h.version);
        assert(s2[ANSI_CRYPT_OFFSET as int] == h.crypt_method.to_u8_spec());
        assert(NdbCryptMethod::spec_from_u8(h.crypt_method.to_u8_spec())
            == NdbResult::<NdbCryptMethod>::Ok(h.crypt_method));
        assert(s2.subrange(
            ANSI_ROOT_OFFSET as int,
            ANSI_ROOT_OFFSET + 40 as int,
        ) =~= spec_ansi_root_bytes(h.root));
        lemma_ansi_root_parse_window(s2, ANSI_ROOT_OFFSET as int);
        lemma_ansi_root_round_trip(h.root);
        assert(spec_parse_ansi_root(s2, ANSI_ROOT_OFFSET as int) == h.root);
        assert(s2.subrange(0, ANSI_HEADER_SIZE as int) =~= s2);
    }
    out
}

} // verus!
