//! Content obfuscation codecs for leaf data blocks. `Permute` substitutes
//! every byte through a fixed bijection of the byte space; `Cyclic` mixes a
//! per-block key and the byte position into each byte and is its own
//! inverse. Intermediate blocks, B-tree pages and allocation pages are never
//! encoded.

use vstd::prelude::*;
use crate::error::{NdbError, NdbResult};

verus! {

/// The file-wide codec named by the header and applied to leaf data blocks
/// only.
#[derive(Clone, Copy, Debug, Default, PartialEq, Eq, Structural)]
pub enum NdbCryptMethod {
    #[default]
    NoCrypt,
    Permute,
    Cyclic,
}

impl NdbCryptMethod {
    pub open spec fn to_u8_spec(&self) -> u8 {
        match self {
            NdbCryptMethod::NoCrypt => 0,
            NdbCryptMethod::Permute => 1,
            NdbCryptMethod::Cyclic => 2,
        }
    }

    pub open spec fn spec_from_u8(value: u8) -> NdbResult<NdbCryptMethod> {
        if value == 0 {
            Ok(NdbCryptMethod::NoCrypt)
        } else if value == 1 {
            Ok(NdbCryptMethod::Permute)
        } else if value == 2 {
            Ok(NdbCryptMethod::Cyclic)
        } else {
            Err(NdbError::InvalidCryptMethod(value))
        }
    }

    pub fn to_u8(&self) -> (r: u8)
        ensures
            r == self.to_u8_spec(),
    {
        match self {
            NdbCryptMethod::NoCrypt => 0,
            NdbCryptMethod::Permute => 1,
            NdbCryptMethod::Cyclic => 2,
        }
    }

    pub fn from_u8(value: u8) -> (r: NdbResult<NdbCryptMethod>)
        ensures
            r == Self::spec_from_u8(value),
    {
        if value == 0 {
            Ok(NdbCryptMethod::NoCrypt)
        } else if value == 1 {
            Ok(NdbCryptMethod::Permute)
        } else if value == 2 {
            Ok(NdbCryptMethod::Cyclic)
        } else {
            Err(NdbError::InvalidCryptMethod(value))
        }
    }
}

/// What decoding a just-read data block does to its payload, as a function
/// of the crypt method and the block's cyclic key.
pub open spec fn decode_seq(s: Seq<u8>, method: NdbCryptMethod, key: u32) -> Seq<u8> {
    match method {
        NdbCryptMethod::NoCrypt => s,
        NdbCryptMethod::Permute => permute_dec_seq(s),
        NdbCryptMethod::Cyclic => cyclic_seq(s, key),
    }
}

/// What encoding a data block about to be written does to its payload.
pub open spec fn encode_seq(s: Seq<u8>, method: NdbCryptMethod, key: u32) -> Seq<u8> {
    match method {
        NdbCryptMethod::NoCrypt => s,
        NdbCryptMethod::Permute => permute_enc_seq(s),
        NdbCryptMethod::Cyclic => cyclic_seq(s, key),
    }
}

/// Decoding undoes encoding for every crypt method and key.
pub proof fn lemma_decode_encode(s: Seq<u8>, method: NdbCryptMethod, key: u32)
    ensures
        decode_seq(encode_seq(s, method, key), method, key) == s,
{
    match method {
        NdbCryptMethod::NoCrypt => {},
        NdbCryptMethod::Permute => {
            lemma_permute_round_trip(s);
        },
        NdbCryptMethod::Cyclic => {
            lemma_cyclic_self_inverse(s, key);
        },
    }
}

/// Encoding undoes decoding, too: the codecs are bijections of the byte
/// stream.
pub proof fn lemma_encode_decode(s: Seq<u8>, method: NdbCryptMethod, key: u32)
    ensures
        encode_seq(decode_seq(s, method, key), method, key) == s,
        decode_seq(s, method, key).len() == s.len(),
{
    match method {
        NdbCryptMethod::NoCrypt => {},
        NdbCryptMethod::Permute => {
            lemma_permute_round_trip(s);
        },
        NdbCryptMethod::Cyclic => {
            lemma_cyclic_self_inverse(s, key);
        },
    }
}

/// Applies the decoding for `method` to a data block in place.
pub fn decode_block(data: &mut Vec<u8>, method: NdbCryptMethod, key: u32)
    ensures
        final(data)@ == decode_seq(old(data)@, method, key),
{
    match method {
        NdbCryptMethod::NoCrypt => {},
        NdbCryptMethod::Permute => {
            permute_decode_block(data);
        },
        NdbCryptMethod::Cyclic => {
            cyclic_encode_decode_block(data, key);
        },
    }
}

/// Applies the encoding for `method` to a data block in place.
pub fn encode_block(data: &mut Vec<u8>, method: NdbCryptMethod, key: u32)
    ensures
        final(data)@ == encode_seq(old(data)@, method, key),
{
    match method {
        NdbCryptMethod::NoCrypt => {},
        NdbCryptMethod::Permute => {
            permute_encode_block(data);
        },
        NdbCryptMethod::Cyclic => {
            cyclic_encode_decode_block(data, key);
        },
    }
}

/// The `Permute` substitution of one byte: an affine bijection of the byte
/// space (167 is odd, so it is invertible modulo 256).
pub open spec fn permute_enc_byte(b: u8) -> u8 {
    (((b as u16) * 167 + 13) % 256) as u8
}

/// The inverse substitution (23 is the inverse of 167 modulo 256, and 243
/// undoes the offset of 13).
pub open spec fn permute_dec_byte(b: u8) -> u8 {
    ((((b as u16) + 243) * 23) % 256) as u8
}

pub open spec fn permute_enc_seq(s: Seq<u8>) -> Seq<u8> {
    Seq::new(s.len(), |i: int| permute_enc_byte(s[i]))
}

pub open spec fn permute_dec_seq(s: Seq<u8>) -> Seq<u8> {
    Seq::new(s.len(), |i: int| permute_dec_byte(s[i]))
}

pub proof fn lemma_permute_byte_round_trip(b: u8)
    ensures
        permute_dec_byte(permute_enc_byte(b)) == b,
        permute_enc_byte(permute_dec_byte(b)) == b,
{
    assert(((((((b as u16) * 167 + 13) % 256) + 243) * 23) % 256) as u8 == b) by (bit_vector);
    assert((((((((b as u16) + 243) * 23) % 256)) * 167 + 13) % 256) as u8 == b) by (bit_vector);
}

/// Decoding an encoded buffer restores it, byte for byte.
pub proof fn lemma_permute_round_trip(s: Seq<u8>)
    ensures
        permute_dec_seq(permute_enc_seq(s)) == s,
        permute_enc_seq(permute_dec_seq(s)) == s,
{
    assert forall|i: int| 0 <= i < s.len() implies permute_dec_seq(permute_enc_seq(s))[i] == s[i]
        && permute_enc_seq(permute_dec_seq(s))[i] == s[i] by {
        lemma_permute_byte_round_trip(s[i]);
        lemma_permute_byte_round_trip(permute_enc_byte(s[i]));
        lemma_permute_byte_round_trip(permute_dec_byte(s[i]));
    }
    assert(permute_dec_seq(permute_enc_seq(s)) =~= s);
    assert(permute_enc_seq(permute_dec_seq(s)) =~= s);
}

/// Applies the `Permute` encoding to a data block in place.
pub fn permute_encode_block(data: &mut Vec<u8>)
    ensures
        final(data)@ == permute_enc_seq(old(data)@),
{
    let n = data.len();
    let mut i: usize = 0;
    while i < n
        invariant
            n == data@.len(),
            n == old(data)@.len(),
            i <= n,
            forall|j: int| 0 <= j < i ==> data@[j] == permute_enc_byte(old(data)@[j]),
            forall|j: int| i <= j < n ==> data@[j] == old(data)@[j],
        decreases n - i,
    {
        let b = data[i];
        data[i] = (((b as u16) * 167 + 13) % 256) as u8;
        i = i + 1;
    }
    proof {
        assert(data@ =~= permute_enc_seq(old(data)@));
    }
}

/// Applies the `Permute` decoding to a data block in place.
pub fn permute_decode_block(data: &mut Vec<u8>)
    ensures
        final(data)@ == permute_dec_seq(old(data)@),
{
    let n = data.len();
    let mut i: usize = 0;
    while i < n
        invariant
            n == data@.len(),
            n == old(data)@.len(),
            i <= n,
            forall|j: int| 0 <= j < i ==> data@[j] == permute_dec_byte(old(data)@[j]),
            forall|j: int| i <= j < n ==> data@[j] == old(data)@[j],
        decreases n - i,
    {
        let b = data[i];
        data[i] = ((((b as u16) + 243) * 23) % 256) as u8;
        i = i + 1;
    }
    proof {
        assert(data@ =~= permute_dec_seq(old(data)@));
    }
}

/// The `Cyclic` keystream byte for position `i` under `key`: one of the four
/// key bytes, chosen by the position, mixed with the position's low byte.
pub open spec fn cyclic_key_byte(key: u32, i: int) -> u8
    recommends
        0 <= i,
{
    (((key >> (((i % 4) * 8) as u32)) & 0xFF) as u8) ^ ((i % 256) as u8)
}

pub open spec fn cyclic_seq(s: Seq<u8>, key: u32) -> Seq<u8> {
    Seq::new(s.len(), |i: int| s[i] ^ cyclic_key_byte(key, i))
}

proof fn lemma_xor_cancels(a: u8, k: u8)
    ensures
        (a ^ k) ^ k == a,
{
    assert((a ^ k) ^ k == a) by (bit_vector);
}

/// Applying the `Cyclic` codec twice with the same key restores the buffer:
/// the codec is its own inverse.
pub proof fn lemma_cyclic_self_inverse(s: Seq<u8>, key: u32)
    ensures
        cyclic_seq(cyclic_seq(s, key), key) == s,
{
    assert forall|i: int| 0 <= i < s.len() implies cyclic_seq(cyclic_seq(s, key), key)[i] == s[i]
        by {
        lemma_xor_cancels(s[i], cyclic_key_byte(key, i));
    }
    assert(cyclic_seq(cyclic_seq(s, key), key) =~= s);
}

/// Applies the `Cyclic` codec to a data block in place; one call encodes and
/// a second call with the same key decodes.
pub fn cyclic_encode_decode_block(data: &mut Vec<u8>, key: u32)
    ensures
        final(data)@ == cyclic_seq(old(data)@, key),
{
    let n = data.len();
    let mut i: usize = 0;
    while i < n
        invariant
            n == data@.len(),
            n == old(data)@.len(),
            i <= n,
            forall|j: int| 0 <= j < i ==> data@[j] == old(data)@[j] ^ cyclic_key_byte(key, j),
            forall|j: int| i <= j < n ==> data@[j] == old(data)@[j],
        decreases n - i,
    {
        let b = data[i];
        let shift: u32 = ((i % 4) * 8) as u32;
        let kb: u8 = ((key >> shift) & 0xFF) as u8;
        let pb: u8 = (i % 256) as u8;
        data[i] = b ^ (kb ^ pb);
        proof {
            let bb = old(data)@[i as int];
            let k = cyclic_key_byte(key, i as int);
            assert(bb ^ (kb ^ pb) == (bb ^ kb) ^ pb) by (bit_vector);
            assert(kb ^ pb == k) by {
                assert(cyclic_key_byte(key, i as int)
                    == (((key >> (((i as int % 4) * 8) as u32)) & 0xFF) as u8)
                        ^ ((i as int % 256) as u8));
            }
        }
        i = i + 1;
    }
    proof {
        assert(data@ =~= cyclic_seq(old(data)@, key));
    }
}

} // verus!
