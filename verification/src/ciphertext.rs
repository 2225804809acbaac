//! The fixed-size serialized ciphertext: its byte layout, its
//! well-formedness predicate, and lossless serialization.
//!
//! The last byte is a checksum over all the others.  A single flipped bit
//! changes one byte by a power of two below 256, which cannot vanish from
//! the sum modulo 256, so any single-bit corruption anywhere in the bytes
//! is rejected by deserialization and comparison alike.

use vstd::prelude::*;
use crate::OreError;
use crate::CT_LEN;
use crate::NUM_BLOCKS;

verus! {

/// Offset of block `i` inside the serialized bytes: the nonce comes first.
pub open spec fn block_off(i: int) -> int {
    16 + i * 273
}

/// Offset of block `i`'s right part.
pub open spec fn right_off(i: int) -> int {
    block_off(i) + 17
}

/// Whether byte position `k` lies inside some block's right part.
pub open spec fn is_right_pos(k: int) -> bool {
    16 <= k < 2200 && (k - 16) % 273 >= 17
}

/// Whether a byte is a validly encoded three-way indicator: the value
/// scaled by 0x55.  The three valid bytes (0x00, 0x55, 0xAA) are pairwise
/// several bit flips apart, so any single flipped bit in a stored
/// indicator is detectable corruption.
pub open spec fn valid_trit(b: u8) -> bool {
    b == 0 || b == 0x55 || b == 0xaa
}

/// The sum of the first `n` bytes.
pub open spec fn byte_sum(s: Seq<u8>, n: int) -> int
    decreases n,
{
    if n <= 0 { 0 } else { byte_sum(s, n - 1) + s[n - 1] }
}

/// The checksum a well-formed ciphertext stores in its last byte: the sum
/// of all bytes before it, modulo 256.
pub open spec fn csum_of(s: Seq<u8>) -> u8 {
    (byte_sum(s, 2200) % 256) as u8
}

/// Every stored indicator byte is validly encoded.
pub open spec fn trits_ok(s: Seq<u8>) -> bool {
    forall|k: int| is_right_pos(k) ==> valid_trit(#[trigger] s[k])
}

/// A well-formed serialized ciphertext: exactly the fixed length, every
/// stored indicator byte validly encoded, and the checksum matching.
pub open spec fn wf_ct_bytes(s: Seq<u8>) -> bool {
    &&& s.len() == 2201
    &&& trits_ok(s)
    &&& s[2200] == csum_of(s)
}

/// A byte sum is never negative.
pub proof fn lemma_byte_sum_nonneg(s: Seq<u8>, n: int)
    ensures
        byte_sum(s, n) >= 0,
    decreases n,
{
    if n > 0 {
        lemma_byte_sum_nonneg(s, n - 1);
    }
}

/// Sequences that agree on a prefix have the same sum over it.
pub proof fn lemma_byte_sum_agree(s1: Seq<u8>, s2: Seq<u8>, n: int)
    requires
        forall|m: int| 0 <= m < n ==> s1[m] == #[trigger] s2[m],
    ensures
        byte_sum(s1, n) == byte_sum(s2, n),
    decreases n,
{
    if n > 0 {
        lemma_byte_sum_agree(s1, s2, n - 1);
    }
}

/// Replacing one byte shifts the sum by exactly the difference.
pub proof fn lemma_byte_sum_update(s: Seq<u8>, n: int, k: int, v: u8)
    requires
        0 <= k < n <= s.len(),
    ensures
        byte_sum(s.update(k, v), n) == byte_sum(s, n) - s[k] + v,
    decreases n,
{
    if k == n - 1 {
        assert forall|m: int| 0 <= m < n - 1 implies
            s.update(k, v)[m] == #[trigger] s[m] by {}
        lemma_byte_sum_agree(s.update(k, v), s, n - 1);
    } else {
        lemma_byte_sum_update(s, n - 1, k, v);
    }
}

/// Serialization of a well-formed ciphertext: the bytes themselves.
pub open spec fn spec_serialize(s: Seq<u8>) -> Seq<u8> {
    s
}

/// Deserialization: the bytes, accepted exactly when well-formed.
pub open spec fn spec_deserialize(s: Seq<u8>) -> Option<Seq<u8>> {
    if wf_ct_bytes(s) { Option::Some(s) } else { Option::None }
}

/// A positionable right-part byte is a right position.
pub proof fn lemma_right_pos(i: int, j: int)
    requires
        0 <= i < 8,
        0 <= j < 256,
    ensures
        is_right_pos(right_off(i) + j),
        (right_off(i) + j - 16) % 273 == 17 + j,
        (right_off(i) + j - 16) / 273 == i,
{
    let k = right_off(i) + j;
    assert(k - 16 == 273 * i + (17 + j));
    vstd::arithmetic::div_mod::lemma_fundamental_div_mod_converse(
        k - 16, 273, i, 17 + j);
}

/// Conversely, a right position decomposes into a block and a slot.
pub proof fn lemma_right_pos_decompose(k: int)
    requires
        is_right_pos(k),
    ensures
        0 <= (k - 16) / 273 < 8,
        17 <= (k - 16) % 273 < 273,
        k == right_off((k - 16) / 273) + ((k - 16) % 273 - 17),
{
    vstd::arithmetic::div_mod::lemma_fundamental_div_mod(k - 16, 273);
    vstd::arithmetic::div_mod::lemma_mod_bound(k - 16, 273);
    let i = (k - 16) / 273;
    let o = (k - 16) % 273;
    assert(k - 16 == 273 * i + o);
}

/// One ciphertext produced by [`crate::scheme::OreAes128`]: a fixed-size,
/// serializable artifact that can be compared with any other ciphertext of
/// the same key without decryption.
pub struct OreAes128Ciphertext {
    /// The number of blocks, recorded alongside the bytes.
    n: u32,
    /// The serialized form: nonce, blocks, checksum byte.
    ct: Vec<u8>,
}

impl View for OreAes128Ciphertext {
    type V = Seq<u8>;

    closed spec fn view(&self) -> Seq<u8> {
        self.ct@
    }
}

impl OreAes128Ciphertext {
    /// A structurally valid ciphertext value.
    pub open spec fn wf(&self) -> bool {
        wf_ct_bytes(self@) && self.block_count() == NUM_BLOCKS
    }

    /// The recorded block count.
    pub closed spec fn block_count(&self) -> u32 {
        self.n
    }

    pub(crate) fn from_parts(ct: Vec<u8>) -> (r: Self)
        requires
            wf_ct_bytes(ct@),
        ensures
            r.wf(),
            r@ == ct@,
    {
        OreAes128Ciphertext { n: NUM_BLOCKS as u32, ct }
    }

    /// Serializes the ciphertext: a flat copy of its fixed-size byte form.
    pub fn serialize(&self) -> (r: Vec<u8>)
        ensures
            r@ == spec_serialize(self@),
    {
        let mut r: Vec<u8> = Vec::new();
        let mut i: usize = 0;
        while i < self.ct.len()
            invariant
                i <= self@.len(),
                r@ == self@.take(i as int),
            decreases self@.len() - i,
        {
            r.push(self.ct[i]);
            i += 1;
        }
        proof {
            assert(r@ =~= self@);
        }
        r
    }

    /// Deserializes a ciphertext, accepting exactly the well-formed byte
    /// forms: the fixed length, every stored indicator valid, the checksum
    /// matching.  Anything else — truncation, extension, any single
    /// flipped bit — is rejected with [`OreError::DeserializationError`].
    pub fn deserialize(bytes: &Vec<u8>) -> (r: Result<Self, OreError>)
        ensures
            r is Ok <==> wf_ct_bytes(bytes@),
            r is Ok ==> r->Ok_0.wf() && r->Ok_0@ == bytes@
                && spec_deserialize(bytes@) == Option::Some(bytes@),
            r is Err ==> r->Err_0 == OreError::DeserializationError
                && spec_deserialize(bytes@) is None,
    {
        if bytes.len() != CT_LEN {
            return Err(OreError::DeserializationError);
        }
        if !validate_right_parts(bytes) || !checksum_ok(bytes) {
            return Err(OreError::DeserializationError);
        }
        Ok(Self::from_parts(bytes_copy(bytes)))
    }

    /// The comparable view of the ciphertext, for storage-level use.
    pub fn as_bytes(&self) -> (r: &Vec<u8>)
        ensures
            r@ == self@,
    {
        &self.ct
    }
}

fn bytes_copy(bytes: &Vec<u8>) -> (r: Vec<u8>)
    ensures
        r@ == bytes@,
{
    let mut r: Vec<u8> = Vec::new();
    let mut i: usize = 0;
    while i < bytes.len()
        invariant
            i <= bytes@.len(),
            r@ == bytes@.take(i as int),
        decreases bytes@.len() - i,
    {
        r.push(bytes[i]);
        i += 1;
    }
    proof {
        assert(r@ =~= bytes@);
    }
    r
}

/// Checks every stored indicator byte of a fixed-length ciphertext.
pub(crate) fn validate_right_parts(bytes: &Vec<u8>) -> (r: bool)
    requires
        bytes@.len() == CT_LEN,
    ensures
        r <==> trits_ok(bytes@),
{
    let mut k: usize = 16;
    while k < CT_LEN
        invariant
            16 <= k <= CT_LEN,
            bytes@.len() == CT_LEN,
            forall|m: int| 16 <= m < k && is_right_pos(m)
                ==> valid_trit(#[trigger] bytes@[m]),
        decreases CT_LEN - k,
    {
        if (k - 16) % 273 >= 17 {
            let b = bytes[k];
            if !(b == 0 || b == 0x55 || b == 0xaa) {
                proof {
                    assert(is_right_pos(k as int));
                    assert(!valid_trit(bytes@[k as int]));
                }
                return false;
            }
        }
        k += 1;
    }
    true
}

/// Checks the stored checksum of a fixed-length ciphertext.
pub(crate) fn checksum_ok(bytes: &Vec<u8>) -> (r: bool)
    requires
        bytes@.len() == CT_LEN,
    ensures
        r <==> bytes@[2200] == csum_of(bytes@),
{
    let c = checksum_over(bytes);
    c == bytes[2200]
}

/// Sums the bytes before the checksum position, modulo 256.
pub(crate) fn checksum_over(bytes: &Vec<u8>) -> (r: u8)
    requires
        bytes@.len() >= 2200,
    ensures
        r == (byte_sum(bytes@, 2200) % 256) as u8,
{
    let mut sum: u32 = 0;
    let mut k: usize = 0;
    while k < 2200
        invariant
            k <= 2200,
            bytes@.len() >= 2200,
            sum as int == byte_sum(bytes@, k as int),
            sum as int <= 255 * (k as int),
        decreases 2200 - k,
    {
        sum = sum + (bytes[k] as u32);
        k += 1;
    }
    (sum % 256) as u8
}

} // verus!
