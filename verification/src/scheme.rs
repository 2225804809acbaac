//! The encryption engine: key material, the per-block construction, and the
//! spec-level model of the ciphertext bytes it emits.
//!
//! Each of the eight blocks covers one plaintext byte, most significant
//! first.  A block stores the slot its byte occupies in a prefix-seeded
//! shuffle of the 256 candidates, a left part (a keyed pseudorandom value
//! over the prefix up to and including the byte), and a right part of 256
//! blinded three-way indicators, one per candidate.  A fresh random nonce,
//! stored with the ciphertext, enters every blinding, so two encryptions of
//! the same plaintext differ byte-for-byte yet compare as equal.

use vstd::prelude::*;
use crate::OreError;
use crate::KEY_LEN;
use crate::NONCE_LEN;
use crate::encode::spec_encode_bool;
use crate::encode::spec_encode_f64;
use crate::encode::spec_encode_text;
use crate::encode::f64_bits_is_nan;
use crate::encode::encode_bool;
use crate::encode::encode_f64_bits;
use crate::encode::encode_text;
use crate::prim::spec_prf16;
use crate::prim::spec_h3;
use crate::prim::prf16;
use crate::prim::h3;
use crate::prim::random_nonce;
use crate::perm::spec_perm;
use crate::perm::spec_slot_idx;
use crate::perm::build_perm;
use crate::perm::slot_of;
use crate::ciphertext::block_off;
use crate::ciphertext::is_right_pos;
use crate::ciphertext::valid_trit;
use crate::ciphertext::wf_ct_bytes;
use crate::ciphertext::lemma_right_pos_decompose;
use crate::ciphertext::byte_sum;
use crate::ciphertext::csum_of;
use crate::ciphertext::trits_ok;
use crate::ciphertext::lemma_byte_sum_agree;
use crate::ciphertext::checksum_over;
use crate::ciphertext::OreAes128Ciphertext;

verus! {

/// Domain-separation tag for shuffle seeds.
pub const TAG_PERM: u8 = 1;

/// Domain-separation tag for left parts.
pub const TAG_LEFT: u8 = 2;

/// Byte `i` of the plaintext, most significant first.
pub open spec fn pt_byte(x: u64, i: int) -> u8 {
    ((x >> (((7 - i) * 8) as u64)) & 0xff) as u8
}

/// The plaintext bytes strictly before position `i`.
pub open spec fn pt_prefix(x: u64, i: int) -> Seq<u8> {
    Seq::new(i as nat, |k: int| pt_byte(x, k))
}

/// The message that seeds position `i`'s shuffle: tag, position, prefix.
pub open spec fn perm_msg(x: u64, i: int) -> Seq<u8> {
    seq![TAG_PERM, i as u8] + pt_prefix(x, i)
}

/// The message behind a left part: tag, position, prefix, candidate byte.
pub open spec fn left_msg(i: int, prefix: Seq<u8>, c: u8) -> Seq<u8> {
    seq![TAG_LEFT, i as u8] + prefix + seq![c]
}

/// The shuffle at position `i` of plaintext `x`: a function of the key and
/// the prefix alone, so equal prefixes share it.
pub open spec fn spec_perm_at(ck: Seq<u8>, x: u64, i: int) -> Seq<u8> {
    spec_perm(ck, spec_prf16(ck, perm_msg(x, i)))
}

/// The left part at position `i`: the keyed pseudorandom value over the
/// prefix up to and including the byte there.
pub open spec fn spec_left_at(pk: Seq<u8>, x: u64, i: int) -> Seq<u8> {
    spec_prf16(pk, left_msg(i, pt_prefix(x, i), pt_byte(x, i)))
}

/// The three-way indicator: 0, 1 or 2 as `u` is below, equal to or above
/// `v`.
pub open spec fn cmp3(u: u8, v: u8) -> int {
    if u < v { 0 } else if u == v { 1 } else { 2 }
}

/// The stored form of an indicator value.
pub open spec fn trit_byte(t: int) -> u8 {
    (t * 0x55) as u8
}

/// Entry `j` of the right part at position `i`: the indicator of candidate
/// `j` (under the shuffle) against the true byte, blinded by the candidate's
/// would-be left part and the nonce.
pub open spec fn spec_right_entry(
    ck: Seq<u8>, pk: Seq<u8>, x: u64, nonce: Seq<u8>, i: int, j: int,
) -> u8 {
    let arr = spec_perm_at(ck, x, i);
    let c = arr[j];
    let blind = spec_h3(
        spec_prf16(pk, left_msg(i, pt_prefix(x, i), c)), nonce, i as u8, j as u8,
    ) as int;
    trit_byte((cmp3(c, pt_byte(x, i)) + blind) % 3)
}

/// The serialized form of block `i`: slot byte, left part, right part.
pub open spec fn spec_block(
    ck: Seq<u8>, pk: Seq<u8>, x: u64, nonce: Seq<u8>, i: int,
) -> Seq<u8> {
    seq![spec_slot_idx(spec_perm_at(ck, x, i), pt_byte(x, i)) as u8]
        + spec_left_at(pk, x, i)
        + Seq::new(256, |j: int| spec_right_entry(ck, pk, x, nonce, i, j))
}

/// The first `n` blocks, concatenated.
pub open spec fn spec_blocks(
    ck: Seq<u8>, pk: Seq<u8>, x: u64, nonce: Seq<u8>, n: int,
) -> Seq<u8>
    decreases n,
{
    if n <= 0 {
        Seq::empty()
    } else {
        spec_blocks(ck, pk, x, nonce, n - 1) + spec_block(ck, pk, x, nonce, n - 1)
    }
}

/// The body of a serialized ciphertext: the nonce followed by the eight
/// blocks, everything the checksum covers.
pub open spec fn spec_ct_body(
    ck: Seq<u8>, pk: Seq<u8>, x: u64, nonce: Seq<u8>,
) -> Seq<u8> {
    nonce + spec_blocks(ck, pk, x, nonce, 8)
}

/// The whole serialized ciphertext of plaintext `x` under the given keys
/// and nonce: the body followed by its checksum byte.
pub open spec fn spec_encrypt(
    ck: Seq<u8>, pk: Seq<u8>, x: u64, nonce: Seq<u8>,
) -> Seq<u8> {
    spec_ct_body(ck, pk, x, nonce) + seq![csum_of(spec_ct_body(ck, pk, x, nonce))]
}

/// Each block serializes to the fixed block length.
pub proof fn lemma_block_len(ck: Seq<u8>, pk: Seq<u8>, x: u64, nonce: Seq<u8>, i: int)
    ensures
        spec_block(ck, pk, x, nonce, i).len() == 273,
{
}

/// The first `n` blocks serialize to `273 * n` bytes.
pub proof fn lemma_blocks_len(ck: Seq<u8>, pk: Seq<u8>, x: u64, nonce: Seq<u8>, n: int)
    requires
        n >= 0,
    ensures
        spec_blocks(ck, pk, x, nonce, n).len() == 273 * n,
    decreases n,
{
    if n > 0 {
        lemma_blocks_len(ck, pk, x, nonce, n - 1);
        lemma_block_len(ck, pk, x, nonce, n - 1);
    }
}

proof fn lemma_blocks_index(
    ck: Seq<u8>, pk: Seq<u8>, x: u64, nonce: Seq<u8>, n: int, i: int, o: int,
)
    requires
        0 <= i < n,
        0 <= o < 273,
    ensures
        spec_blocks(ck, pk, x, nonce, n).len() == 273 * n,
        spec_blocks(ck, pk, x, nonce, n)[273 * i + o]
            == spec_block(ck, pk, x, nonce, i)[o],
    decreases n,
{
    lemma_blocks_len(ck, pk, x, nonce, n);
    lemma_blocks_len(ck, pk, x, nonce, n - 1);
    lemma_block_len(ck, pk, x, nonce, n - 1);
    if i < n - 1 {
        lemma_blocks_index(ck, pk, x, nonce, n - 1, i, o);
    }
}

/// Byte `o` of block `i` inside the whole serialized ciphertext.
pub proof fn lemma_encrypt_byte(
    ck: Seq<u8>, pk: Seq<u8>, x: u64, nonce: Seq<u8>, i: int, o: int,
)
    requires
        nonce.len() == 16,
        0 <= i < 8,
        0 <= o < 273,
    ensures
        spec_encrypt(ck, pk, x, nonce).len() == 2201,
        spec_encrypt(ck, pk, x, nonce)[block_off(i) + o]
            == spec_block(ck, pk, x, nonce, i)[o],
{
    lemma_blocks_index(ck, pk, x, nonce, 8, i, o);
}

/// The nonce sits at the head of the serialized ciphertext.
pub proof fn lemma_encrypt_nonce_byte(
    ck: Seq<u8>, pk: Seq<u8>, x: u64, nonce: Seq<u8>, k: int,
)
    requires
        nonce.len() == 16,
        0 <= k < 16,
    ensures
        spec_encrypt(ck, pk, x, nonce)[k] == nonce[k],
{
}

/// The checksum byte of an emitted ciphertext matches its body.
pub proof fn lemma_encrypt_csum(ck: Seq<u8>, pk: Seq<u8>, x: u64, nonce: Seq<u8>)
    requires
        nonce.len() == 16,
    ensures
        spec_encrypt(ck, pk, x, nonce)[2200]
            == csum_of(spec_encrypt(ck, pk, x, nonce)),
{
    let body = spec_ct_body(ck, pk, x, nonce);
    let e = spec_encrypt(ck, pk, x, nonce);
    lemma_blocks_len(ck, pk, x, nonce, 8);
    assert forall|m: int| 0 <= m < 2200 implies e[m] == #[trigger] body[m] by {}
    lemma_byte_sum_agree(e, body, 2200);
}

/// Every ciphertext the scheme emits is well-formed: fixed length, every
/// stored indicator a valid encoding, checksum matching.
pub proof fn lemma_encrypt_wf(ck: Seq<u8>, pk: Seq<u8>, x: u64, nonce: Seq<u8>)
    requires
        nonce.len() == 16,
    ensures
        wf_ct_bytes(spec_encrypt(ck, pk, x, nonce)),
{
    let e = spec_encrypt(ck, pk, x, nonce);
    lemma_blocks_len(ck, pk, x, nonce, 8);
    lemma_encrypt_csum(ck, pk, x, nonce);
    assert forall|k: int| is_right_pos(k) implies valid_trit(e[k]) by {
        lemma_right_pos_decompose(k);
        let i = (k - 16) / 273;
        let o = (k - 16) % 273;
        lemma_encrypt_byte(ck, pk, x, nonce, i, o);
        assert(block_off(i) + o == k);
        let j = o - 17;
        assert(spec_block(ck, pk, x, nonce, i)[o]
            == spec_right_entry(ck, pk, x, nonce, i, j));
    }
}

/// The two 16-byte symmetric keys of one scheme instance: a block-cipher
/// key for the shuffles and a pseudorandom-function key for the left parts.
/// Both are validated at construction and read-only afterwards.
pub struct KeyMaterial {
    pub(crate) cipher_key: Vec<u8>,
    pub(crate) prf_key: Vec<u8>,
}

impl KeyMaterial {
    /// The block-cipher key.
    pub closed spec fn ck(&self) -> Seq<u8> {
        self.cipher_key@
    }

    /// The pseudorandom-function key.
    pub closed spec fn pk(&self) -> Seq<u8> {
        self.prf_key@
    }

    /// Both keys have exactly the required length.
    pub open spec fn wf(&self) -> bool {
        self.ck().len() == KEY_LEN && self.pk().len() == KEY_LEN
    }

    /// Validates and takes ownership of the two keys: succeeds exactly when
    /// both are 16 bytes, otherwise [`OreError::InvalidKeyLength`].
    pub fn new(cipher_key: Vec<u8>, prf_key: Vec<u8>) -> (r: Result<Self, OreError>)
        ensures
            r is Ok <==> (cipher_key@.len() == KEY_LEN && prf_key@.len() == KEY_LEN),
            r is Ok ==> r->Ok_0.wf() && r->Ok_0.ck() == cipher_key@
                && r->Ok_0.pk() == prf_key@,
            r is Err ==> r->Err_0 == OreError::InvalidKeyLength,
    {
        if cipher_key.len() != KEY_LEN || prf_key.len() != KEY_LEN {
            return Err(OreError::InvalidKeyLength);
        }
        Ok(KeyMaterial { cipher_key, prf_key })
    }
}

/// One ORE scheme instance: stateless across calls but for the key material
/// it owns.
pub struct OreAes128 {
    key: KeyMaterial,
}

impl OreAes128 {
    /// The block-cipher key.
    pub closed spec fn ck(&self) -> Seq<u8> {
        self.key.ck()
    }

    /// The pseudorandom-function key.
    pub closed spec fn pk(&self) -> Seq<u8> {
        self.key.pk()
    }

    /// The instance holds validated key material.
    pub open spec fn wf(&self) -> bool {
        self.ck().len() == KEY_LEN && self.pk().len() == KEY_LEN
    }

    /// Builds a scheme instance from the two keys: succeeds exactly when
    /// both are 16 bytes, otherwise [`OreError::InvalidKeyLength`].
    pub fn init(cipher_key: Vec<u8>, prf_key: Vec<u8>) -> (r: Result<Self, OreError>)
        ensures
            r is Ok <==> (cipher_key@.len() == KEY_LEN && prf_key@.len() == KEY_LEN),
            r is Ok ==> r->Ok_0.wf() && r->Ok_0.ck() == cipher_key@
                && r->Ok_0.pk() == prf_key@,
            r is Err ==> r->Err_0 == OreError::InvalidKeyLength,
    {
        match KeyMaterial::new(cipher_key, prf_key) {
            Ok(key) => Ok(OreAes128 { key }),
            Err(e) => Err(e),
        }
    }

    /// Encrypts an encoded 64-bit plaintext under an explicit nonce.  The
    /// result is exactly the spec-level ciphertext of `x` for that nonce;
    /// randomness is injected here as a parameter so the instance stays
    /// freely shareable.
    pub fn encrypt_with_nonce(&self, x: u64, nonce: &Vec<u8>) -> (r: OreAes128Ciphertext)
        requires
            self.wf(),
            nonce@.len() == NONCE_LEN,
        ensures
            r.wf(),
            r@ == spec_encrypt(self.ck(), self.pk(), x, nonce@),
    {
        let ghost ck = self.ck();
        let ghost pk = self.pk();
        let xb = u64_be_bytes(x);
        let mut out: Vec<u8> = Vec::new();
        let mut m0: usize = 0;
        while m0 < 16
            invariant
                m0 <= 16,
                nonce@.len() == 16,
                out@ == nonce@.take(m0 as int),
            decreases 16 - m0,
        {
            out.push(nonce[m0]);
            m0 += 1;
        }
        proof {
            assert(out@ =~= nonce@ + spec_blocks(ck, pk, x, nonce@, 0));
        }
        let mut i: usize = 0;
        while i < 8
            invariant
                i <= 8,
                self.wf(),
                ck == self.ck(),
                pk == self.pk(),
                nonce@.len() == 16,
                xb@.len() == 8,
                forall|k: int| 0 <= k < 8 ==> xb@[k] == pt_byte(x, k),
                out@ == nonce@ + spec_blocks(ck, pk, x, nonce@, i as int),
            decreases 8 - i,
        {
            let ghost blocks_so_far = out@;
            let pm = prefix_msg(TAG_PERM, i as u8, &xb, i);
            proof {
                assert(xb@.take(i as int) =~= pt_prefix(x, i as int));
                assert(pm@ =~= perm_msg(x, i as int));
            }
            let seed = prf16(&self.key.cipher_key, &pm);
            let arr = build_perm(&self.key.cipher_key, &seed);
            proof {
                assert(arr@ == spec_perm_at(ck, x, i as int));
            }
            let xi = xb[i];
            let h = slot_of(&arr, xi);
            out.push(h);
            let mut lm = prefix_msg(TAG_LEFT, i as u8, &xb, i);
            lm.push(xi);
            proof {
                assert(lm@ =~= left_msg(i as int, pt_prefix(x, i as int),
                    pt_byte(x, i as int)));
            }
            let left = prf16(&self.key.prf_key, &lm);
            let ghost base1 = blocks_so_far.push(h);
            let mut m: usize = 0;
            while m < 16
                invariant
                    m <= 16,
                    left@.len() == 16,
                    out@ == base1 + left@.take(m as int),
                decreases 16 - m,
            {
                proof {
                    assert(out@.push(left@[m as int])
                        =~= base1 + left@.take(m as int + 1));
                }
                out.push(left[m]);
                m += 1;
            }
            let ghost base2 = base1 + left@;
            proof {
                assert(out@ =~= base2);
            }
            let mut j: usize = 0;
            while j < 256
                invariant
                    j <= 256,
                    i < 8,
                    self.wf(),
                    ck == self.ck(),
                    pk == self.pk(),
                    nonce@.len() == 16,
                    xb@.len() == 8,
                    forall|k: int| 0 <= k < 8 ==> xb@[k] == pt_byte(x, k),
                    xi == pt_byte(x, i as int),
                    arr@ == spec_perm_at(ck, x, i as int),
                    arr@.len() == 256,
                    out@ == base2 + Seq::new(j as nat,
                        |jj: int| spec_right_entry(ck, pk, x, nonce@, i as int, jj)),
                decreases 256 - j,
            {
                let c = arr[j];
                let mut cm = prefix_msg(TAG_LEFT, i as u8, &xb, i);
                cm.push(c);
                proof {
                    assert(xb@.take(i as int) =~= pt_prefix(x, i as int));
                    assert(cm@ =~= left_msg(i as int, pt_prefix(x, i as int), c));
                }
                let lc = prf16(&self.key.prf_key, &cm);
                let blind = h3(&lc, nonce, i as u8, j as u8);
                let trit: u8 = if c < xi { 0 } else if c == xi { 1 } else { 2 };
                let stored: u8 = ((trit + blind) % 3) * 0x55;
                proof {
                    assert(trit as int == cmp3(c, pt_byte(x, i as int)));
                    assert(stored == spec_right_entry(ck, pk, x, nonce@,
                        i as int, j as int));
                    assert(out@.push(stored) =~= base2 + Seq::new(j as nat + 1,
                        |jj: int| spec_right_entry(ck, pk, x, nonce@, i as int, jj)));
                }
                out.push(stored);
                j += 1;
            }
            proof {
                lemma_blocks_len(ck, pk, x, nonce@, i as int);
                assert(out@ =~= nonce@
                    + spec_blocks(ck, pk, x, nonce@, i as int + 1));
            }
            i += 1;
        }
        proof {
            lemma_blocks_len(ck, pk, x, nonce@, 8);
            assert(out@ == spec_ct_body(ck, pk, x, nonce@));
        }
        let c = checksum_over(&out);
        out.push(c);
        proof {
            assert(out@ =~= spec_encrypt(ck, pk, x, nonce@));
            lemma_encrypt_wf(ck, pk, x, nonce@);
        }
        OreAes128Ciphertext::from_parts(out)
    }

    /// Encrypts an unsigned 64-bit plaintext under a fresh random nonce.
    /// Success is always owed; the error arm exists only for the taxonomy.
    pub fn encrypt_u64(&self, x: u64) -> (r: Result<OreAes128Ciphertext, OreError>)
        requires
            self.wf(),
        ensures
            r is Ok,
            r is Ok ==> r->Ok_0.wf() && exists|nc: Seq<u8>|
                nc.len() == 16
                    && r->Ok_0@ == spec_encrypt(self.ck(), self.pk(), x, nc),
    {
        let nonce = random_nonce();
        let c = self.encrypt_with_nonce(x, &nonce);
        proof {
            assert(nonce@.len() == 16
                && c@ == spec_encrypt(self.ck(), self.pk(), x, nonce@));
        }
        Ok(c)
    }

    /// Encrypts a boolean: `false` orders below `true`.
    pub fn encrypt_bool(&self, b: bool) -> (r: Result<OreAes128Ciphertext, OreError>)
        requires
            self.wf(),
        ensures
            r is Ok,
            r is Ok ==> r->Ok_0.wf() && exists|nc: Seq<u8>|
                nc.len() == 16 && r->Ok_0@ == spec_encrypt(self.ck(), self.pk(),
                    spec_encode_bool(b), nc),
    {
        self.encrypt_u64(encode_bool(b))
    }

    /// Encrypts the bit pattern of an IEEE double through the monotonic
    /// float encoding.  NaN patterns are rejected by contract.
    pub fn encrypt_f64_bits(&self, bits: u64) -> (r: Result<OreAes128Ciphertext, OreError>)
        requires
            self.wf(),
            !f64_bits_is_nan(bits),
        ensures
            r is Ok,
            r is Ok ==> r->Ok_0.wf() && exists|nc: Seq<u8>|
                nc.len() == 16 && r->Ok_0@ == spec_encrypt(self.ck(), self.pk(),
                    spec_encode_f64(bits), nc),
    {
        self.encrypt_u64(encode_f64_bits(bits))
    }

    /// Encrypts a short text through the lexicographic eight-byte digest.
    pub fn encrypt_text(&self, bytes: &Vec<u8>) -> (r: Result<OreAes128Ciphertext, OreError>)
        requires
            self.wf(),
        ensures
            r is Ok,
            r is Ok ==> r->Ok_0.wf() && exists|nc: Seq<u8>|
                nc.len() == 16 && r->Ok_0@ == spec_encrypt(self.ck(), self.pk(),
                    spec_encode_text(bytes@), nc),
    {
        self.encrypt_u64(encode_text(bytes))
    }
}

/// The eight plaintext bytes, most significant first.
fn u64_be_bytes(x: u64) -> (r: Vec<u8>)
    ensures
        r@.len() == 8,
        forall|k: int| 0 <= k < 8 ==> r@[k] == pt_byte(x, k),
{
    let mut r: Vec<u8> = Vec::new();
    let mut i: usize = 0;
    while i < 8
        invariant
            i <= 8,
            r@.len() == i,
            forall|k: int| 0 <= k < i ==> r@[k] == pt_byte(x, k),
        decreases 8 - i,
    {
        let sh: u64 = (56 - 8 * i) as u64;
        let b: u8 = #[verifier::truncate] (((x >> sh) & 0xff) as u8);
        proof {
            assert(sh == ((7 - i as int) * 8) as u64);
            assert(b == pt_byte(x, i as int));
        }
        r.push(b);
        i += 1;
    }
    r
}

/// Tag, position and plaintext-prefix message prefix.
fn prefix_msg(tag: u8, pos: u8, xb: &Vec<u8>, n: usize) -> (r: Vec<u8>)
    requires
        n <= xb@.len(),
    ensures
        r@ == seq![tag, pos] + xb@.take(n as int),
        r@.len() == 2 + n,
{
    let mut r: Vec<u8> = Vec::new();
    r.push(tag);
    r.push(pos);
    let mut k: usize = 0;
    while k < n
        invariant
            k <= n <= xb@.len(),
            r@.len() == 2 + k,
            r@[0] == tag,
            r@[1] == pos,
            forall|q: int| 0 <= q < k ==> r@[2 + q] == #[trigger] xb@[q],
        decreases n - k,
    {
        r.push(xb[k]);
        k += 1;
    }
    proof {
        assert(r@ =~= seq![tag, pos] + xb@.take(n as int));
    }
    r
}

} // verus!
