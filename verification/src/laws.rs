//! The laws the library states of itself, proved over the spec-level model:
//! order preservation, nonce-driven non-repetition, round-trip fidelity and
//! corruption detection.

use vstd::prelude::*;
use crate::encode::f64_bits_is_nan;
use crate::encode::f64_bits_lt;
use crate::encode::spec_encode_f64;
use crate::encode::spec_encode_bool;
use crate::encode::spec_encode_text;
use crate::encode::lemma_f64_encode_monotonic;
use crate::encode::lemma_text_encode_order;
use crate::prim::spec_h3;
use crate::perm::perm_ok;
use crate::perm::spec_slot_idx;
use crate::perm::lemma_perm_ok;
use crate::ciphertext::block_off;
use crate::ciphertext::right_off;
use crate::ciphertext::wf_ct_bytes;
use crate::ciphertext::spec_serialize;
use crate::ciphertext::spec_deserialize;
use crate::ciphertext::byte_sum;
use crate::ciphertext::csum_of;
use crate::ciphertext::lemma_byte_sum_nonneg;
use crate::ciphertext::lemma_byte_sum_agree;
use crate::ciphertext::lemma_byte_sum_update;
use crate::compare::spec_ind_at;
use crate::compare::spec_cmp_from;
use crate::compare::spec_compare;
use crate::scheme::pt_byte;
use crate::scheme::pt_prefix;
use crate::scheme::perm_msg;
use crate::scheme::left_msg;
use crate::scheme::spec_perm_at;
use crate::scheme::spec_left_at;
use crate::scheme::cmp3;
use crate::scheme::trit_byte;
use crate::scheme::spec_right_entry;
use crate::scheme::spec_block;
use crate::scheme::spec_encrypt;
use crate::scheme::lemma_encrypt_byte;
use crate::scheme::lemma_encrypt_nonce_byte;
use crate::scheme::lemma_encrypt_wf;

verus! {

/// The three-way order of two plaintexts.
pub open spec fn spec_u64_sign(x: u64, y: u64) -> int {
    if x < y { -1 } else if x == y { 0 } else { 1 }
}

/// Big-endian byte comparison of two plaintexts from position `i` on.
pub open spec fn spec_byte_cmp_from(x: u64, y: u64, i: int) -> int
    decreases 8 - i,
{
    if i >= 8 {
        0
    } else if pt_byte(x, i) < pt_byte(y, i) {
        -1
    } else if pt_byte(x, i) > pt_byte(y, i) {
        1
    } else {
        spec_byte_cmp_from(x, y, i + 1)
    }
}

proof fn lemma_ind_at(
    ck: Seq<u8>, pk: Seq<u8>, x: u64, y: u64, n1: Seq<u8>, n2: Seq<u8>, i: int,
)
    requires
        n1.len() == 16,
        n2.len() == 16,
        0 <= i < 8,
        pt_prefix(x, i) == pt_prefix(y, i),
    ensures
        spec_ind_at(
            spec_encrypt(ck, pk, x, n1), spec_encrypt(ck, pk, y, n2), i,
        ) == cmp3(pt_byte(x, i), pt_byte(y, i)),
{
    let ca = spec_encrypt(ck, pk, x, n1);
    let cb = spec_encrypt(ck, pk, y, n2);
    let arr = spec_perm_at(ck, x, i);
    let bx = pt_byte(x, i);
    let by = pt_byte(y, i);

    assert(perm_msg(x, i) == perm_msg(y, i));
    assert(spec_perm_at(ck, y, i) == arr);
    lemma_perm_ok(ck, crate::prim::spec_prf16(ck, perm_msg(x, i)));
    assert(perm_ok(arr));

    // The slot the true byte occupies is a genuine slot.
    let slot = spec_slot_idx(arr, bx);
    assert(arr.contains(bx));
    let w = choose|q: int| 0 <= q < arr.len() && arr[q] == bx;
    assert(0 <= w < 256 && arr[w] == bx);
    assert(0 <= slot < 256 && arr[slot] == bx);

    // The stored slot byte of `a`'s block.
    lemma_encrypt_byte(ck, pk, x, n1, i, 0);
    assert(ca[block_off(i)] == spec_block(ck, pk, x, n1, i)[0]);
    assert(ca[block_off(i)] as int == slot);

    // `a`'s left part is the subrange its block stores.
    let la = ca.subrange(block_off(i) + 1, block_off(i) + 17);
    assert forall|m: int| 0 <= m < 16 implies
        la[m] == spec_left_at(pk, x, i)[m] by {
        lemma_encrypt_byte(ck, pk, x, n1, i, 1 + m);
    }
    assert(la =~= spec_left_at(pk, x, i));

    // `b`'s nonce is the subrange its bytes start with.
    let nb = cb.subrange(0, 16);
    assert forall|m: int| 0 <= m < 16 implies nb[m] == n2[m] by {
        lemma_encrypt_nonce_byte(ck, pk, y, n2, m);
    }
    assert(nb =~= n2);

    // The right entry of `b` at that slot speaks of candidate `bx`.
    lemma_encrypt_byte(ck, pk, y, n2, i, 17 + slot);
    assert(cb[right_off(i) + slot]
        == spec_block(ck, pk, y, n2, i)[17 + slot]);
    assert(spec_block(ck, pk, y, n2, i)[17 + slot]
        == spec_right_entry(ck, pk, y, n2, i, slot));

    // The blinding on that entry is the value recomputed from `a`'s left
    // part and `b`'s nonce: equal prefixes give equal left messages.
    assert(left_msg(i, pt_prefix(y, i), bx) == left_msg(i, pt_prefix(x, i), bx));
    let blind = spec_h3(spec_left_at(pk, x, i), n2, i as u8, slot as u8) as int;
    let t = (cmp3(bx, by) + blind) % 3;
    assert(spec_right_entry(ck, pk, y, n2, i, slot) == trit_byte(t));
    assert(0 <= t < 3);
    assert(trit_byte(t) as int == t * 0x55);
    assert(trit_byte(t) as int / 0x55 == t);
    assert((t + 3 - blind) % 3 == cmp3(bx, by));
    assert((slot as u8) as int == slot);
}

proof fn lemma_cmp_from(
    ck: Seq<u8>, pk: Seq<u8>, x: u64, y: u64, n1: Seq<u8>, n2: Seq<u8>, i: int,
)
    requires
        n1.len() == 16,
        n2.len() == 16,
        0 <= i <= 8,
        pt_prefix(x, i) == pt_prefix(y, i),
    ensures
        spec_cmp_from(
            spec_encrypt(ck, pk, x, n1), spec_encrypt(ck, pk, y, n2), i,
        ) == spec_byte_cmp_from(x, y, i),
    decreases 8 - i,
{
    if i < 8 {
        lemma_ind_at(ck, pk, x, y, n1, n2, i);
        if pt_byte(x, i) == pt_byte(y, i) {
            let p1 = pt_prefix(x, i + 1);
            let p2 = pt_prefix(y, i + 1);
            assert forall|k: int| 0 <= k < i + 1 implies p1[k] == p2[k] by {
                assert(p1[k] == pt_byte(x, k));
                assert(p2[k] == pt_byte(y, k));
                if k < i {
                    assert(pt_prefix(x, i)[k] == pt_byte(x, k));
                    assert(pt_prefix(y, i)[k] == pt_byte(y, k));
                    assert(pt_prefix(x, i)[k] == pt_prefix(y, i)[k]);
                }
            }
            assert(pt_prefix(x, i + 1) =~= pt_prefix(y, i + 1));
            lemma_cmp_from(ck, pk, x, y, n1, n2, i + 1);
        }
    }
}

proof fn lemma_byte_cmp_bridge(x: u64, y: u64, i: u64)
    requires
        i <= 8,
        x >> ((64 - 8 * i) as u64) == y >> ((64 - 8 * i) as u64),
    ensures
        spec_byte_cmp_from(x, y, i as int) == spec_u64_sign(x, y),
    decreases 8 - i,
{
    let sh: u64 = (64 - 8 * i) as u64;
    if i == 8 {
        assert(x == y) by (bit_vector)
            requires
                sh == 0,
                x >> sh == y >> sh,
        ;
    } else {
        let shb: u64 = (56 - 8 * i) as u64;
        let vx: u64 = (x >> shb) & 0xff;
        let vy: u64 = (y >> shb) & 0xff;
        assert(vx < 256 && vy < 256) by (bit_vector)
            requires
                vx == (x >> shb) & 0xff,
                vy == (y >> shb) & 0xff,
        ;
        assert(pt_byte(x, i as int) as int == vx);
        assert(pt_byte(y, i as int) as int == vy);
        if vx < vy {
            assert(x < y) by (bit_vector)
                requires
                    sh == shb + 8,
                    sh <= 64,
                    x >> sh == y >> sh,
                    ((x >> shb) & 0xff) < ((y >> shb) & 0xff),
            ;
        } else if vx > vy {
            assert(y < x) by (bit_vector)
                requires
                    sh == shb + 8,
                    sh <= 64,
                    x >> sh == y >> sh,
                    ((y >> shb) & 0xff) < ((x >> shb) & 0xff),
            ;
        } else {
            assert(x >> shb == y >> shb) by (bit_vector)
                requires
                    sh == shb + 8,
                    sh <= 64,
                    x >> sh == y >> sh,
                    ((x >> shb) & 0xff) == ((y >> shb) & 0xff),
            ;
            lemma_byte_cmp_bridge(x, y, (i + 1) as u64);
        }
    }
}

/// Order preservation: under one key, the comparison of any two ciphertexts
/// — whatever nonces their encryptions drew — is exactly the order of the
/// two plaintexts.  Equal plaintexts compare equal even though their
/// ciphertext bytes differ.
pub proof fn lemma_order_preserved(
    ck: Seq<u8>, pk: Seq<u8>, x: u64, y: u64, n1: Seq<u8>, n2: Seq<u8>,
)
    requires
        n1.len() == 16,
        n2.len() == 16,
    ensures
        spec_compare(spec_encrypt(ck, pk, x, n1), spec_encrypt(ck, pk, y, n2))
            == Option::Some(spec_u64_sign(x, y)),
{
    lemma_encrypt_wf(ck, pk, x, n1);
    lemma_encrypt_wf(ck, pk, y, n2);
    assert(pt_prefix(x, 0) =~= pt_prefix(y, 0));
    lemma_cmp_from(ck, pk, x, y, n1, n2, 0);
    assert(x >> ((64 - 8 * 0u64) as u64) == y >> ((64 - 8 * 0u64) as u64))
        by (bit_vector);
    lemma_byte_cmp_bridge(x, y, 0);
}

/// Fixed size: every ciphertext serializes to the same length, whatever
/// the plaintext value — sizing leaks nothing.
pub proof fn lemma_fixed_size(ck: Seq<u8>, pk: Seq<u8>, x: u64, nonce: Seq<u8>)
    requires
        nonce.len() == 16,
    ensures
        spec_encrypt(ck, pk, x, nonce).len() == 2201,
{
    crate::scheme::lemma_blocks_len(ck, pk, x, nonce, 8);
}

/// Ciphertext non-repetition: two encryptions of one plaintext that drew
/// different nonces serialize to different bytes (the nonce is embedded),
/// yet by order preservation they still compare equal.
pub proof fn lemma_nonce_distinguishes(
    ck: Seq<u8>, pk: Seq<u8>, x: u64, n1: Seq<u8>, n2: Seq<u8>,
)
    requires
        n1.len() == 16,
        n2.len() == 16,
        n1 != n2,
    ensures
        spec_encrypt(ck, pk, x, n1) != spec_encrypt(ck, pk, x, n2),
        spec_compare(spec_encrypt(ck, pk, x, n1), spec_encrypt(ck, pk, x, n2))
            == Option::Some(0int),
{
    let e1 = spec_encrypt(ck, pk, x, n1);
    let e2 = spec_encrypt(ck, pk, x, n2);
    assert(!(n1 =~= n2));
    let k = choose|k: int| !(0 <= k < 16 ==> n1[k] == n2[k]);
    lemma_encrypt_nonce_byte(ck, pk, x, n1, k);
    lemma_encrypt_nonce_byte(ck, pk, x, n2, k);
    assert(e1[k] != e2[k]);
    lemma_order_preserved(ck, pk, x, x, n1, n2);
}

/// Round-trip fidelity: serializing and deserializing a well-formed
/// ciphertext yields a value that compares identically to the original
/// against any third ciphertext.
pub proof fn lemma_round_trip_fidelity(c: Seq<u8>, t: Seq<u8>)
    requires
        wf_ct_bytes(c),
    ensures
        spec_deserialize(spec_serialize(c)) == Option::Some(c),
        spec_compare(spec_serialize(c), t) == spec_compare(c, t),
{
}

/// Corruption detection, bit flips: flipping any single bit of any byte of
/// a well-formed ciphertext — nonce, slot index, left part, indicator or
/// the checksum itself — makes the bytes ill-formed, so deserialization
/// rejects them and comparison against anything reports corruption, never
/// an order.  A flip changes one byte by a power of two below 256, which
/// the stored sum modulo 256 cannot absorb.
pub proof fn lemma_bit_flip_detected(s: Seq<u8>, k: int, bit: u64, t: Seq<u8>)
    requires
        wf_ct_bytes(s),
        0 <= k < 2201,
        bit < 8,
    ensures
        !wf_ct_bytes(s.update(k, s[k] ^ (1u8 << bit))),
        spec_deserialize(s.update(k, s[k] ^ (1u8 << bit))) is None,
        spec_compare(s.update(k, s[k] ^ (1u8 << bit)), t) is None,
        spec_compare(t, s.update(k, s[k] ^ (1u8 << bit))) is None,
{
    let v = s[k];
    let f = v ^ (1u8 << bit);
    assert(f != v) by (bit_vector)
        requires
            bit < 8,
            f == v ^ (1u8 << bit),
    ;
    let s2 = s.update(k, f);
    if k == 2200 {
        assert forall|m: int| 0 <= m < 2200 implies s2[m] == #[trigger] s[m] by {}
        lemma_byte_sum_agree(s2, s, 2200);
        assert(s2[2200] != csum_of(s2));
    } else {
        lemma_byte_sum_update(s, 2200, k, f);
        let sum1 = byte_sum(s, 2200);
        let sum2 = byte_sum(s2, 2200);
        let d = f - v;
        assert(sum2 == sum1 + d);
        lemma_byte_sum_nonneg(s, 2200);
        lemma_byte_sum_nonneg(s2, 2200);
        if csum_of(s2) == csum_of(s) {
            assert(sum1 % 256 == sum2 % 256);
            vstd::arithmetic::div_mod::lemma_fundamental_div_mod(sum1, 256);
            vstd::arithmetic::div_mod::lemma_fundamental_div_mod(sum2, 256);
            let dq = sum2 / 256 - sum1 / 256;
            assert(d == 256 * dq);
            assert(-256 < d < 256);
            if dq >= 1 {
                assert(256 * dq >= 256) by (nonlinear_arith)
                    requires dq >= 1,
                ;
            }
            if dq <= -1 {
                assert(256 * dq <= -256) by (nonlinear_arith)
                    requires dq <= -1,
                ;
            }
            assert(false);
        }
        assert(s2[2200] == s[2200]);
        assert(s2[2200] != csum_of(s2));
    }
}

/// Corruption detection, truncation: bytes of any length other than the
/// fixed one are rejected by deserialization and comparison alike.
pub proof fn lemma_truncation_detected(s: Seq<u8>, m: int, t: Seq<u8>)
    requires
        wf_ct_bytes(s),
        0 <= m < s.len(),
    ensures
        spec_deserialize(s.take(m)) is None,
        spec_compare(s.take(m), t) is None,
        spec_compare(t, s.take(m)) is None,
{
}

/// Order preservation for floats: two non-NaN double bit patterns in IEEE
/// order encrypt, through the monotonic float encoding, to ciphertexts that
/// compare as less-than.
pub proof fn lemma_order_preserved_f64(
    ck: Seq<u8>, pk: Seq<u8>, a: u64, b: u64, n1: Seq<u8>, n2: Seq<u8>,
)
    requires
        n1.len() == 16,
        n2.len() == 16,
        !f64_bits_is_nan(a),
        !f64_bits_is_nan(b),
        f64_bits_lt(a, b),
    ensures
        spec_compare(
            spec_encrypt(ck, pk, spec_encode_f64(a), n1),
            spec_encrypt(ck, pk, spec_encode_f64(b), n2),
        ) == Option::Some(-1int),
{
    lemma_f64_encode_monotonic(a, b);
    lemma_order_preserved(ck, pk, spec_encode_f64(a), spec_encode_f64(b), n1, n2);
}

/// Order preservation for booleans: the encodings of two booleans encrypt
/// to ciphertexts that compare exactly as `false < true` orders them.
pub proof fn lemma_order_preserved_bool(
    ck: Seq<u8>, pk: Seq<u8>, p: bool, q: bool, n1: Seq<u8>, n2: Seq<u8>,
)
    requires
        n1.len() == 16,
        n2.len() == 16,
    ensures
        spec_compare(
            spec_encrypt(ck, pk, spec_encode_bool(p), n1),
            spec_encrypt(ck, pk, spec_encode_bool(q), n2),
        ) == Option::Some(if p == q { 0int } else if !p { -1int } else { 1int }),
{
    lemma_order_preserved(ck, pk, spec_encode_bool(p), spec_encode_bool(q), n1, n2);
}

/// Order preservation for short text: two eight-byte texts that first
/// differ at some position encrypt, through the lexicographic digest, to
/// ciphertexts that compare as that position's bytes order them.  Texts
/// that agree on their first eight bytes are not discriminated — the
/// digest's documented truncation limit.
pub proof fn lemma_order_preserved_text(
    ck: Seq<u8>, pk: Seq<u8>, a: Seq<u8>, b: Seq<u8>, k: int,
    n1: Seq<u8>, n2: Seq<u8>,
)
    requires
        n1.len() == 16,
        n2.len() == 16,
        a.len() == 8,
        b.len() == 8,
        0 <= k < 8,
        forall|m: int| 0 <= m < k ==> a[m] == b[m],
        a[k] < b[k],
    ensures
        spec_compare(
            spec_encrypt(ck, pk, spec_encode_text(a), n1),
            spec_encrypt(ck, pk, spec_encode_text(b), n2),
        ) == Option::Some(-1int),
{
    lemma_text_encode_order(a, b, k);
    lemma_order_preserved(ck, pk, spec_encode_text(a), spec_encode_text(b), n1, n2);
}

} // verus!
