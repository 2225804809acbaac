//! Order-preserving encoders from the supported plaintext domains onto the
//! 64-bit unsigned integers that the scheme encrypts.

use vstd::prelude::*;

verus! {

/// Unsigned integers are encrypted as they are.
pub open spec fn spec_encode_u64(x: u64) -> u64 {
    x
}

/// Identity encoding of an unsigned 64-bit plaintext.
pub fn encode_u64(x: u64) -> (r: u64)
    ensures
        r == spec_encode_u64(x),
{
    x
}

/// Booleans encode as zero and one.
pub open spec fn spec_encode_bool(b: bool) -> u64 {
    if b { 1u64 } else { 0u64 }
}

/// Encodes a boolean: `false` before `true`.
pub fn encode_bool(b: bool) -> (r: u64)
    ensures
        r == spec_encode_bool(b),
{
    if b { 1 } else { 0 }
}

/// Whether a 64-bit pattern is an IEEE double NaN: all exponent bits set and
/// a non-zero mantissa.
pub open spec fn f64_bits_is_nan(b: u64) -> bool {
    (b >> 52) & 0x7ff == 0x7ff && (b & 0xf_ffff_ffff_ffff) != 0
}

/// The sign bit of an IEEE double bit pattern.
pub open spec fn f64_bits_negative(b: u64) -> bool {
    b >> 63 == 1
}

/// The magnitude bits (exponent and mantissa) of an IEEE double bit pattern.
pub open spec fn f64_bits_mag(b: u64) -> u64 {
    b & 0x7fff_ffff_ffff_ffff
}

/// The IEEE `<` relation between two non-NaN double bit patterns: negatives
/// order by descending magnitude, non-negatives by ascending magnitude, and
/// the two zero patterns compare equal.
pub open spec fn f64_bits_lt(a: u64, b: u64) -> bool {
    if f64_bits_negative(a) && f64_bits_negative(b) {
        f64_bits_mag(a) > f64_bits_mag(b)
    } else if !f64_bits_negative(a) && !f64_bits_negative(b) {
        f64_bits_mag(a) < f64_bits_mag(b)
    } else if f64_bits_negative(a) && !f64_bits_negative(b) {
        !(f64_bits_mag(a) == 0 && f64_bits_mag(b) == 0)
    } else {
        false
    }
}

/// The monotonic remapping of an IEEE double bit pattern: a strictly
/// negative value's bits are complemented, any other value's sign bit is
/// set, so the most negative finite double maps lowest and the most
/// positive maps highest.  The two IEEE zeroes, equal as doubles, collapse
/// to one code.
pub open spec fn spec_encode_f64(b: u64) -> u64 {
    if f64_bits_negative(b) && f64_bits_mag(b) != 0 {
        !b
    } else {
        f64_bits_mag(b) | 0x8000_0000_0000_0000
    }
}

/// Encodes the bit pattern of an IEEE double order-preservingly.
///
/// NaN patterns are rejected by contract: their order is undefined and they
/// must not be silently miscompared.
pub fn encode_f64_bits(bits: u64) -> (r: u64)
    requires
        !f64_bits_is_nan(bits),
    ensures
        r == spec_encode_f64(bits),
{
    if bits >> 63 == 1 && (bits & 0x7fff_ffff_ffff_ffff) != 0 {
        !bits
    } else {
        (bits & 0x7fff_ffff_ffff_ffff) | 0x8000_0000_0000_0000
    }
}

/// The float encoding is strictly monotonic: IEEE order of non-NaN bit
/// patterns maps exactly to unsigned order of the codes, and two patterns
/// encode identically exactly when they denote the same double — the two
/// zeroes included.
pub proof fn lemma_f64_encode_monotonic(a: u64, b: u64)
    requires
        !f64_bits_is_nan(a),
        !f64_bits_is_nan(b),
    ensures
        f64_bits_lt(a, b) <==> spec_encode_f64(a) < spec_encode_f64(b),
        spec_encode_f64(a) == spec_encode_f64(b)
            <==> (a == b || (f64_bits_mag(a) == 0 && f64_bits_mag(b) == 0)),
{
    assert(f64_bits_lt(a, b) <==> spec_encode_f64(a) < spec_encode_f64(b))
        by (bit_vector);
    assert(spec_encode_f64(a) == spec_encode_f64(b)
        <==> (a == b || (f64_bits_mag(a) == 0 && f64_bits_mag(b) == 0)))
        by (bit_vector);
}

/// Powers of 256, for bounding partial text encodings.
pub open spec fn pow256(i: int) -> int
    decreases i,
{
    if i <= 0 { 1 } else { 256 * pow256(i - 1) }
}

/// The byte a text contributes at position `i`: its own byte inside the
/// text, zero padding beyond its end.
pub open spec fn text_byte(b: Seq<u8>, i: int) -> u8 {
    if 0 <= i < b.len() { b[i] } else { 0u8 }
}

/// The big-endian value of the first `i` contributed bytes.
pub open spec fn spec_encode_text_to(b: Seq<u8>, i: int) -> int
    decreases i,
{
    if i <= 0 {
        0
    } else {
        spec_encode_text_to(b, i - 1) * 256 + text_byte(b, i - 1)
    }
}

/// The text encoding: the first eight bytes, zero-padded on the right and
/// read big-endian.  Bytes beyond the eighth do not discriminate — a known
/// limitation of the fixed-width digest.
pub open spec fn spec_encode_text(b: Seq<u8>) -> u64 {
    spec_encode_text_to(b, 8) as u64
}

proof fn lemma_text_to_bound(b: Seq<u8>, i: int)
    requires
        0 <= i,
    ensures
        0 <= spec_encode_text_to(b, i) < pow256(i),
    decreases i,
{
    if i > 0 {
        lemma_text_to_bound(b, i - 1);
    }
}

proof fn lemma_pow256_mono(i: int, j: int)
    requires
        0 <= i <= j,
    ensures
        pow256(i) <= pow256(j),
    decreases j,
{
    if i < j {
        lemma_pow256_mono(i, j - 1);
        lemma_text_pow_pos(j - 1);
    }
}

proof fn lemma_text_pow_pos(i: int)
    ensures
        pow256(i) >= 1,
    decreases i,
{
    if i > 0 {
        lemma_text_pow_pos(i - 1);
    }
}

/// Encodes UTF-8 (or raw) bytes as a lexicographic 64-bit digest.
pub fn encode_text(bytes: &Vec<u8>) -> (r: u64)
    ensures
        r == spec_encode_text(bytes@),
{
    let mut r: u64 = 0;
    let mut i: usize = 0;
    while i < 8
        invariant
            i <= 8,
            r as int == spec_encode_text_to(bytes@, i as int),
            (r as int) < pow256(i as int),
        decreases 8 - i,
    {
        let byte: u8 = if i < bytes.len() { bytes[i] } else { 0 };
        proof {
            assert(byte == text_byte(bytes@, i as int));
            lemma_pow256_mono(i as int, 7);
            reveal_with_fuel(pow256, 9);
            assert(pow256(7) == 0x100_0000_0000_0000);
        }
        r = r * 256 + (byte as u64);
        i += 1;
    }
    r
}

/// The text encoding respects lexicographic order: texts of eight bytes that
/// first differ at some position encode in the order of that position's
/// bytes.
pub proof fn lemma_text_encode_order(a: Seq<u8>, b: Seq<u8>, k: int)
    requires
        a.len() == 8,
        b.len() == 8,
        0 <= k < 8,
        forall|m: int| 0 <= m < k ==> a[m] == b[m],
        a[k] < b[k],
    ensures
        spec_encode_text(a) < spec_encode_text(b),
{
    lemma_text_to_prefix_eq(a, b, k);
    lemma_text_to_lt(a, b, k, 8);
    lemma_text_to_bound(a, 8);
    lemma_text_to_bound(b, 8);
    reveal_with_fuel(pow256, 9);
    assert(pow256(8) == 0x1_0000_0000_0000_0000);
}

proof fn lemma_text_to_prefix_eq(a: Seq<u8>, b: Seq<u8>, k: int)
    requires
        0 <= k <= a.len(),
        a.len() == b.len(),
        forall|m: int| 0 <= m < k ==> a[m] == b[m],
    ensures
        spec_encode_text_to(a, k) == spec_encode_text_to(b, k),
    decreases k,
{
    if k > 0 {
        lemma_text_to_prefix_eq(a, b, k - 1);
    }
}

proof fn lemma_text_to_lt(a: Seq<u8>, b: Seq<u8>, k: int, i: int)
    requires
        a.len() == 8,
        b.len() == 8,
        0 <= k < 8,
        k < i <= 8,
        forall|m: int| 0 <= m < k ==> a[m] == b[m],
        a[k] < b[k],
    ensures
        spec_encode_text_to(a, i) < spec_encode_text_to(b, i),
    decreases i,
{
    if i == k + 1 {
        lemma_text_to_prefix_eq(a, b, k);
    } else {
        lemma_text_to_lt(a, b, k, i - 1);
    }
}

} // verus!
