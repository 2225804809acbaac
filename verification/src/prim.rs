//! The two outside primitives the scheme rests on — the AES-128 block cipher
//! and the system random number generator — together with the small keyed
//! functions built on them in verified code.

use vstd::prelude::*;
use aes::cipher::BlockCipherEncrypt;
use aes::cipher::KeyInit;
use rand::Rng;
use crate::KEY_LEN;
use crate::NONCE_LEN;

verus! {

/// The 16-byte output of the AES-128 block cipher for the given key and
/// input block.  The cipher's definition is not restated here; contracts
/// speak of its result through this name alone.
pub uninterp spec fn aes_block_of(key: Seq<u8>, block: Seq<u8>) -> Seq<u8>;

/// Relies on `aes::Aes128` (`KeyInit::new` and
/// `BlockCipherEncrypt::encrypt_block`): a pure function of the 16-byte key
/// and the 16-byte input block, returning the 16-byte encrypted block.
#[verifier::external_body]
fn aes128_block(key: &Vec<u8>, block: &Vec<u8>) -> (r: Vec<u8>)
    requires
        key@.len() == KEY_LEN,
        block@.len() == KEY_LEN,
    ensures
        r@ == aes_block_of(key@, block@),
        r@.len() == 16,
{
    let mut k = [0u8; 16];
    k.copy_from_slice(key);
    let mut b = [0u8; 16];
    b.copy_from_slice(block);
    let cipher = aes::Aes128::new(&aes::cipher::Array::from(k));
    let mut blk = aes::cipher::Array::from(b);
    cipher.encrypt_block(&mut blk);
    blk.as_slice().to_vec()
}

/// Relies on `rand::rng()` and `Rng::fill_bytes`: fills the buffer entirely
/// with fresh random bytes.  Nothing is promised of the values drawn.  The
/// thread generator aborts the process if the operating system's randomness
/// source fails at first use — an environment fault of the same class as
/// memory exhaustion, not an input-dependent failure.
#[verifier::external_body]
pub(crate) fn random_nonce() -> (r: Vec<u8>)
    ensures
        r@.len() == NONCE_LEN,
{
    let mut buf = vec![0u8; NONCE_LEN];
    rand::rng().fill_bytes(&mut buf);
    buf
}

/// The first 16 bytes of `s`, zero-padded on the right if `s` is shorter.
pub open spec fn block16(s: Seq<u8>) -> Seq<u8> {
    Seq::new(16, |k: int| if 0 <= k < s.len() { s[k] } else { 0u8 })
}

/// Byte-wise exclusive or; the result has the length of `a`.
pub open spec fn xor_bytes(a: Seq<u8>, b: Seq<u8>) -> Seq<u8> {
    Seq::new(a.len(), |k: int| a[k] ^ b[k])
}

/// The keyed pseudorandom function over short messages: AES-128 applied to
/// the zero-padded message block.
pub open spec fn spec_prf16(key: Seq<u8>, msg: Seq<u8>) -> Seq<u8> {
    block16(aes_block_of(key, block16(msg)))
}

/// The public blinding function: a three-way value derived from a left part,
/// a nonce and a position/slot pair.  Both the encryptor and the comparator
/// can compute it from ciphertext fields alone.
pub open spec fn spec_h3(left: Seq<u8>, nonce: Seq<u8>, i: u8, j: u8) -> u8 {
    block16(aes_block_of(nonce, xor_bytes(left, block16(seq![i, j]))))[0] % 3
}

/// The byte stream that seeds the per-position shuffle.
pub open spec fn spec_stream(key: Seq<u8>, seed: Seq<u8>, t: u8) -> u8 {
    block16(aes_block_of(key, xor_bytes(seed, block16(seq![t]))))[0]
}

/// Zero-pads a short message to one cipher block.
fn pad_block(msg: &Vec<u8>) -> (r: Vec<u8>)
    requires
        msg@.len() <= 16,
    ensures
        r@ == block16(msg@),
{
    let mut r: Vec<u8> = Vec::new();
    let mut i: usize = 0;
    while i < msg.len()
        invariant
            i <= msg@.len() <= 16,
            r@ == msg@.take(i as int),
        decreases msg@.len() - i,
    {
        r.push(msg[i]);
        i += 1;
    }
    while r.len() < 16
        invariant
            msg@.len() <= r@.len() <= 16,
            r@.take(msg@.len() as int) == msg@,
            forall|k: int| msg@.len() <= k < r@.len() ==> r@[k] == 0u8,
        decreases 16 - r@.len(),
    {
        r.push(0u8);
    }
    proof {
        assert(r@ =~= block16(msg@));
    }
    r
}

/// Byte-wise exclusive or of two 16-byte values.
fn xor_block(a: &Vec<u8>, b: &Vec<u8>) -> (r: Vec<u8>)
    requires
        a@.len() == 16,
        b@.len() == 16,
    ensures
        r@ == xor_bytes(a@, b@),
{
    let mut r: Vec<u8> = Vec::new();
    let mut i: usize = 0;
    while i < 16
        invariant
            i <= 16,
            a@.len() == 16,
            b@.len() == 16,
            r@.len() == i,
            forall|k: int| 0 <= k < i ==> r@[k] == (a@[k] ^ b@[k]),
        decreases 16 - i,
    {
        r.push(a[i] ^ b[i]);
        i += 1;
    }
    proof {
        assert(r@ =~= xor_bytes(a@, b@));
    }
    r
}

/// The keyed pseudorandom function, executable form.
pub(crate) fn prf16(key: &Vec<u8>, msg: &Vec<u8>) -> (r: Vec<u8>)
    requires
        key@.len() == KEY_LEN,
        msg@.len() <= 16,
    ensures
        r@ == spec_prf16(key@, msg@),
        r@.len() == 16,
{
    let padded = pad_block(msg);
    let out = aes128_block(key, &padded);
    proof {
        assert(block16(out@) =~= out@);
    }
    out
}

/// The public blinding function, executable form.
pub(crate) fn h3(left: &Vec<u8>, nonce: &Vec<u8>, i: u8, j: u8) -> (r: u8)
    requires
        left@.len() == 16,
        nonce@.len() == NONCE_LEN,
    ensures
        r == spec_h3(left@, nonce@, i, j),
        r < 3,
{
    let mut m: Vec<u8> = Vec::new();
    m.push(i);
    m.push(j);
    proof {
        assert(m@ =~= seq![i, j]);
    }
    let padded = pad_block(&m);
    let x = xor_block(left, &padded);
    let out = aes128_block(nonce, &x);
    proof {
        assert(block16(out@) =~= out@);
    }
    out[0] % 3
}

/// The shuffle-seeding stream, executable form.
pub(crate) fn stream_byte(key: &Vec<u8>, seed: &Vec<u8>, t: u8) -> (r: u8)
    requires
        key@.len() == KEY_LEN,
        seed@.len() == 16,
    ensures
        r == spec_stream(key@, seed@, t),
{
    let mut m: Vec<u8> = Vec::new();
    m.push(t);
    proof {
        assert(m@ =~= seq![t]);
    }
    let padded = pad_block(&m);
    let x = xor_block(seed, &padded);
    let out = aes128_block(key, &x);
    proof {
        assert(block16(out@) =~= out@);
    }
    out[0]
}

} // verus!
