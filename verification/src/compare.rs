//! The order-revealing comparison, operating directly on serialized bytes:
//! scan the blocks left to right, unblind one indicator per position, stop
//! at the first divergence.

use vstd::prelude::*;
use crate::OreError;
use crate::CT_LEN;
use crate::prim::spec_h3;
use crate::prim::h3;
use crate::ciphertext::block_off;
use crate::ciphertext::right_off;
use crate::ciphertext::valid_trit;
use crate::ciphertext::wf_ct_bytes;
use crate::ciphertext::lemma_right_pos;
use crate::ciphertext::validate_right_parts;
use crate::ciphertext::checksum_ok;
use crate::ciphertext::OreAes128Ciphertext;

verus! {

/// The indicator that position `i` reveals when `a` is compared with `b`:
/// the slot index stored in `a`'s block picks one entry of `b`'s right
/// part, and the blinding recomputed from `a`'s left part and `b`'s nonce
/// strips it to a three-way value.
pub open spec fn spec_ind_at(a: Seq<u8>, b: Seq<u8>, i: int) -> int {
    let h = a[block_off(i)] as int;
    let la = a.subrange(block_off(i) + 1, block_off(i) + 17);
    let nb = b.subrange(0, 16);
    let rb = b[right_off(i) + h] as int;
    (rb / 0x55 + 3 - spec_h3(la, nb, i as u8, h as u8)) % 3
}

/// The comparison outcome scanning from position `i`: the first position
/// whose indicator is not "equal" decides; all-equal means equal.
pub open spec fn spec_cmp_from(a: Seq<u8>, b: Seq<u8>, i: int) -> int
    decreases 8 - i,
{
    if i >= 8 {
        0
    } else {
        let ind = spec_ind_at(a, b, i);
        if ind == 1 {
            spec_cmp_from(a, b, i + 1)
        } else if ind == 0 {
            -1
        } else {
            1
        }
    }
}

/// The full comparison: defined only on well-formed byte forms; anything
/// else is corruption, never an order.
pub open spec fn spec_compare(a: Seq<u8>, b: Seq<u8>) -> Option<int> {
    if wf_ct_bytes(a) && wf_ct_bytes(b) {
        Option::Some(spec_cmp_from(a, b, 0))
    } else {
        Option::None
    }
}

/// Compares two serialized ciphertexts without deserializing them.
///
/// Returns `-1`, `0` or `1` exactly as the scheme's comparison relation
/// orders the two byte forms; structurally invalid or corrupted input is
/// [`OreError::ComparisonError`], never an order.
pub fn compare_raw(a: &Vec<u8>, b: &Vec<u8>) -> (r: Result<i32, OreError>)
    ensures
        r is Ok <==> spec_compare(a@, b@) is Some,
        r is Ok ==> spec_compare(a@, b@) == Option::Some(r->Ok_0 as int),
        r is Err ==> r->Err_0 == OreError::ComparisonError,
{
    if a.len() != CT_LEN || b.len() != CT_LEN {
        return Err(OreError::ComparisonError);
    }
    if !validate_right_parts(a) || !validate_right_parts(b) {
        return Err(OreError::ComparisonError);
    }
    if !checksum_ok(a) || !checksum_ok(b) {
        return Err(OreError::ComparisonError);
    }
    let mut i: usize = 0;
    while i < 8
        invariant
            i <= 8,
            wf_ct_bytes(a@),
            wf_ct_bytes(b@),
            spec_cmp_from(a@, b@, 0) == spec_cmp_from(a@, b@, i as int),
        decreases 8 - i,
    {
        let base: usize = 16 + i * 273;
        let h = a[base];
        let mut la: Vec<u8> = Vec::new();
        let mut m: usize = 0;
        while m < 16
            invariant
                m <= 16,
                a@.len() == 2201,
                base == 16 + i * 273,
                i < 8,
                la@.len() == m,
                forall|q: int| 0 <= q < m ==> la@[q] == a@[base + 1 + q],
            decreases 16 - m,
        {
            la.push(a[base + 1 + m]);
            m += 1;
        }
        let mut nb: Vec<u8> = Vec::new();
        let mut q: usize = 0;
        while q < 16
            invariant
                q <= 16,
                b@.len() == 2201,
                nb@ == b@.take(q as int),
            decreases 16 - q,
        {
            nb.push(b[q]);
            q += 1;
        }
        proof {
            assert(la@ =~= a@.subrange(block_off(i as int) + 1,
                block_off(i as int) + 17));
            assert(nb@ =~= b@.subrange(0, 16));
        }
        let rb = b[base + 17 + (h as usize)];
        proof {
            lemma_right_pos(i as int, h as int);
            assert(valid_trit(b@[right_off(i as int) + h as int]));
        }
        let trit: u8 = rb / 0x55;
        let blind = h3(&la, &nb, i as u8, h);
        let ind: u8 = (trit + 3 - blind) % 3;
        proof {
            assert(ind as int == spec_ind_at(a@, b@, i as int));
        }
        if ind == 0 {
            return Ok(-1);
        } else if ind != 1 {
            return Ok(1);
        }
        i += 1;
    }
    Ok(0)
}

impl OreAes128Ciphertext {
    /// Compares this ciphertext with another of the same key: `-1`, `0` or
    /// `1` as this one's plaintext is below, equal to or above the other's.
    pub fn cmp(&self, other: &Self) -> (r: i32)
        requires
            self.wf(),
            other.wf(),
        ensures
            spec_compare(self@, other@) == Option::Some(r as int),
    {
        let r = compare_raw(self.as_bytes(), other.as_bytes());
        match r {
            Ok(o) => o,
            Err(_) => {
                proof {
                    assert(false);
                }
                0
            },
        }
    }
}

} // verus!
