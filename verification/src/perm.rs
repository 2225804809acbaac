//! The per-position pseudorandom shuffle of the 256 candidate byte values,
//! built from the seeded byte stream by a Fisher–Yates pass, with a proof
//! that the result is a permutation.

use vstd::prelude::*;
use vstd::pervasive::VecAdditionalExecFns;
use crate::prim::spec_stream;
use crate::prim::stream_byte;
use crate::KEY_LEN;

verus! {

/// The identity arrangement of the 256 byte values.
pub open spec fn ident_perm() -> Seq<u8> {
    Seq::new(256, |v: int| v as u8)
}

/// `s` with the entries at `a` and `b` exchanged.
pub open spec fn swap_at(s: Seq<u8>, a: int, b: int) -> Seq<u8> {
    s.update(a, s[b]).update(b, s[a])
}

/// The exchange partner drawn from the stream at step `t`.
pub open spec fn fy_index(key: Seq<u8>, seed: Seq<u8>, t: int) -> int {
    spec_stream(key, seed, t as u8) as int % (t + 1)
}

/// The arrangement after the Fisher–Yates steps 255 down to `t` have run.
pub open spec fn spec_fy(key: Seq<u8>, seed: Seq<u8>, t: int) -> Seq<u8>
    decreases 256 - t when t <= 256
{
    if t >= 256 {
        ident_perm()
    } else {
        swap_at(spec_fy(key, seed, t + 1), t, fy_index(key, seed, t))
    }
}

/// The per-position shuffle: the arrangement after all steps have run.
pub open spec fn spec_perm(key: Seq<u8>, seed: Seq<u8>) -> Seq<u8> {
    spec_fy(key, seed, 1)
}

/// `s` arranges all 256 byte values: each exactly once.
pub open spec fn perm_ok(s: Seq<u8>) -> bool {
    &&& s.len() == 256
    &&& forall|a: int, b: int|
        0 <= a < 256 && 0 <= b < 256 && a != b ==> s[a] != s[b]
    &&& forall|v: u8| #[trigger] s.contains(v)
}

/// The slot a byte value occupies in an arrangement.
pub open spec fn spec_slot_idx(s: Seq<u8>, v: u8) -> int {
    choose|j: int| 0 <= j < 256 && s[j] == v
}

proof fn lemma_fy_ok(key: Seq<u8>, seed: Seq<u8>, t: int)
    requires
        1 <= t <= 256,
    ensures
        perm_ok(spec_fy(key, seed, t)),
    decreases 256 - t,
{
    if t == 256 {
        let s = spec_fy(key, seed, t);
        assert(s == ident_perm());
        assert forall|v: u8| s.contains(v) by {
            assert(s[v as int] == v);
        }
    } else {
        lemma_fy_ok(key, seed, t + 1);
        let prev = spec_fy(key, seed, t + 1);
        let j = fy_index(key, seed, t);
        assert(0 <= j <= t);
        let cur = spec_fy(key, seed, t);
        assert(cur == swap_at(prev, t, j));
        assert forall|a: int, b: int|
            0 <= a < 256 && 0 <= b < 256 && a != b implies cur[a] != cur[b] by {
            let pa = if a == t { j } else if a == j { t } else { a };
            let pb = if b == t { j } else if b == j { t } else { b };
            assert(cur[a] == prev[pa]);
            assert(cur[b] == prev[pb]);
            assert(prev[pa] != prev[pb]);
        }
        assert forall|v: u8| cur.contains(v) by {
            assert(prev.contains(v));
            let j0 = choose|i: int| 0 <= i < prev.len() && prev[i] == v;
            let nj = if j0 == t { j } else if j0 == j { t } else { j0 };
            assert(cur[nj] == v);
        }
    }
}

/// Every shuffle the scheme derives is a permutation of the byte values.
pub proof fn lemma_perm_ok(key: Seq<u8>, seed: Seq<u8>)
    ensures
        perm_ok(spec_perm(key, seed)),
{
    lemma_fy_ok(key, seed, 1);
}

/// Builds the shuffle for one seed.
pub(crate) fn build_perm(key: &Vec<u8>, seed: &Vec<u8>) -> (r: Vec<u8>)
    requires
        key@.len() == KEY_LEN,
        seed@.len() == 16,
    ensures
        r@ == spec_perm(key@, seed@),
        perm_ok(r@),
{
    let mut arr: Vec<u8> = Vec::new();
    let mut v: usize = 0;
    while v < 256
        invariant
            v <= 256,
            arr@.len() == v,
            forall|k: int| 0 <= k < v ==> arr@[k] == k as u8,
        decreases 256 - v,
    {
        arr.push(v as u8);
        v += 1;
    }
    proof {
        assert(arr@ =~= ident_perm());
    }
    let mut t: usize = 255;
    while t >= 1
        invariant
            t <= 255,
            key@.len() == KEY_LEN,
            seed@.len() == 16,
            arr@ == spec_fy(key@, seed@, t as int + 1),
        decreases t,
    {
        let sb = stream_byte(key, seed, t as u8);
        let jj: usize = (sb as usize) % (t + 1);
        proof {
            assert(jj as int == fy_index(key@, seed@, t as int));
            assert(arr@.len() == 256) by {
                lemma_fy_ok(key@, seed@, t as int + 1);
            }
        }
        let tmp = arr[t];
        let other = arr[jj];
        arr.set(t, other);
        arr.set(jj, tmp);
        proof {
            assert(arr@ =~= spec_fy(key@, seed@, t as int));
        }
        t -= 1;
    }
    proof {
        lemma_perm_ok(key@, seed@);
    }
    arr
}

/// Finds the slot of a byte value in a permutation.
pub(crate) fn slot_of(arr: &Vec<u8>, v: u8) -> (r: u8)
    requires
        perm_ok(arr@),
    ensures
        arr@[r as int] == v,
        r as int == spec_slot_idx(arr@, v),
{
    let mut idx: usize = 0;
    while idx < 256
        invariant
            idx <= 256,
            arr@.len() == 256,
            perm_ok(arr@),
            forall|k: int| 0 <= k < idx ==> arr@[k] != v,
        decreases 256 - idx,
    {
        if arr[idx] == v {
            proof {
                let c = spec_slot_idx(arr@, v);
                assert(arr@[idx as int] == v);
                assert(0 <= c < 256 && arr@[c] == v);
                assert(c == idx as int);
            }
            return idx as u8;
        }
        idx += 1;
    }
    proof {
        assert(arr@.contains(v));
        let w = choose|i: int| 0 <= i < arr@.len() && arr@[i] == v;
        assert(arr@[w] == v);
        assert(false);
    }
    0
}

} // verus!
