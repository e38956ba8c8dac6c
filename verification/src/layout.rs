//! Byte-level building blocks: zero-filled buffers, in-place byte writes and
//! little-endian integer fields, each pinned down pointwise in its contract.

use vstd::prelude::*;

verus! {

/// Byte `k` (counting from the least significant) of the little-endian
/// encoding of `x`.
pub open spec fn byte_of(x: int, k: int) -> u8
    decreases k,
{
    if k <= 0 {
        (x % 256) as u8
    } else {
        byte_of(x / 256, k - 1)
    }
}

/// The `n` bytes of `s` starting at `off` hold the `n`-byte little-endian
/// encoding of `x`.
pub open spec fn le_at(s: Seq<u8>, off: int, n: int, x: int) -> bool {
    forall|k: int| 0 <= k < n ==> s[off + k] == #[trigger] byte_of(x, k)
}

pub proof fn lemma_byte_of_zero(k: int)
    ensures
        byte_of(0, k) == 0u8,
    decreases (if k <= 0 { 0int } else { k }),
{
    if k > 0 {
        lemma_byte_of_zero(k - 1);
    }
}

/// A buffer of `n` zero bytes.
pub fn zeroed(n: usize) -> (v: Vec<u8>)
    ensures
        v@.len() == n,
        forall|i: int| 0 <= i < n ==> v@[i] == 0u8,
{
    let mut v: Vec<u8> = Vec::with_capacity(n);
    let mut i: usize = 0;
    while i < n
        invariant
            i <= n,
            v@.len() == i,
            forall|j: int| 0 <= j < i ==> v@[j] == 0u8,
        decreases n - i,
    {
        v.push(0u8);
        i = i + 1;
    }
    v
}

/// Copies all of `data` into `v` at `off`; every byte outside the copied
/// range keeps its old value.
pub fn write_bytes(v: &mut Vec<u8>, off: usize, data: &Vec<u8>)
    requires
        off + data@.len() <= old(v)@.len(),
    ensures
        final(v)@.len() == old(v)@.len(),
        forall|i: int| off <= i < off + data@.len() ==> final(v)@[i] == data@[i - off],
        forall|i: int|
            0 <= i < final(v)@.len() && !(off <= i < off + data@.len()) ==> final(v)@[i] == old(
                v,
            )@[i],
{
    let n = data.len();
    let len = v.len();
    let mut j: usize = 0;
    while j < n
        invariant
            n == data@.len(),
            off + n <= len,
            len == v@.len(),
            v@.len() == old(v)@.len(),
            j <= n,
            forall|i: int| off <= i < off + j ==> v@[i] == data@[i - off],
            forall|i: int| 0 <= i < v@.len() && !(off <= i < off + j) ==> v@[i] == old(v)@[i],
        decreases n - j,
    {
        v.set(off + j, data[j]);
        j = j + 1;
    }
}

/// Fills `v[lo..hi]` with the byte `b`; every byte outside keeps its value.
pub fn fill(v: &mut Vec<u8>, lo: usize, hi: usize, b: u8)
    requires
        lo <= hi <= old(v)@.len(),
    ensures
        final(v)@.len() == old(v)@.len(),
        forall|i: int| lo <= i < hi ==> final(v)@[i] == b,
        forall|i: int| 0 <= i < final(v)@.len() && !(lo <= i < hi) ==> final(v)@[i] == old(v)@[i],
{
    let len = v.len();
    let mut j: usize = lo;
    while j < hi
        invariant
            lo <= j <= hi <= len,
            len == v@.len(),
            v@.len() == old(v)@.len(),
            forall|i: int| lo <= i < j ==> v@[i] == b,
            forall|i: int| 0 <= i < v@.len() && !(lo <= i < j) ==> v@[i] == old(v)@[i],
        decreases hi - j,
    {
        v.set(j, b);
        j = j + 1;
    }
}

/// Two buffers holding the same little-endian field agree on its bytes.
pub proof fn lemma_le_unique(s1: Seq<u8>, s2: Seq<u8>, off: int, cnt: int, x: int)
    requires
        le_at(s1, off, cnt, x),
        le_at(s2, off, cnt, x),
    ensures
        forall|i: int| off <= i < off + cnt ==> s1[i] == s2[i],
{
    assert forall|i: int| off <= i < off + cnt implies s1[i] == s2[i] by {
        assert(s1[off + (i - off)] == byte_of(x, i - off));
        assert(s2[off + (i - off)] == byte_of(x, i - off));
    }
}

/// A run of zero bytes encodes the integer zero, at any width.
pub proof fn lemma_le_zero(s: Seq<u8>, off: int, n: int)
    requires
        forall|i: int| off <= i < off + n ==> s[i] == 0u8,
    ensures
        le_at(s, off, n, 0),
{
    assert forall|k: int| 0 <= k < n implies s[off + k] == #[trigger] byte_of(0, k) by {
        lemma_byte_of_zero(k);
        assert(s[off + k] == 0u8);
    }
}

/// Writes the `n`-byte little-endian encoding of `x` into `v` at `off`;
/// every byte outside the written range keeps its old value.
pub fn write_le(v: &mut Vec<u8>, off: usize, n: usize, x: u64)
    requires
        off + n <= old(v)@.len(),
    ensures
        final(v)@.len() == old(v)@.len(),
        le_at(final(v)@, off as int, n as int, x as int),
        forall|i: int|
            0 <= i < final(v)@.len() && !(off <= i < off + n) ==> final(v)@[i] == old(v)@[i],
{
    let len = v.len();
    let mut k: usize = 0;
    let mut cur: u64 = x;
    while k < n
        invariant
            off + n <= len,
            len == v@.len(),
            v@.len() == old(v)@.len(),
            k <= n,
            forall|j: int| 0 <= j < k ==> v@[off + j] == #[trigger] byte_of(x as int, j),
            forall|j: int|
                k <= j < n ==> #[trigger] byte_of(x as int, j) == byte_of(cur as int, j - k),
            forall|i: int| 0 <= i < v@.len() && !(off <= i < off + k) ==> v@[i] == old(v)@[i],
        decreases n - k,
    {
        let b: u8 = (cur % 256) as u8;
        proof {
            assert(byte_of(x as int, k as int) == byte_of(cur as int, 0));
            assert(byte_of(cur as int, 0) == b);
        }
        v.set(off + k, b);
        let ghost oldcur = cur as int;
        cur = cur / 256;
        proof {
            assert forall|j: int| k + 1 <= j < n implies #[trigger] byte_of(x as int, j)
                == byte_of(cur as int, j - (k + 1)) by {
                assert(byte_of(x as int, j) == byte_of(oldcur, j - k));
                assert(byte_of(oldcur, j - k) == byte_of(oldcur / 256, j - k - 1));
            }
        }
        k = k + 1;
    }
}

} // verus!
