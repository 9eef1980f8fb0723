//! Fixed-width byte strings.

use vstd::prelude::*;

verus! {

/// The first 32 bytes of `b`, padded with zeros where `b` is shorter.
pub open spec fn fit32(b: Seq<u8>) -> Seq<u8> {
    Seq::new(32, |i: int| if i < b.len() { b[i] } else { 0u8 })
}

/// Copies the first 32 bytes of `bytes` into an array, zero-padding a shorter input.
pub fn fit_to_32(bytes: &[u8]) -> (r: [u8; 32])
    ensures
        r@ == fit32(bytes@),
{
    let mut out = [0u8; 32];
    let n: usize = if bytes.len() < 32 {
        bytes.len()
    } else {
        32
    };
    let mut i: usize = 0;
    while i < n
        invariant
            n <= 32,
            n <= bytes@.len(),
            n == 32 || n == bytes@.len(),
            i <= n,
            out@.len() == 32,
            forall|k: int| 0 <= k < 32 ==> out@[k] == if k < i { bytes@[k] } else { 0u8 },
        decreases n - i,
    {
        out[i] = bytes[i];
        i += 1;
    }
    assert(out@ =~= fit32(bytes@));
    out
}

/// Appends the bytes of `s` to `buf`.
pub fn append(buf: &mut Vec<u8>, s: &[u8])
    ensures
        final(buf)@ == old(buf)@ + s@,
{
    let ghost start = buf@;
    let mut i: usize = 0;
    while i < s.len()
        invariant
            i <= s@.len(),
            buf@ == start + s@.take(i as int),
        decreases s@.len() - i,
    {
        buf.push(s[i]);
        i += 1;
        assert(buf@ =~= start + s@.take(i as int));
    }
    assert(s@.take(s@.len() as int) =~= s@);
}

/// Whether two byte arrays hold the same bytes.
pub fn same_bytes(a: &[u8; 32], b: &[u8; 32]) -> (r: bool)
    ensures
        r == (a@ == b@),
        r == (*a == *b),
{
    let mut i: usize = 0;
    while i < 32
        invariant
            i <= 32,
            forall|k: int| 0 <= k < i ==> a@[k] == b@[k],
        decreases 32 - i,
    {
        if a[i] != b[i] {
            return false;
        }
        i += 1;
    }
    assert(*a =~= *b);
    true
}

} // verus!
