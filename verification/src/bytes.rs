//! Little-endian integer fields inside byte buffers, and byte comparison.
use vstd::prelude::*;

verus! {

/// The value of the little-endian `u16` stored at `at`.
pub open spec fn le16(s: Seq<u8>, at: int) -> int {
    s[at] + s[at + 1] * 256
}

/// The value of the little-endian `u32` stored at `at`.
pub open spec fn le32(s: Seq<u8>, at: int) -> int {
    s[at] + s[at + 1] * 256 + s[at + 2] * 65536 + s[at + 3] * 16777216
}

/// The four little-endian bytes of `n`.
pub open spec fn le32_bytes(n: u32) -> Seq<u8> {
    seq![(n % 256) as u8, ((n / 256) % 256) as u8, ((n / 65536) % 256) as u8, (n / 16777216) as u8]
}

/// The four little-endian bytes of `n` read back as `n`.
pub proof fn lemma_le32_bytes(n: u32)
    ensures
        le32(le32_bytes(n), 0) == n,
        le32_bytes(n).len() == 4,
{
}

pub fn read_le16(s: &[u8], at: usize) -> (v: u16)
    requires
        at + 2 <= s@.len(),
    ensures
        v == le16(s@, at as int),
{
    s[at] as u16 + (s[at + 1] as u16) * 256
}

pub fn read_le32(s: &[u8], at: usize) -> (v: u32)
    requires
        at + 4 <= s@.len(),
    ensures
        v == le32(s@, at as int),
{
    s[at] as u32 + (s[at + 1] as u32) * 256 + (s[at + 2] as u32) * 65536 + (s[at + 3] as u32)
        * 16777216
}

pub fn push_le32(out: &mut Vec<u8>, n: u32)
    ensures
        final(out)@ == old(out)@ + le32_bytes(n),
{
    out.push((n % 256) as u8);
    out.push(((n / 256) % 256) as u8);
    out.push(((n / 65536) % 256) as u8);
    out.push((n / 16777216) as u8);
}

pub fn push_le16(out: &mut Vec<u8>, n: u16)
    ensures
        final(out)@ == old(out)@ + seq![(n % 256) as u8, (n / 256) as u8],
{
    out.push((n % 256) as u8);
    out.push((n / 256) as u8);
}

/// Whether two byte strings are equal.
pub(crate) fn bytes_equal(a: &[u8], b: &[u8]) -> (r: bool)
    ensures
        r == (a@ == b@),
{
    if a.len() != b.len() {
        return false;
    }
    let mut i: usize = 0;
    while i < a.len()
        invariant
            i <= a@.len(),
            a@.len() == b@.len(),
            forall|j: int| 0 <= j < i ==> a@[j] == b@[j],
        decreases a@.len() - i,
    {
        if a[i] != b[i] {
            return false;
        }
        i += 1;
    }
    assert(a@ =~= b@);
    true
}

} // verus!
