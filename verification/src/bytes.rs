use vstd::prelude::*;

verus! {

/// The little-endian 16-bit value of the two bytes at `at` and `at + 1`.
pub open spec fn le16(buf: Seq<u8>, at: int) -> nat {
    (buf[at] as nat) + 256 * (buf[at + 1] as nat)
}

/// Reads the little-endian 16-bit value at `at`.
pub fn read_le16(buf: &[u8], at: usize) -> (r: u16)
    requires
        at + 2 <= buf@.len(),
    ensures
        r as nat == le16(buf@, at as int),
{
    let lo = buf[at];
    let hi = buf[at + 1];
    let r: u16 = (lo as u16) | ((hi as u16) << 8u16);
    assert(r == (lo as u16) + 256 * (hi as u16)) by (bit_vector)
        requires
            r == (lo as u16) | ((hi as u16) << 8u16),
    ;
    r
}

/// Copies `buf[start..end]` into a new vector.
pub fn copy_range(buf: &[u8], start: usize, end: usize) -> (r: Vec<u8>)
    requires
        start <= end <= buf@.len(),
    ensures
        r@ == buf@.subrange(start as int, end as int),
{
    let mut r: Vec<u8> = Vec::new();
    let mut i: usize = start;
    while i < end
        invariant
            start <= i <= end <= buf@.len(),
            r@ == buf@.subrange(start as int, i as int),
        decreases end - i,
    {
        r.push(buf[i]);
        i = i + 1;
        assert(r@ =~= buf@.subrange(start as int, i as int));
    }
    r
}

} // verus!
