//! Big-endian numbers in byte strings.

use vstd::prelude::*;

verus! {

/// The 16-bit number whose big-endian octets are `hi` and `lo`.
pub open spec fn be16(hi: u8, lo: u8) -> u16 {
    (hi as int * 256 + lo as int) as u16
}

/// The two big-endian octets of a 16-bit number.
pub open spec fn be16_bytes(n: u16) -> Seq<u8> {
    seq![(n / 256) as u8, (n % 256) as u8]
}

/// The 32-bit number whose big-endian octets are `b0` to `b3`.
pub open spec fn be32(b0: u8, b1: u8, b2: u8, b3: u8) -> u32 {
    (b0 as int * 0x100_0000 + b1 as int * 0x1_0000 + b2 as int * 0x100 + b3 as int) as u32
}

/// The four big-endian octets of a 32-bit number.
pub open spec fn be32_bytes(n: u32) -> Seq<u8> {
    seq![
        (n / 0x100_0000) as u8,
        ((n / 0x1_0000) % 256) as u8,
        ((n / 0x100) % 256) as u8,
        (n % 256) as u8,
    ]
}

/// The octets of the number of two octets are those octets.
pub proof fn lemma_be16_bytes(hi: u8, lo: u8)
    ensures
        be16_bytes(be16(hi, lo)) == seq![hi, lo],
{
    let n = be16(hi, lo);
    assert(n == hi as int * 256 + lo as int);
    assert(n / 256 == hi as int);
    assert(n % 256 == lo as int);
    assert(be16_bytes(n) =~= seq![hi, lo]);
}

/// The number of the octets of a number is that number.
pub proof fn lemma_be16_value(n: u16)
    ensures
        be16_bytes(n).len() == 2,
        be16(be16_bytes(n)[0], be16_bytes(n)[1]) == n,
{
}

/// The octets of the number of four octets are those octets.
pub proof fn lemma_be32_bytes(b0: u8, b1: u8, b2: u8, b3: u8)
    ensures
        be32_bytes(be32(b0, b1, b2, b3)) == seq![b0, b1, b2, b3],
{
    let n = be32(b0, b1, b2, b3);
    assert(n / 0x100_0000 == b0 && (n / 0x1_0000) % 256 == b1 && (n / 0x100) % 256 == b2 && n
        % 256 == b3) by (bit_vector)
        requires
            n == b0 as u32 * 0x100_0000 + b1 as u32 * 0x1_0000 + b2 as u32 * 0x100 + b3 as u32,
    ;
    assert(be32_bytes(n) =~= seq![b0, b1, b2, b3]);
}

/// The number of the octets of a number is that number.
pub proof fn lemma_be32_value(n: u32)
    ensures
        be32_bytes(n).len() == 4,
        be32(be32_bytes(n)[0], be32_bytes(n)[1], be32_bytes(n)[2], be32_bytes(n)[3]) == n,
{
    let b0 = (n / 0x100_0000) as u8;
    let b1 = ((n / 0x1_0000) % 256) as u8;
    let b2 = ((n / 0x100) % 256) as u8;
    let b3 = (n % 256) as u8;
    assert(n == (n / 0x100_0000) * 0x100_0000 + ((n / 0x1_0000) % 256) * 0x1_0000 + ((n / 0x100)
        % 256) * 0x100 + n % 256 && n / 0x100_0000 < 256) by (bit_vector);
}

/// Reads the big-endian 16-bit number at `at`.
pub fn read_be16(data: &[u8], at: usize) -> (n: u16)
    requires
        at + 2 <= data.len(),
    ensures
        n == be16(data@[at as int], data@[at + 1]),
{
    (data[at] as u16) * 256 + data[at + 1] as u16
}

/// Reads the big-endian 32-bit number at `at`.
pub fn read_be32(data: &[u8], at: usize) -> (n: u32)
    requires
        at + 4 <= data.len(),
    ensures
        n == be32(data@[at as int], data@[at + 1], data@[at + 2], data@[at + 3]),
{
    (data[at] as u32) * 0x100_0000 + (data[at + 1] as u32) * 0x1_0000 + (data[at + 2] as u32)
        * 0x100 + data[at + 3] as u32
}

/// Appends the two big-endian octets of `n`.
pub fn push_be16(out: &mut Vec<u8>, n: u16)
    ensures
        final(out)@ == old(out)@ + be16_bytes(n),
{
    out.push((n / 256) as u8);
    out.push((n % 256) as u8);
    assert(out@ == old(out)@ + be16_bytes(n));
}

/// Appends the four big-endian octets of `n`.
pub fn push_be32(out: &mut Vec<u8>, n: u32)
    ensures
        final(out)@ == old(out)@ + be32_bytes(n),
{
    out.push((n / 0x100_0000) as u8);
    out.push(((n / 0x1_0000) % 256) as u8);
    out.push(((n / 0x100) % 256) as u8);
    out.push((n % 256) as u8);
    assert(out@ == old(out)@ + be32_bytes(n));
}

/// A copy of a byte string.
pub fn copy_bytes(data: &[u8]) -> (copy: Vec<u8>)
    ensures
        copy@ == data@,
{
    let mut copy: Vec<u8> = Vec::new();
    copy.extend_from_slice(data);
    copy
}

/// Whether two byte strings are equal.
pub fn same_bytes(a: &[u8], b: &[u8]) -> (same: bool)
    ensures
        same == (a@ == b@),
{
    if a.len() != b.len() {
        return false;
    }
    let mut i: usize = 0;
    while i < a.len()
        invariant
            i <= a.len(),
            a.len() == b.len(),
            forall|k: int| 0 <= k < i ==> a@[k] == b@[k],
        decreases a.len() - i,
    {
        if a[i] != b[i] {
            return false;
        }
        i = i + 1;
    }
    assert(a@ =~= b@);
    true
}

} // verus!
