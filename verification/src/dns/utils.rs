//! Bit ranges of a 16-bit word, and the wire form of a domain name.

use vstd::prelude::*;
use vstd::string::*;

verus! {

/// Whether bit `pos` of `data` is set. Bit 0 is the least significant.
pub open spec fn bit_at(data: u16, pos: u16) -> bool {
    (data >> pos) & 1 == 1
}

/// The word whose lowest `len` bits are set.
pub open spec fn low_mask(len: u16) -> u16 {
    if len >= 16 {
        0xFFFFu16
    } else {
        ((1u16 << len) - 1) as u16
    }
}

/// The `len` bits of `data` from bit `pos` upwards, as a number.
pub open spec fn field_at(data: u16, pos: u16, len: u16) -> u16 {
    (data >> pos) & low_mask(len)
}

/// `data` with bit `pos` set or cleared.
pub open spec fn with_bit(data: u16, pos: u16, value: bool) -> u16 {
    if value {
        data | (1u16 << pos)
    } else {
        data & !(1u16 << pos)
    }
}

/// `data` with the `len` bits from bit `pos` upwards cleared and `value`,
/// moved up by `pos` bits, laid over it.
pub open spec fn with_field(data: u16, pos: u16, len: u16, value: u16) -> u16 {
    (data & !(low_mask(len) << pos)) | (value << pos)
}

/// Reads the bit at position `pos` of `data`.
pub fn get_bit(data: u16, pos: usize) -> (bit: bool)
    requires
        pos < 16,
    ensures
        bit == bit_at(data, pos as u16),
{
    let p: u16 = pos as u16;
    assert((data & (1u16 << p)) >> p == (data >> p) & 1) by (bit_vector)
        requires
            p < 16,
    ;
    ((data & (1u16 << p)) >> p) == 1
}

/// Reads the `len` bits of `data` from bit `pos` upwards.
pub fn get_value(data: u16, pos: usize, len: usize) -> (value: u16)
    requires
        1 <= len,
        pos + len <= 16,
    ensures
        value == field_at(data, pos as u16, len as u16),
        forall|i: u16| i < 16 ==> #[trigger] bit_at(value, i) == (i < len && bit_at(data, (pos + i) as u16)),
{
    let p: u16 = pos as u16;
    let l: u16 = len as u16;
    assert((data << ((16 - p - l) as u16)) >> ((16 - l) as u16) == field_at(data, p, l))
        by (bit_vector)
        requires
            1 <= l,
            p + l <= 16,
    ;
    assert(forall|i: u16|
        i < 16 ==> #[trigger] bit_at(field_at(data, p, l), i) == (i < l && bit_at(data, (p + i) as u16)))
        by (bit_vector)
        requires
            1 <= l,
            p + l <= 16,
    ;
    let value = (data << (16 - p - l)) >> (16 - l);
    assert(value == field_at(data, p, l));
    value
}

/// Sets or clears the bit at position `pos` of `data`.
pub fn set_bit(data: u16, pos: usize, value: bool) -> (result: u16)
    requires
        pos < 16,
    ensures
        result == with_bit(data, pos as u16, value),
        forall|i: u16|
            i < 16 ==> #[trigger] bit_at(result, i) == (if i == pos {
                value
            } else {
                bit_at(data, i)
            }),
{
    let p: u16 = pos as u16;
    assert(forall|i: u16|
        i < 16 ==> #[trigger] bit_at(with_bit(data, p, value), i) == (if i == p {
            value
        } else {
            bit_at(data, i)
        })) by (bit_vector)
        requires
            p < 16,
    ;
    let result = if value {
        data | (1u16 << p)
    } else {
        data & !(1u16 << p)
    };
    assert(result == with_bit(data, p, value));
    result
}

/// Writes `value` over the `len` bits of `data` from bit `pos` upwards.
/// Bits of `value` above its lowest `len` are not cut off: they are
/// or-ed into the bits of `data` above the field.
pub fn set_value(data: u16, pos: usize, len: usize, value: u16) -> (result: u16)
    requires
        pos < 16,
        len < 16,
        pos + len <= 16,
    ensures
        result == with_field(data, pos as u16, len as u16, value),
        forall|i: u16|
            i < 16 ==> #[trigger] bit_at(result, i) == (if i < pos {
                bit_at(data, i)
            } else if i < pos + len {
                bit_at(value, (i - pos) as u16)
            } else {
                bit_at(data, i) || bit_at(value, (i - pos) as u16)
            }),
{
    let p: u16 = pos as u16;
    let l: u16 = len as u16;
    assert(forall|i: u16|
        i < 16 ==> #[trigger] bit_at(with_field(data, p, l, value), i) == (if i < p {
            bit_at(data, i)
        } else if i < p + l {
            bit_at(value, (i - p) as u16)
        } else {
            bit_at(data, i) || bit_at(value, (i - p) as u16)
        })) by (bit_vector)
        requires
            p < 16,
            l < 16,
            p + l <= 16,
    ;
    assert((1u16 << l) >= 1) by (bit_vector)
        requires
            l < 16,
    ;
    let mask: u16 = ((1u16 << l) - 1) << p;
    let cleared_bits = data & !mask;
    let shifted_value = value << p;
    let result = cleared_bits | shifted_value;
    assert(result == with_field(data, p, l, value));
    result
}

/// How many octets stand before the first dot of `name`; its length
/// where it has no dot.
pub open spec fn first_dot(name: Seq<u8>) -> nat
    decreases name.len(),
{
    if name.len() == 0 || name[0] == 0x2E {
        0
    } else {
        1 + first_dot(name.skip(1))
    }
}

/// The parts of `name` between its dots, each behind an octet that
/// holds its length (modulo 256), one after another. A name without a
/// dot is one part; a dot at the end is followed by an empty part.
pub open spec fn labels(name: Seq<u8>) -> Seq<u8>
    decreases name.len(),
{
    let n = first_dot(name);
    if n >= name.len() {
        seq![(n % 256) as u8] + name
    } else {
        seq![(n % 256) as u8] + name.take(n as int) + labels(name.skip(n as int + 1))
    }
}

/// The wire form of a dotted name: its labels, and a zero octet behind
/// them unless they end in one already.
pub open spec fn wire_name(name: Seq<u8>) -> Seq<u8> {
    let l = labels(name);
    if l.last() != 0 {
        l.push(0u8)
    } else {
        l
    }
}

/// The first dot is where a scan from the left finds it.
proof fn lemma_first_dot_is(name: Seq<u8>, n: int)
    requires
        0 <= n <= name.len(),
        forall|k: int| 0 <= k < n ==> name[k] != 0x2E,
        n < name.len() ==> name[n] == 0x2E,
    ensures
        first_dot(name) == n,
    decreases name.len(),
{
    if name.len() == 0 || name[0] == 0x2E {
    } else {
        let rest = name.skip(1);
        assert forall|k: int| 0 <= k < n - 1 implies rest[k] != 0x2E by {
            assert(rest[k] == name[k + 1]);
        }
        lemma_first_dot_is(rest, n - 1);
    }
}

/// Appends to `out` the labels of `name`.
fn push_labels(out: &mut Vec<u8>, name: &[u8])
    ensures
        final(out)@ == old(out)@ + labels(name@),
{
    let mut start: usize = 0;
    assert(name@.skip(0) == name@);
    loop
        invariant
            start <= name.len(),
            old(out)@ + labels(name@) == out@ + labels(name@.skip(start as int)),
        decreases name.len() - start,
    {
        let mut end: usize = start;
        while end < name.len() && name[end] != 0x2E
            invariant
                start <= end <= name.len(),
                forall|k: int| start <= k < end ==> name@[k] != 0x2E,
            decreases name.len() - end,
        {
            end = end + 1;
        }
        let ghost rest = name@.skip(start as int);
        proof {
            assert forall|k: int| 0 <= k < end - start implies rest[k] != 0x2E by {
                assert(rest[k] == name@[start + k]);
            }
            lemma_first_dot_is(rest, end - start);
        }
        let len: usize = end - start;
        out.push((len % 256) as u8);
        out.extend_from_slice(&name[start..end]);
        assert(name@.subrange(start as int, end as int) == rest.take(len as int));
        if end == name.len() {
            assert(rest.take(len as int) == rest);
            return ;
        }
        assert(rest.skip(len + 1) == name@.skip(end + 1));
        start = end + 1;
    }
}

/// Turns a dotted name into its wire form: each part between dots behind
/// an octet with its length, and a zero octet at the end unless the
/// labels end in one already, as they do after a trailing dot.
pub fn transform_domain(domain: &str) -> (result: Vec<u8>)
    ensures
        result@ == wire_name(domain.spec_bytes()),
{
    let mut result: Vec<u8> = Vec::new();
    push_labels(&mut result, domain.as_bytes());
    assert(result@ == labels(domain.spec_bytes()));
    let n = result.len();
    if n > 0 && result[n - 1] != 0 {
        result.push(0);
    }
    result
}

} // verus!
