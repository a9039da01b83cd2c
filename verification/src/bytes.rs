//! Integers written most significant byte first.

use vstd::prelude::*;
use crate::bitpadded::{digit, encoded, shifted};

verus! {

/// The four bytes of a 32-bit integer, most significant first.
pub open spec fn be32_bytes(x: int) -> Seq<u8> {
    seq![
        ((x / 0x100_0000) % 0x100) as u8,
        ((x / 0x1_0000) % 0x100) as u8,
        ((x / 0x100) % 0x100) as u8,
        (x % 0x100) as u8,
    ]
}

/// The signed integer that the bytes spell in two's complement, most
/// significant byte first.
pub open spec fn signed_be(s: Seq<u8>) -> int
    decreases s.len(),
{
    if s.len() == 0 {
        0
    } else if s.len() == 1 {
        if s[0] >= 0x80 {
            s[0] - 0x100
        } else {
            s[0] as int
        }
    } else {
        signed_be(s.drop_last()) * 0x100 + s.last()
    }
}

/// The signed 16-bit integer at `at`.
pub open spec fn be16_signed(s: Seq<u8>, at: int) -> int {
    signed_be(s.subrange(at, at + 2))
}

/// Below this bound, in absolute value, lies every signed integer of `n`
/// bytes, for `n` from one to eight.
pub open spec fn signed_bound(n: int) -> int {
    if n <= 1 {
        0x80
    } else if n == 2 {
        0x8000
    } else if n == 3 {
        0x80_0000
    } else if n == 4 {
        0x8000_0000
    } else if n == 5 {
        0x80_0000_0000
    } else if n == 6 {
        0x8000_0000_0000
    } else if n == 7 {
        0x80_0000_0000_0000
    } else {
        0x8000_0000_0000_0000
    }
}

/// The number of values that `n` bytes can hold, for the widths in use.
pub open spec fn byte_span(n: int) -> int {
    2 * signed_bound(n)
}

/// The unsigned integer with the same `n`-byte pattern as `value` has in
/// two's complement.
pub open spec fn twos(value: int, n: int) -> nat {
    if value < 0 {
        (value + byte_span(n)) as nat
    } else {
        value as nat
    }
}

/// The `n` bytes of `value` in two's complement, most significant first.
pub open spec fn signed_bytes(value: int, n: nat) -> Seq<u8> {
    encoded(twos(value, n as int), n, 8)
}

/// Appends the four bytes of `x`, most significant first.
pub fn push_be32(buf: &mut Vec<u8>, x: u32)
    ensures
        final(buf)@ == old(buf)@ + be32_bytes(x as int),
{
    let ghost before = buf@;
    buf.push((x / 0x100_0000) as u8);
    buf.push(((x / 0x1_0000) % 0x100) as u8);
    buf.push(((x / 0x100) % 0x100) as u8);
    buf.push((x % 0x100) as u8);
    assert(buf@ =~= before + be32_bytes(x as int));
}

/// Reads a signed integer of one to eight bytes.
pub fn read_signed(data: &[u8]) -> (result: i64)
    requires
        1 <= data.len() <= 8,
    ensures
        result == signed_be(data@),
{
    let first: u8 = data[0];
    let mut acc: i64 = if first >= 0x80 {
        first as i64 - 0x100
    } else {
        first as i64
    };
    let mut i: usize = 1;
    assert(data@.take(1).len() == 1 && data@.take(1)[0] == first);
    while i < data.len()
        invariant
            1 <= i <= data.len() <= 8,
            acc == signed_be(data@.take(i as int)),
            -signed_bound(i as int) <= acc < signed_bound(i as int),
        decreases data.len() - i,
    {
        assert(data@.take(i + 1).drop_last() =~= data@.take(i as int));
        acc = acc * 0x100 + data[i] as i64;
        i += 1;
    }
    assert(data@.take(i as int) =~= data@);
    acc
}

/// Writes the `width` low bytes of `value`, most significant first.
pub fn be_bytes(value: u64, width: usize) -> (result: Vec<u8>)
    ensures
        result@ == encoded(value as nat, width as nat, 8),
{
    let mut result: Vec<u8> = vec![0u8; width];
    let mut val: u64 = value;
    let mut i: usize = width;
    while i > 0
        invariant
            i <= width,
            result@.len() == width,
            val == shifted(value as nat, (width - i) as nat, 8),
            forall|j: int|
                i <= j < width ==> result@[j] == digit(value as nat, (width - 1 - j) as nat, 8),
        decreases i,
    {
        i -= 1;
        result.set(i, (val % 0x100) as u8);
        val = val / 0x100;
        assert(shifted(value as nat, (width - i) as nat, 8) == shifted(
            value as nat,
            (width - i - 1) as nat,
            8,
        ) / 256);
    }
    assert(result@ =~= encoded(value as nat, width as nat, 8));
    result
}

/// Writes `value` in two's complement in `width` bytes, where `width` is 1,
/// 2, 4 or 8 and `value` fits.
pub fn write_signed(value: i64, width: usize) -> (result: Vec<u8>)
    requires
        width == 1 || width == 2 || width == 4 || width == 8,
        -signed_bound(width as int) <= value < signed_bound(width as int),
    ensures
        result@ == signed_bytes(value as int, width as nat),
{
    let span: i128 = if width == 1 {
        0x100
    } else if width == 2 {
        0x1_0000
    } else if width == 4 {
        0x1_0000_0000
    } else {
        0x1_0000_0000_0000_0000
    };
    let pattern: u64 = if value < 0 {
        (value as i128 + span) as u64
    } else {
        value as u64
    };
    be_bytes(pattern, width)
}

} // verus!
