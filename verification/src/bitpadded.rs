//! Fixed-width integers stored with seven or eight significant bits per byte.
//!
//! ID3v2 writes sizes most significant byte first. A "syncsafe" size keeps the
//! top bit of every byte clear and so carries seven bits per byte; some fields
//! (and some encoders) use all eight.

use vstd::prelude::*;

verus! {

/// The number of values one byte can carry at `bits` bits per byte.
pub open spec fn radix(bits: u8) -> nat {
    if bits == 7 {
        128
    } else {
        256
    }
}

/// The number of values that `width` bytes can carry at `bits` bits per byte.
pub open spec fn capacity(width: nat, bits: u8) -> nat
    decreases width,
{
    if width == 0 {
        1
    } else {
        radix(bits) * capacity((width - 1) as nat, bits)
    }
}

/// `value` with its `k` least significant digits removed.
pub open spec fn shifted(value: nat, k: nat, bits: u8) -> nat
    decreases k,
{
    if k == 0 {
        value
    } else {
        shifted(value, (k - 1) as nat, bits) / radix(bits)
    }
}

/// The digit of `value` with weight `radix(bits)` to the power `k`.
pub open spec fn digit(value: nat, k: nat, bits: u8) -> u8 {
    (shifted(value, k, bits) % radix(bits)) as u8
}

/// The integer that `data` spells, most significant byte first, keeping only
/// the low `bits` bits of each byte and only the low 32 bits of the total.
pub open spec fn decoded(data: Seq<u8>, bits: u8) -> nat
    decreases data.len(),
{
    if data.len() == 0 {
        0
    } else {
        (decoded(data.drop_last(), bits) * radix(bits) + (data.last() as nat) % radix(bits))
            % 0x1_0000_0000
    }
}

/// The `width` least significant digits of `value`, most significant first.
pub open spec fn encoded(value: nat, width: nat, bits: u8) -> Seq<u8> {
    Seq::new(width, |i: int| digit(value, (width - 1 - i) as nat, bits))
}

/// True when the top bit of the byte is clear.
pub open spec fn high_bit_clear(b: u8) -> bool {
    b & 0x80 == 0
}

/// Removing one more digit is the same as removing the first digit beforehand.
pub proof fn lemma_shifted_step(value: nat, k: nat, bits: u8)
    ensures
        shifted(value, k + 1, bits) == shifted(value / radix(bits), k, bits),
    decreases k,
{
    if k > 0 {
        lemma_shifted_step(value, (k - 1) as nat, bits);
        assert(shifted(value, k + 1, bits) == shifted(value, k, bits) / radix(bits));
        assert(shifted(value / radix(bits), k, bits) == shifted(
            value / radix(bits),
            (k - 1) as nat,
            bits,
        ) / radix(bits));
    } else {
        assert(shifted(value, 1, bits) == shifted(value, 0, bits) / radix(bits));
    }
}

/// All but the last byte of an encoding encode the value without its last digit.
pub proof fn lemma_encoded_prefix(value: nat, width: nat, bits: u8)
    requires
        width > 0,
    ensures
        encoded(value, width, bits).drop_last() =~= encoded(
            value / radix(bits),
            (width - 1) as nat,
            bits,
        ),
        encoded(value, width, bits).last() as nat == value % radix(bits),
{
    let a = encoded(value, width, bits).drop_last();
    let b = encoded(value / radix(bits), (width - 1) as nat, bits);
    assert forall|i: int| 0 <= i < width - 1 implies a[i] == b[i] by {
        lemma_shifted_step(value, (width - 2 - i) as nat, bits);
    }
}

/// Decoding undoes encoding: a value that fits in `width` bytes at `bits` bits
/// per byte, and in 32 bits, is read back unchanged from its encoding.
pub proof fn lemma_decode_encode(value: nat, width: nat, bits: u8)
    requires
        bits == 7 || bits == 8,
        value < capacity(width, bits),
        value <= u32::MAX,
    ensures
        decoded(encoded(value, width, bits), bits) == value,
    decreases width,
{
    if width > 0 {
        let r = radix(bits);
        lemma_encoded_prefix(value, width, bits);
        assert(value / r < capacity((width - 1) as nat, bits)) by {
            let c = capacity((width - 1) as nat, bits);
            assert(value < r * c);
            if bits == 7 {
                assert(value / 128 < c);
            } else {
                assert(value / 256 < c);
            }
        }
        lemma_decode_encode(value / r, (width - 1) as nat, bits);
        assert((value % r) % r == value % r);
        assert((value / r) * r + value % r == value) by {
            if bits == 7 {
                assert((value / 128) * 128 + value % 128 == value);
            } else {
                assert((value / 256) * 256 + value % 256 == value);
            }
        }
    } else {
        assert(encoded(value, width, bits).len() == 0);
    }
}

/// A decoded integer is below the capacity of the bytes it was read from.
pub proof fn lemma_decoded_bound(data: Seq<u8>, bits: u8)
    requires
        bits == 7 || bits == 8,
    ensures
        decoded(data, bits) < capacity(data.len(), bits),
        decoded(data, bits) < 0x1_0000_0000,
    decreases data.len(),
{
    if data.len() > 0 {
        lemma_decoded_bound(data.drop_last(), bits);
        let d = decoded(data.drop_last(), bits);
        let c = capacity((data.len() - 1) as nat, bits);
        assert(capacity(data.len(), bits) == radix(bits) * c);
        if bits == 7 {
            assert(d * 128 + (data.last() as nat) % 128 < 128 * c);
        } else {
            assert(d * 256 + (data.last() as nat) % 256 < 256 * c);
        }
    }
}

/// Codec for bit-padded integers. It holds no data.
pub struct BitPaddedInt;

impl BitPaddedInt {
    /// Reads `data` as an integer with `bits` significant bits per byte.
    ///
    /// Bits above the low `bits` of a byte are ignored, never rejected, and
    /// digits that do not fit in 32 bits are lost.
    pub fn decode(data: &[u8], bits: u8) -> (result: u32)
        requires
            bits == 7 || bits == 8,
        ensures
            result == decoded(data@, bits),
    {
        let mut result: u32 = 0;
        let mut i: usize = 0;
        while i < data.len()
            invariant
                i <= data.len(),
                bits == 7 || bits == 8,
                result == decoded(data@.take(i as int), bits),
            decreases data.len() - i,
        {
            let b: u8 = data[i];
            let prev: u32 = result;
            if bits == 7 {
                result = (result << 7) | (b as u32 & 0x7f);
                assert(result == (prev as nat * 128 + (b as nat) % 128) % 0x1_0000_0000) by {
                    let next: u32 = (prev << 7) | (b as u32 & 0x7f);
                    assert(next as u64 == (prev as u64 * 128 + (b as u64) % 128) % 0x1_0000_0000)
                        by (bit_vector)
                        requires
                            next == (prev << 7) | (b as u32 & 0x7f),
                    ;
                }
            } else {
                result = (result << 8) | (b as u32 & 0xff);
                assert(result == (prev as nat * 256 + (b as nat) % 256) % 0x1_0000_0000) by {
                    let next: u32 = (prev << 8) | (b as u32 & 0xff);
                    assert(next as u64 == (prev as u64 * 256 + (b as u64) % 256) % 0x1_0000_0000)
                        by (bit_vector)
                        requires
                            next == (prev << 8) | (b as u32 & 0xff),
                    ;
                }
            }
            assert(data@.take(i + 1).drop_last() =~= data@.take(i as int));
            i += 1;
        }
        assert(data@.take(data.len() as int) =~= data@);
        result
    }

    /// Reads `data` as a syncsafe integer: seven bits per byte.
    pub fn syncsafe(data: &[u8]) -> (result: u32)
        ensures
            result == decoded(data@, 7),
    {
        Self::decode(data, 7)
    }

    /// Reads `data` as a plain big-endian integer: eight bits per byte.
    pub fn normal(data: &[u8]) -> (result: u32)
        ensures
            result == decoded(data@, 8),
    {
        Self::decode(data, 8)
    }

    /// Writes the `width` least significant digits of `value`, most
    /// significant first. Digits that need more room are dropped silently.
    pub fn encode(value: u32, width: usize, bits: u8) -> (result: Vec<u8>)
        requires
            bits == 7 || bits == 8,
        ensures
            result@ == encoded(value as nat, width as nat, bits),
            value < capacity(width as nat, bits) ==> decoded(result@, bits) == value,
    {
        let mut result: Vec<u8> = vec![0u8; width];
        let mut val: u32 = value;
        let mut i: usize = width;
        while i > 0
            invariant
                i <= width,
                bits == 7 || bits == 8,
                result@.len() == width,
                val == shifted(value as nat, (width - i) as nat, bits),
                forall|j: int|
                    i <= j < width ==> result@[j] == digit(
                        value as nat,
                        (width - 1 - j) as nat,
                        bits,
                    ),
            decreases i,
        {
            i -= 1;
            let prev: u32 = val;
            if bits == 7 {
                let d: u8 = (val & 0x7f) as u8;
                val = val >> 7;
                assert(d as nat == (prev as nat) % 128 && val as nat == (prev as nat) / 128) by {
                    assert(d as u32 == prev % 128 && val == prev / 128) by (bit_vector)
                        requires
                            d == (prev & 0x7f) as u8,
                            val == prev >> 7,
                    ;
                }
                result.set(i, d);
            } else {
                let d: u8 = (val & 0xff) as u8;
                val = val >> 8;
                assert(d as nat == (prev as nat) % 256 && val as nat == (prev as nat) / 256) by {
                    assert(d as u32 == prev % 256 && val == prev / 256) by (bit_vector)
                        requires
                            d == (prev & 0xff) as u8,
                            val == prev >> 8,
                    ;
                }
                result.set(i, d);
            }
            assert(shifted(value as nat, (width - i) as nat, bits) == shifted(
                value as nat,
                (width - i - 1) as nat,
                bits,
            ) / radix(bits));
        }
        assert(result@ =~= encoded(value as nat, width as nat, bits));
        proof {
            if value < capacity(width as nat, bits) {
                lemma_decode_encode(value as nat, width as nat, bits);
            }
        }
        result
    }

    /// Tells whether `data` could be a syncsafe integer: no byte has its top
    /// bit set.
    pub fn has_valid_padding(data: &[u8]) -> (result: bool)
        ensures
            result == (forall|i: int| 0 <= i < data@.len() ==> high_bit_clear(#[trigger] data@[i])),
    {
        let mut i: usize = 0;
        while i < data.len()
            invariant
                i <= data.len(),
                forall|j: int| 0 <= j < i ==> high_bit_clear(#[trigger] data@[j]),
            decreases data.len() - i,
        {
            if data[i] & 0x80 != 0 {
                return false;
            }
            i += 1;
        }
        true
    }
}

} // verus!
