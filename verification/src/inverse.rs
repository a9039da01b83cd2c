//! Reading gives back what writing wrote: the payload of a value decodes to
//! that value.

use vstd::prelude::*;
use crate::bitpadded::{capacity, encoded, lemma_encoded_prefix};
use crate::bytes::{be16_signed, byte_span, signed_be, signed_bound, signed_bytes, twos};
use crate::decode::{decoded_value, integer_width, pair_value};
use crate::render::{int_payload, low16_bytes, pair_payload};
use crate::value::ValueView;

verus! {

/// From one byte on, the number of values that bytes can hold is even.
pub proof fn lemma_capacity_even(n: nat)
    requires
        n >= 1,
    ensures
        capacity(n, 8) % 2 == 0,
        capacity(n, 8) >= 256,
    decreases n,
{
    if n > 1 {
        lemma_capacity_even((n - 1) as nat);
    }
    assert(capacity(n, 8) == 256 * capacity((n - 1) as nat, 8));
}

/// The bytes of an unsigned pattern, read as a signed integer, give the
/// pattern where its top bit is clear and the pattern less the span of the
/// bytes where it is set.
pub proof fn lemma_signed_of_pattern(pattern: nat, n: nat)
    requires
        n >= 1,
        pattern < capacity(n, 8),
    ensures
        signed_be(encoded(pattern, n, 8)) == if 2 * pattern >= capacity(n, 8) {
            pattern - capacity(n, 8)
        } else {
            pattern as int
        },
    decreases n,
{
    let s = encoded(pattern, n, 8);
    lemma_encoded_prefix(pattern, n, 8);
    assert(capacity(n, 8) == 256 * capacity((n - 1) as nat, 8));
    if n == 1 {
        assert(capacity(0, 8) == 1);
        assert(s.len() == 1);
        assert(s.last() == s[0]);
        assert(s[0] as nat == pattern % 256);
    } else {
        let c = capacity((n - 1) as nat, 8);
        lemma_capacity_even((n - 1) as nat);
        assert(pattern / 256 < c);
        lemma_signed_of_pattern(pattern / 256, (n - 1) as nat);
        assert(s.drop_last() == encoded(pattern / 256, (n - 1) as nat, 8));
        assert(s.len() >= 2);
        assert(signed_be(s) == signed_be(s.drop_last()) * 256 + s.last());
        assert((pattern / 256) * 256 + pattern % 256 == pattern);
        assert((2 * (pattern / 256) >= c) == (2 * pattern >= 256 * c)) by {
            let h = c / 2;
            assert(c == 2 * h);
        }
    }
}

/// The span of 1, 2, 4 and 8 bytes is their capacity.
pub proof fn lemma_span_is_capacity(n: nat)
    requires
        n == 1 || n == 2 || n == 4 || n == 8,
    ensures
        byte_span(n as int) == capacity(n, 8),
{
    reveal_with_fuel(capacity, 9);
}

/// A signed integer is read back from its bytes in two's complement.
pub proof fn lemma_signed_round_trip(value: int, n: nat)
    requires
        n == 1 || n == 2 || n == 4 || n == 8,
        -signed_bound(n as int) <= value < signed_bound(n as int),
    ensures
        signed_be(signed_bytes(value, n)) == value,
        signed_bytes(value, n).len() == n,
{
    lemma_span_is_capacity(n);
    lemma_signed_of_pattern(twos(value, n as int), n);
}

/// An integer is read back from the payload it is written as.
pub proof fn lemma_integer_round_trip(key: Seq<char>, value: i64)
    ensures
        decoded_value(21, key, int_payload(value)) == Some(ValueView::Integer(seq![value])),
{
    if -0x80 <= value < 0x80 {
        lemma_signed_round_trip(value as int, 1);
    } else if -0x8000 <= value < 0x8000 {
        lemma_signed_round_trip(value as int, 2);
    } else if -0x8000_0000 <= value < 0x8000_0000 {
        lemma_signed_round_trip(value as int, 4);
    } else {
        lemma_signed_round_trip(value as int, 8);
    }
    assert(integer_width(int_payload(value).len()));
}

/// The two bytes of a number that fits in 16 bits spell that number.
pub proof fn lemma_low16(value: i32)
    requires
        -0x8000 <= value < 0x8000,
    ensures
        signed_be(low16_bytes(value)) == value,
{
    let s = low16_bytes(value);
    assert(s.len() == 2);
    assert(s.drop_last() =~= seq![s[0]]);
    assert(signed_be(s) == signed_be(s.drop_last()) * 0x100 + s.last());
}

/// A pair of numbers that fit in 16 bits each is read back from the payload
/// it is written as, under the keys that hold pairs.
pub proof fn lemma_pair_round_trip(key: Seq<char>, pair: (i32, i32))
    requires
        key == "trkn"@ || key == "disk"@,
        -0x8000 <= pair.0 < 0x8000,
        -0x8000 <= pair.1 < 0x8000,
    ensures
        decoded_value(0, key, pair_payload(pair)) == Some(ValueView::IntPair(seq![pair])),
{
    let p = pair_payload(pair);
    assert(p.len() == 8);
    assert(p.subrange(2, 4) =~= low16_bytes(pair.0));
    assert(p.subrange(4, 6) =~= low16_bytes(pair.1));
    lemma_low16(pair.0);
    lemma_low16(pair.1);
    assert(be16_signed(p, 2) == pair.0);
    assert(be16_signed(p, 4) == pair.1);
    assert(pair_value(p) == Some(ValueView::IntPair(seq![pair])));
}

} // verus!
