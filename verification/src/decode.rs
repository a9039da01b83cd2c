//! Reading the value of a `data` box.

use vstd::prelude::*;
use vstd::slice::slice_subrange;
use vstd::slice::slice_to_vec;
use vstd::utf8::{decode_utf8, valid_utf8};
use crate::bytes::{be16_signed, read_signed, signed_be};
use crate::genres::{genre_name, genre_text, GENRE_COUNT};
use crate::text::{decode_utf16be, from_utf8_lossy, str_eq, utf16be_decoded, utf8_lossy};
use crate::value::{CoverView, MP4Cover, MP4CoverFormat, MP4TagValue, ValueView};

verus! {

/// True for the lengths an integer value may have.
pub open spec fn integer_width(n: nat) -> bool {
    n == 1 || n == 2 || n == 3 || n == 4 || n == 8
}

/// The value of a track or disc number: the number, and the total where the
/// payload has room for it.
pub open spec fn pair_value(payload: Seq<u8>) -> Option<ValueView> {
    if payload.len() >= 6 {
        Some(
            ValueView::IntPair(
                seq![(be16_signed(payload, 2) as i32, be16_signed(payload, 4) as i32)],
            ),
        )
    } else if payload.len() >= 4 {
        Some(ValueView::IntPair(seq![(be16_signed(payload, 2) as i32, 0i32)]))
    } else {
        None
    }
}

/// The value of a numbered genre: its name. The numbers count from one; zero
/// and numbers past the table give nothing.
pub open spec fn genre_value(payload: Seq<u8>) -> Option<ValueView> {
    if payload.len() >= 2 {
        let id = payload[0] * 0x100 + payload[1];
        if 1 <= id <= GENRE_COUNT {
            Some(ValueView::Text(seq![genre_text(id - 1)]))
        } else {
            None
        }
    } else {
        None
    }
}

/// The value that a payload holds under its type indicator, for the key of
/// the item it belongs to.
pub open spec fn decoded_value(type_indicator: u32, key: Seq<char>, payload: Seq<u8>) -> Option<
    ValueView,
> {
    if type_indicator == 1 {
        Some(ValueView::Text(seq![utf8_lossy(payload)]))
    } else if type_indicator == 2 {
        Some(ValueView::Text(seq![utf16be_decoded(payload)]))
    } else if type_indicator == 13 {
        Some(ValueView::Cover(seq![CoverView { data: payload, format: MP4CoverFormat::JPEG }]))
    } else if type_indicator == 14 {
        Some(ValueView::Cover(seq![CoverView { data: payload, format: MP4CoverFormat::PNG }]))
    } else if type_indicator == 21 {
        if integer_width(payload.len()) {
            Some(ValueView::Integer(seq![signed_be(payload) as i64]))
        } else {
            None
        }
    } else if type_indicator == 0 {
        if key == "trkn"@ || key == "disk"@ {
            pair_value(payload)
        } else if key == "gnre"@ {
            genre_value(payload)
        } else {
            Some(ValueView::Data(payload))
        }
    } else {
        Some(ValueView::Data(payload))
    }
}

/// The views of an optional value.
pub open spec fn view_of(value: Option<MP4TagValue>) -> Option<ValueView> {
    match value {
        Some(v) => Some(v@),
        None => None,
    }
}

/// A text value with one member.
pub fn text_value(text: String) -> (result: MP4TagValue)
    ensures
        result@ == ValueView::Text(seq![text@]),
{
    let ghost t = text@;
    let mut v: Vec<String> = Vec::new();
    v.push(text);
    assert(v@.map_values(|s: String| s@) =~= seq![t]);
    MP4TagValue::Text(v)
}

/// A cover value with one image.
pub fn cover_value(data: &[u8], format: MP4CoverFormat) -> (result: MP4TagValue)
    ensures
        result@ == ValueView::Cover(seq![CoverView { data: data@, format }]),
{
    let mut v: Vec<MP4Cover> = Vec::new();
    v.push(MP4Cover { data: slice_to_vec(data), format });
    assert(v@.map_values(|c: MP4Cover| c@) =~= seq![CoverView { data: data@, format }]);
    MP4TagValue::Cover(v)
}

/// Reads the signed 16-bit integer at `at`.
fn read_i16(data: &[u8], at: usize) -> (result: i32)
    requires
        at + 2 <= data.len(),
    ensures
        result == be16_signed(data@, at as int),
        -0x8000 <= result < 0x8000,
{
    let r = read_signed(slice_subrange(data, at, at + 2));
    proof {
        let s = data@.subrange(at as int, at + 2);
        assert(s.drop_last().len() == 1);
        assert(signed_be(s) == signed_be(s.drop_last()) * 0x100 + s.last());
    }
    r as i32
}

/// Decodes the payload of a `data` box: `type_indicator` is the box's type,
/// `key` the key of the item that holds it.
///
/// Type 1 is UTF-8 text, 2 is UTF-16 text, 13 and 14 are cover images, 21 is
/// a signed integer of 1, 2, 3, 4 or 8 bytes. Under type 0 the key decides:
/// `trkn` and `disk` hold a pair of numbers, `gnre` a genre number, anything
/// else raw data. Every other type is raw data. Nothing is returned where the
/// payload is too short for its kind or names no genre. UTF-16 text must not
/// be longer than a quarter of the address space, so that the decoder can
/// size its output.
pub fn decode_mp4_value(type_indicator: u32, key: &str, payload: &[u8]) -> (result: Option<
    MP4TagValue,
>)
    requires
        type_indicator == 2 ==> payload@.len() <= usize::MAX / 4,
    ensures
        view_of(result) == decoded_value(type_indicator, key@, payload@),
        type_indicator == 1 && valid_utf8(payload@) ==> view_of(result) == Some(
            ValueView::Text(seq![decode_utf8(payload@)]),
        ),
{
    if type_indicator == 1 {
        Some(text_value(from_utf8_lossy(payload)))
    } else if type_indicator == 2 {
        Some(text_value(decode_utf16be(payload)))
    } else if type_indicator == 13 {
        Some(cover_value(payload, MP4CoverFormat::JPEG))
    } else if type_indicator == 14 {
        Some(cover_value(payload, MP4CoverFormat::PNG))
    } else if type_indicator == 21 {
        let n = payload.len();
        if n == 1 || n == 2 || n == 3 || n == 4 || n == 8 {
            let mut v: Vec<i64> = Vec::new();
            v.push(read_signed(payload));
            assert(v@ =~= seq![signed_be(payload@) as i64]);
            Some(MP4TagValue::Integer(v))
        } else {
            None
        }
    } else if type_indicator == 0 {
        if str_eq(key, "trkn") || str_eq(key, "disk") {
            if payload.len() >= 6 {
                let a: i32 = read_i16(payload, 2);
                let b: i32 = read_i16(payload, 4);
                let mut v: Vec<(i32, i32)> = Vec::new();
                v.push((a, b));
                assert(v@ =~= seq![(a, b)]);
                Some(MP4TagValue::IntPair(v))
            } else if payload.len() >= 4 {
                let a: i32 = read_i16(payload, 2);
                let mut v: Vec<(i32, i32)> = Vec::new();
                v.push((a, 0));
                assert(v@ =~= seq![(a, 0i32)]);
                Some(MP4TagValue::IntPair(v))
            } else {
                None
            }
        } else if str_eq(key, "gnre") {
            if payload.len() >= 2 {
                let id: usize = payload[0] as usize * 0x100 + payload[1] as usize;
                if id >= 1 {
                    match genre_name(id - 1) {
                        Some(name) => Some(text_value(name.to_owned())),
                        None => None,
                    }
                } else {
                    None
                }
            } else {
                None
            }
        } else {
            Some(MP4TagValue::Data(slice_to_vec(payload)))
        }
    } else {
        Some(MP4TagValue::Data(slice_to_vec(payload)))
    }
}

} // verus!
