//! Writing tags as boxes.

use vstd::prelude::*;
use vstd::slice::slice_subrange;
use vstd::utf8::encode_utf8;
use crate::atom::{name_bytes, name_of, DATA, FREEFORM, HDLR, ILST, MEAN, NAME};
use crate::bytes::{be32_bytes, push_be32, signed_bytes, write_signed};
use crate::tags::{MP4Tags, TagsView};
use crate::text::append_bytes;
use crate::value::{
    format_code, CoverView, FreeFormView, MP4Cover, MP4FreeForm, MP4TagValue, ValueView,
};

verus! {

/// `mdir`: the handler type of iTunes metadata.
pub const MDIR: u32 = 0x6d64_6972;

/// `appl`: the manufacturer field of the handler.
pub const APPL: u32 = 0x6170_706c;

/// `n` zero bytes.
pub open spec fn zeros(n: nat) -> Seq<u8> {
    Seq::new(n, |i: int| 0u8)
}

/// The parts one after the other.
pub open spec fn joined(parts: Seq<Seq<u8>>) -> Seq<u8>
    decreases parts.len(),
{
    if parts.len() == 0 {
        Seq::empty()
    } else {
        joined(parts.drop_last()) + parts.last()
    }
}

/// Joining one part more appends that part.
pub proof fn lemma_joined_step(parts: Seq<Seq<u8>>, i: int)
    requires
        0 <= i < parts.len(),
    ensures
        joined(parts.take(i + 1)) == joined(parts.take(i)) + parts[i],
{
    assert(parts.take(i + 1).drop_last() =~= parts.take(i));
}

/// A box: its size in four bytes, its name, its content. A size that does
/// not fit in 32 bits is cut to its low 32 bits.
pub open spec fn atom_bytes(name: Seq<u8>, body: Seq<u8>) -> Seq<u8> {
    be32_bytes(((8 + body.len()) % 0x1_0000_0000) as int) + name + body
}

/// A `data` box: type indicator, four zero bytes of locale, payload.
pub open spec fn data_atom_bytes(type_indicator: u32, payload: Seq<u8>) -> Seq<u8> {
    atom_bytes(name_bytes(DATA), be32_bytes(type_indicator as int) + zeros(4) + payload)
}

/// The byte at `i`, or zero past the end.
pub open spec fn byte_or_zero(s: Seq<u8>, i: int) -> u8 {
    if 0 <= i < s.len() {
        s[i]
    } else {
        0
    }
}

/// The box name for a key given as UTF-8 bytes. A key that starts with the
/// copyright sign gives the byte `0xA9` and the three bytes after the sign;
/// any other key gives its first four bytes. Missing bytes are zero.
pub open spec fn name_of_key(key: Seq<u8>) -> Seq<u8> {
    if key.len() >= 3 && key[0] == 0xc2 && key[1] == 0xa9 {
        seq![0xa9u8, byte_or_zero(key, 2), byte_or_zero(key, 3), byte_or_zero(key, 4)]
    } else {
        seq![byte_or_zero(key, 0), byte_or_zero(key, 1), byte_or_zero(key, 2), byte_or_zero(key, 3)]
    }
}

/// The payload of an integer: two's complement in the smallest of 1, 2, 4
/// and 8 bytes that holds it.
pub open spec fn int_payload(value: i64) -> Seq<u8> {
    if -0x80 <= value < 0x80 {
        signed_bytes(value as int, 1)
    } else if -0x8000 <= value < 0x8000 {
        signed_bytes(value as int, 2)
    } else if -0x8000_0000 <= value < 0x8000_0000 {
        signed_bytes(value as int, 4)
    } else {
        signed_bytes(value as int, 8)
    }
}

/// The two bytes of the low 16 bits of `value`.
pub open spec fn low16_bytes(value: i32) -> Seq<u8> {
    seq![(((value as int) % 0x1_0000) / 0x100) as u8, ((value as int) % 0x100) as u8]
}

/// The payload of a pair: two zero bytes, the two numbers in 16 bits each,
/// two zero bytes.
pub open spec fn pair_payload(pair: (i32, i32)) -> Seq<u8> {
    zeros(2) + low16_bytes(pair.0) + low16_bytes(pair.1) + zeros(2)
}

/// The `data` boxes of a value, one for each member.
pub open spec fn data_atoms(value: ValueView) -> Seq<u8> {
    match value {
        ValueView::Text(texts) => joined(
            texts.map_values(|t: Seq<char>| data_atom_bytes(1, encode_utf8(t))),
        ),
        ValueView::Integer(ints) => joined(
            ints.map_values(|i: i64| data_atom_bytes(21, int_payload(i))),
        ),
        ValueView::IntPair(pairs) => joined(
            pairs.map_values(|p: (i32, i32)| data_atom_bytes(0, pair_payload(p))),
        ),
        ValueView::Bool(b) => data_atom_bytes(21, seq![if b { 1u8 } else { 0u8 }]),
        ValueView::Cover(covers) => joined(
            covers.map_values(|c: CoverView| data_atom_bytes(format_code(c.format), c.data)),
        ),
        ValueView::FreeForm(forms) => joined(
            forms.map_values(|f: FreeFormView| data_atom_bytes(f.dataformat, f.data)),
        ),
        ValueView::Data(d) => data_atom_bytes(0, d),
    }
}

/// The position of the first colon at or after `from`, or the length where
/// there is none.
pub open spec fn first_colon(s: Seq<u8>, from: int) -> int
    decreases s.len() - from,
{
    if from < 0 || from >= s.len() {
        s.len() as int
    } else if s[from] == 0x3a {
        from
    } else {
        first_colon(s, from + 1)
    }
}

/// The namespace used where a free-form key names none: `com.apple.iTunes`.
pub open spec fn default_mean() -> Seq<u8> {
    seq![
        0x63u8, 0x6f, 0x6d, 0x2e, 0x61, 0x70, 0x70, 0x6c, 0x65, 0x2e, 0x69, 0x54, 0x75, 0x6e, 0x65,
        0x73,
    ]
}

/// The namespace in a key of the form `----:namespace:name`: what stands
/// between the first colon and the second.
pub open spec fn mean_of_key(key: Seq<u8>) -> Seq<u8> {
    let c1 = first_colon(key, 0);
    if c1 >= key.len() {
        default_mean()
    } else {
        key.subrange(c1 + 1, first_colon(key, c1 + 1))
    }
}

/// The name in a key of the form `----:namespace:name`: all that follows
/// the second colon.
pub open spec fn name_part_of_key(key: Seq<u8>) -> Seq<u8> {
    let c1 = first_colon(key, 0);
    if c1 >= key.len() {
        Seq::empty()
    } else {
        let c2 = first_colon(key, c1 + 1);
        if c2 >= key.len() {
            Seq::empty()
        } else {
            key.subrange(c2 + 1, key.len() as int)
        }
    }
}

/// A free-form item: a `----` box with a `mean` box, a `name` box and the
/// `data` boxes of the value.
pub open spec fn freeform_item_bytes(key: Seq<u8>, value: ValueView) -> Seq<u8> {
    atom_bytes(
        name_bytes(FREEFORM),
        atom_bytes(name_bytes(MEAN), zeros(4) + mean_of_key(key)) + atom_bytes(
            name_bytes(NAME),
            zeros(4) + name_part_of_key(key),
        ) + data_atoms(value),
    )
}

/// True when the key starts with `----:`.
pub open spec fn is_freeform_key(key: Seq<u8>) -> bool {
    key.len() >= 5 && key[0] == 0x2d && key[1] == 0x2d && key[2] == 0x2d && key[3] == 0x2d
        && key[4] == 0x3a
}

/// One item: the box of a key with the `data` boxes of its value.
pub open spec fn item_bytes(key: Seq<u8>, value: ValueView) -> Seq<u8> {
    if is_freeform_key(key) {
        freeform_item_bytes(key, value)
    } else {
        atom_bytes(name_of_key(key), data_atoms(value))
    }
}

/// The items of all tags, in order.
pub open spec fn items_bytes(tags: TagsView) -> Seq<u8>
    decreases tags.len(),
{
    if tags.len() == 0 {
        Seq::empty()
    } else {
        items_bytes(tags.drop_last()) + item_bytes(encode_utf8(tags.last().0), tags.last().1)
    }
}

/// The `ilst` box of the tags.
pub open spec fn ilst_bytes(tags: TagsView) -> Seq<u8> {
    atom_bytes(name_bytes(ILST), items_bytes(tags))
}

/// The content of the handler box that a new `meta` box gets.
pub open spec fn hdlr_body() -> Seq<u8> {
    zeros(8) + name_bytes(MDIR) + name_bytes(APPL) + zeros(9)
}

/// Appends `n` zero bytes.
pub fn push_zeros(buf: &mut Vec<u8>, n: usize)
    ensures
        final(buf)@ == old(buf)@ + zeros(n as nat),
{
    let ghost before = buf@;
    let mut i: usize = 0;
    assert(buf@ =~= before + zeros(0));
    while i < n
        invariant
            i <= n,
            buf@ == before + zeros(i as nat),
        decreases n - i,
    {
        buf.push(0);
        i += 1;
        assert(buf@ =~= before + zeros(i as nat));
    }
}

/// Builds a box from its name and content.
pub fn make_atom(name: &[u8; 4], data: &[u8]) -> (result: Vec<u8>)
    ensures
        result@ == atom_bytes(name@, data@),
{
    let size: u32 = ((data.len() as u128 + 8) % 0x1_0000_0000) as u32;
    let mut buf: Vec<u8> = Vec::new();
    push_be32(&mut buf, size);
    append_bytes(&mut buf, name.as_slice());
    append_bytes(&mut buf, data);
    assert(buf@ =~= atom_bytes(name@, data@));
    buf
}

/// Builds a `data` box from a type indicator and a payload.
pub fn make_data_atom(type_indicator: u32, payload: &[u8]) -> (result: Vec<u8>)
    ensures
        result@ == data_atom_bytes(type_indicator, payload@),
{
    let mut body: Vec<u8> = Vec::new();
    push_be32(&mut body, type_indicator);
    push_zeros(&mut body, 4);
    append_bytes(&mut body, payload);
    assert(body@ =~= be32_bytes(type_indicator as int) + zeros(4) + payload@);
    make_atom(&name_of(DATA), body.as_slice())
}

/// Tells the byte at `i`, or zero past the end.
fn byte_at(s: &[u8], i: usize) -> (result: u8)
    ensures
        result == byte_or_zero(s@, i as int),
{
    if i < s.len() {
        s[i]
    } else {
        0
    }
}

/// Turns a key into the four bytes of a box name.
pub fn key_to_atom_name(key: &str) -> (result: [u8; 4])
    ensures
        result@ == name_of_key(encode_utf8(key@)),
{
    let bytes = key.as_bytes();
    if bytes.len() >= 3 && bytes[0] == 0xc2 && bytes[1] == 0xa9 {
        let name: [u8; 4] = [0xa9, byte_at(bytes, 2), byte_at(bytes, 3), byte_at(bytes, 4)];
        assert(name@ =~= name_of_key(bytes@));
        name
    } else {
        let name: [u8; 4] = [
            byte_at(bytes, 0),
            byte_at(bytes, 1),
            byte_at(bytes, 2),
            byte_at(bytes, 3),
        ];
        assert(name@ =~= name_of_key(bytes@));
        name
    }
}

/// The payload of an integer value.
fn integer_payload(value: i64) -> (result: Vec<u8>)
    ensures
        result@ == int_payload(value),
{
    if -0x80 <= value && value < 0x80 {
        write_signed(value, 1)
    } else if -0x8000 <= value && value < 0x8000 {
        write_signed(value, 2)
    } else if -0x8000_0000 <= value && value < 0x8000_0000 {
        write_signed(value, 4)
    } else {
        write_signed(value, 8)
    }
}

/// Appends the two bytes of the low 16 bits of `value`.
fn push_low16(buf: &mut Vec<u8>, value: i32)
    ensures
        final(buf)@ == old(buf)@ + low16_bytes(value),
{
    let ghost before = buf@;
    let m: i64 = (value as i64 + 0x8000_0000) % 0x1_0000;
    assert(m == (value as int) % 0x1_0000);
    buf.push((m / 0x100) as u8);
    buf.push((m % 0x100) as u8);
    assert(buf@ =~= before + low16_bytes(value));
}

/// The payload of a pair of numbers.
fn pair_payload_bytes(pair: (i32, i32)) -> (result: Vec<u8>)
    ensures
        result@ == pair_payload(pair),
{
    let mut payload: Vec<u8> = Vec::new();
    push_zeros(&mut payload, 2);
    push_low16(&mut payload, pair.0);
    push_low16(&mut payload, pair.1);
    push_zeros(&mut payload, 2);
    assert(payload@ =~= pair_payload(pair));
    payload
}

/// Renders the `data` boxes of a value, one for each member. The key plays
/// no part.
pub fn render_data_atoms(key: &str, value: &MP4TagValue) -> (result: Vec<u8>)
    ensures
        result@ == data_atoms(value@),
{
    let mut buf: Vec<u8> = Vec::new();
    match value {
        MP4TagValue::Text(texts) => {
            let ghost parts = texts@.map_values(|s: String| s@).map_values(
                |t: Seq<char>| data_atom_bytes(1, encode_utf8(t)),
            );
            let mut i: usize = 0;
            while i < texts.len()
                invariant
                    i <= texts@.len(),
                    parts == texts@.map_values(|s: String| s@).map_values(
                        |t: Seq<char>| data_atom_bytes(1, encode_utf8(t)),
                    ),
                    buf@ == joined(parts.take(i as int)),
                decreases texts@.len() - i,
            {
                let atom = make_data_atom(1, texts[i].as_str().as_bytes());
                append_bytes(&mut buf, atom.as_slice());
                proof {
                    lemma_joined_step(parts, i as int);
                }
                i += 1;
            }
            assert(parts.take(i as int) =~= parts);
        },
        MP4TagValue::Integer(ints) => {
            let ghost parts = ints@.map_values(|i: i64| data_atom_bytes(21, int_payload(i)));
            let mut i: usize = 0;
            while i < ints.len()
                invariant
                    i <= ints@.len(),
                    parts == ints@.map_values(|i: i64| data_atom_bytes(21, int_payload(i))),
                    buf@ == joined(parts.take(i as int)),
                decreases ints@.len() - i,
            {
                let payload = integer_payload(ints[i]);
                let atom = make_data_atom(21, payload.as_slice());
                append_bytes(&mut buf, atom.as_slice());
                proof {
                    lemma_joined_step(parts, i as int);
                }
                i += 1;
            }
            assert(parts.take(i as int) =~= parts);
        },
        MP4TagValue::IntPair(pairs) => {
            let ghost parts = pairs@.map_values(
                |p: (i32, i32)| data_atom_bytes(0, pair_payload(p)),
            );
            let mut i: usize = 0;
            while i < pairs.len()
                invariant
                    i <= pairs@.len(),
                    parts == pairs@.map_values(
                        |p: (i32, i32)| data_atom_bytes(0, pair_payload(p)),
                    ),
                    buf@ == joined(parts.take(i as int)),
                decreases pairs@.len() - i,
            {
                let payload = pair_payload_bytes(pairs[i]);
                let atom = make_data_atom(0, payload.as_slice());
                append_bytes(&mut buf, atom.as_slice());
                proof {
                    lemma_joined_step(parts, i as int);
                }
                i += 1;
            }
            assert(parts.take(i as int) =~= parts);
        },
        MP4TagValue::Bool(val) => {
            let mut payload: Vec<u8> = Vec::new();
            payload.push(if *val { 1 } else { 0 });
            assert(payload@ =~= seq![if *val { 1u8 } else { 0u8 }]);
            buf = make_data_atom(21, payload.as_slice());
        },
        MP4TagValue::Cover(covers) => {
            let ghost parts = covers@.map_values(|c: MP4Cover| c@).map_values(
                |c: CoverView| data_atom_bytes(format_code(c.format), c.data),
            );
            let mut i: usize = 0;
            while i < covers.len()
                invariant
                    i <= covers@.len(),
                    parts == covers@.map_values(|c: MP4Cover| c@).map_values(
                        |c: CoverView| data_atom_bytes(format_code(c.format), c.data),
                    ),
                    buf@ == joined(parts.take(i as int)),
                decreases covers@.len() - i,
            {
                let code: u32 = covers[i].format.type_indicator();
                let atom = make_data_atom(code, covers[i].data.as_slice());
                append_bytes(&mut buf, atom.as_slice());
                proof {
                    lemma_joined_step(parts, i as int);
                }
                i += 1;
            }
            assert(parts.take(i as int) =~= parts);
        },
        MP4TagValue::FreeForm(forms) => {
            let ghost parts = forms@.map_values(|f: MP4FreeForm| f@).map_values(
                |f: FreeFormView| data_atom_bytes(f.dataformat, f.data),
            );
            let mut i: usize = 0;
            while i < forms.len()
                invariant
                    i <= forms@.len(),
                    parts == forms@.map_values(|f: MP4FreeForm| f@).map_values(
                        |f: FreeFormView| data_atom_bytes(f.dataformat, f.data),
                    ),
                    buf@ == joined(parts.take(i as int)),
                decreases forms@.len() - i,
            {
                let atom = make_data_atom(forms[i].dataformat, forms[i].data.as_slice());
                append_bytes(&mut buf, atom.as_slice());
                proof {
                    lemma_joined_step(parts, i as int);
                }
                i += 1;
            }
            assert(parts.take(i as int) =~= parts);
        },
        MP4TagValue::Data(d) => {
            buf = make_data_atom(0, d.as_slice());
        },
    }
    buf
}

/// Finds the first colon at or after `from`.
fn find_colon(s: &[u8], from: usize) -> (result: usize)
    ensures
        result == first_colon(s@, from as int),
        result <= s@.len(),
        from <= s@.len() ==> from <= result,
{
    if from >= s.len() {
        return s.len();
    }
    let mut i: usize = from;
    while i < s.len()
        invariant
            from <= i <= s@.len(),
            first_colon(s@, from as int) == first_colon(s@, i as int),
        decreases s@.len() - i,
    {
        if s[i] == 0x3a {
            return i;
        }
        i += 1;
    }
    i
}

/// Renders a free-form item: a `----` box that holds the namespace, the name
/// and the value. The key has the form `----:namespace:name`; a key without
/// a namespace gets `com.apple.iTunes`, one without a name an empty name.
pub fn render_freeform_item(key: &str, value: &MP4TagValue) -> (result: Vec<u8>)
    ensures
        result@ == freeform_item_bytes(encode_utf8(key@), value@),
{
    let bytes = key.as_bytes();
    let n: usize = bytes.len();
    let mut mean_body: Vec<u8> = Vec::new();
    push_zeros(&mut mean_body, 4);
    let mut name_body: Vec<u8> = Vec::new();
    push_zeros(&mut name_body, 4);
    let c1: usize = find_colon(bytes, 0);
    if c1 >= n {
        let fallback: [u8; 16] = [
            0x63, 0x6f, 0x6d, 0x2e, 0x61, 0x70, 0x70, 0x6c, 0x65, 0x2e, 0x69, 0x54, 0x75, 0x6e,
            0x65, 0x73,
        ];
        assert(fallback@ =~= default_mean());
        append_bytes(&mut mean_body, fallback.as_slice());
    } else {
        let c2: usize = find_colon(bytes, c1 + 1);
        append_bytes(&mut mean_body, slice_subrange(bytes, c1 + 1, c2));
        if c2 < n {
            append_bytes(&mut name_body, slice_subrange(bytes, c2 + 1, n));
        }
    }
    assert(mean_body@ =~= zeros(4) + mean_of_key(bytes@));
    assert(name_body@ =~= zeros(4) + name_part_of_key(bytes@));
    let mut inner: Vec<u8> = make_atom(&name_of(MEAN), mean_body.as_slice());
    let name_atom = make_atom(&name_of(NAME), name_body.as_slice());
    append_bytes(&mut inner, name_atom.as_slice());
    let atoms = render_data_atoms(key, value);
    append_bytes(&mut inner, atoms.as_slice());
    make_atom(&name_of(FREEFORM), inner.as_slice())
}

/// Renders one tag: the item box named by the key, with the value inside.
pub fn render_tag_item(key: &str, value: &MP4TagValue) -> (result: Vec<u8>)
    ensures
        result@ == item_bytes(encode_utf8(key@), value@),
{
    let bytes = key.as_bytes();
    if bytes.len() >= 5 && bytes[0] == 0x2d && bytes[1] == 0x2d && bytes[2] == 0x2d && bytes[3]
        == 0x2d && bytes[4] == 0x3a {
        return render_freeform_item(key, value);
    }
    let atom_name = key_to_atom_name(key);
    let data = render_data_atoms(key, value);
    make_atom(&atom_name, data.as_slice())
}

/// Builds the smallest handler box that a `meta` box needs.
pub fn make_meta_hdlr() -> (result: Vec<u8>)
    ensures
        result@ == atom_bytes(name_bytes(HDLR), hdlr_body()),
{
    let mut body: Vec<u8> = Vec::new();
    push_zeros(&mut body, 8);
    append_bytes(&mut body, name_of(MDIR).as_slice());
    append_bytes(&mut body, name_of(APPL).as_slice());
    push_zeros(&mut body, 9);
    make_atom(&name_of(HDLR), body.as_slice())
}

impl MP4Tags {
    /// Renders all tags as one `ilst` box, the items in the order of the
    /// tags.
    pub fn render_ilst(&self) -> (result: Vec<u8>)
        ensures
            result@ == ilst_bytes(self@),
    {
        let mut body: Vec<u8> = Vec::new();
        let mut i: usize = 0;
        while i < self.items.len()
            invariant
                i <= self.items@.len(),
                body@ == items_bytes(self@.take(i as int)),
            decreases self.items@.len() - i,
        {
            let item = render_tag_item(self.items[i].0.as_str(), &self.items[i].1);
            append_bytes(&mut body, item.as_slice());
            assert(self@.take(i + 1).drop_last() =~= self@.take(i as int));
            i += 1;
        }
        assert(self@.take(i as int) =~= self@);
        make_atom(&name_of(ILST), body.as_slice())
    }
}

} // verus!
