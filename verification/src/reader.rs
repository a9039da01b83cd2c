//! Reading the tags out of the `moov` box of an MP4 file.

use vstd::prelude::*;
use vstd::slice::slice_subrange;
use vstd::utf8::{decode_utf8, valid_utf8};
use crate::atom::{
    be32, box_at, box_offsets, code_of, describes, find_atom, first_named, found_in, held,
    name_bytes, name_code, name_of, read_be32, same_name, Atom, AtomIter,
    DATA, FREEFORM, ILST, MEAN, META, NAME, UDTA,
};
use crate::decode::{decode_mp4_value, decoded_value};
use crate::error::TagError;
use crate::tags::{index_of, lemma_index_of, MP4Tags, TagsView};
use crate::text::{from_utf8_lossy, utf8_lossy};
use crate::value::{merge_mp4_values, merged, MP4TagValue, ValueView};

verus! {

/// The key that a four-byte box name stands for: the name read as text, with
/// a leading byte `0xA9` read as the copyright sign.
pub open spec fn key_of_name(name: Seq<u8>) -> Seq<char> {
    if name[0] == 0xa9 {
        "\u{a9}"@ + utf8_lossy(name.subrange(1, 4))
    } else {
        utf8_lossy(name)
    }
}

/// The text of the last box among `offsets` that has the given name and more
/// than four bytes of content: that content without its first four bytes.
/// Empty where there is no such box.
pub open spec fn last_text(data: Seq<u8>, offsets: Seq<int>, name: u32) -> Seq<char>
    decreases offsets.len(),
{
    if offsets.len() == 0 {
        Seq::empty()
    } else {
        text_after(data, offsets.last(), name, last_text(data, offsets.drop_last(), name))
    }
}

/// The key of a free-form item with the given namespace and name:
/// `----:namespace:name`, or `----:namespace` without a name, or `----`
/// without a namespace.
pub open spec fn freeform_key(mean: Seq<char>, name: Seq<char>) -> Seq<char> {
    if mean.len() > 0 && name.len() > 0 {
        "----:"@ + mean + ":"@ + name
    } else if mean.len() > 0 {
        "----:"@ + mean
    } else {
        "----"@
    }
}

/// The key of the free-form item whose content is `data[start..end]`.
pub open spec fn freeform_key_in(data: Seq<u8>, start: int, end: int) -> Seq<char> {
    let offsets = box_offsets(data, start, end);
    freeform_key(last_text(data, offsets, MEAN), last_text(data, offsets, NAME))
}

/// The tags after a value was read for a key: merged into the value that
/// the key has, or added as a new last entry.
pub open spec fn merged_in(tags: TagsView, key: Seq<char>, value: ValueView) -> TagsView {
    let i = index_of(tags, key);
    if i < tags.len() {
        tags.update(i, (key, merged(tags[i].1, value)))
    } else {
        tags.push((key, value))
    }
}

/// The tags after the box at `at`, inside the item with the given key, was
/// read. Only a `data` box with at least eight bytes of content counts, and
/// only where its payload decodes to a value.
pub open spec fn with_data_box(tags: TagsView, data: Seq<u8>, key: Seq<char>, at: int) -> TagsView {
    if data.subrange(at + 4, at + 8) == name_bytes(DATA) && be32(data, at) >= 16 {
        match decoded_value(
            be32(data, at + 8) as u32,
            key,
            data.subrange(at + 16, at + be32(data, at)),
        ) {
            Some(value) => merged_in(tags, key, value),
            None => tags,
        }
    } else {
        tags
    }
}

/// The tags after the boxes at `offsets`, inside one item, were read in
/// order.
pub open spec fn with_data_boxes(
    tags: TagsView,
    data: Seq<u8>,
    key: Seq<char>,
    offsets: Seq<int>,
) -> TagsView
    decreases offsets.len(),
{
    if offsets.len() == 0 {
        tags
    } else {
        with_data_box(
            with_data_boxes(tags, data, key, offsets.drop_last()),
            data,
            key,
            offsets.last(),
        )
    }
}

/// The key of the item box at `at`.
pub open spec fn item_key(data: Seq<u8>, at: int) -> Seq<char> {
    if data.subrange(at + 4, at + 8) == name_bytes(FREEFORM) {
        freeform_key_in(data, at + 8, at + be32(data, at))
    } else {
        key_of_name(data.subrange(at + 4, at + 8))
    }
}

/// The tags after the item box at `at` was read.
pub open spec fn with_item(tags: TagsView, data: Seq<u8>, at: int) -> TagsView {
    with_data_boxes(
        tags,
        data,
        item_key(data, at),
        box_offsets(data, at + 8, at + be32(data, at)),
    )
}

/// The tags after the item boxes at `offsets` were read in order.
pub open spec fn with_items(tags: TagsView, data: Seq<u8>, offsets: Seq<int>) -> TagsView
    decreases offsets.len(),
{
    if offsets.len() == 0 {
        tags
    } else {
        with_item(with_items(tags, data, offsets.drop_last()), data, offsets.last())
    }
}

/// The offset of the first box named `name` in `data[start..end]`, if any.
pub open spec fn first_box(data: Seq<u8>, start: int, end: int, name: u32) -> Option<int> {
    let offsets = box_offsets(data, start, end);
    let k = first_named(data, offsets, name_bytes(name));
    if 0 <= k < offsets.len() {
        Some(offsets[k])
    } else {
        None
    }
}

/// The tags of the `moov` box whose content is `data[start..end]`: those of
/// the first `ilst` in the first `meta` in the first `udta`. Where one of
/// the three is missing there are no tags. The content of `meta` begins
/// with four bytes of version and flags, which are skipped.
pub open spec fn tags_in(data: Seq<u8>, start: int, end: int) -> TagsView {
    match first_box(data, start, end, UDTA) {
        None => Seq::empty(),
        Some(udta) => match first_box(data, udta + 8, udta + be32(data, udta), META) {
            None => Seq::empty(),
            Some(meta) => if be32(data, meta) <= 12 {
                Seq::empty()
            } else {
                match first_box(data, meta + 12, meta + be32(data, meta), ILST) {
                    None => Seq::empty(),
                    Some(ilst) => with_items(
                        Seq::empty(),
                        data,
                        box_offsets(data, ilst + 8, ilst + be32(data, ilst)),
                    ),
                }
            },
        },
    }
}

/// What a search says of the first box with a name: the exec result and the
/// offset in the model agree.
pub proof fn lemma_found_is_first(
    data: Seq<u8>,
    start: int,
    end: int,
    name: u32,
    result: Option<Atom>,
)
    requires
        found_in(data, box_offsets(data, start, end), end, name_bytes(name), result),
    ensures
        result is Some <==> first_box(data, start, end, name) is Some,
        result matches Some(a) ==> first_box(data, start, end, name) == Some(a.offset as int)
            && describes(a, data, a.offset as int) && box_at(data, a.offset as int, end),
{
}

/// Turns the name of an item box into a key.
pub fn atom_name_to_key(name: &[u8; 4]) -> (result: String)
    ensures
        result@ == key_of_name(name@),
        name@[0] != 0xa9 && valid_utf8(name@) ==> result@ == decode_utf8(name@),
        name@[0] == 0xa9 && valid_utf8(name@.subrange(1, 4)) ==> result@ == "\u{a9}"@
            + decode_utf8(name@.subrange(1, 4)),
{
    if name[0] == 0xa9 {
        String::from_str("\u{a9}").concat(
            from_utf8_lossy(slice_subrange(name.as_slice(), 1, 4)).as_str(),
        )
    } else {
        from_utf8_lossy(name.as_slice())
    }
}

/// Puts a namespace and a name together as the key of a free-form item.
pub fn join_freeform_key(mean: &str, name: &str) -> (result: String)
    ensures
        result@ == freeform_key(mean@, name@),
{
    if !mean.is_empty() && !name.is_empty() {
        let mut key = String::from_str("----:");
        key.append(mean);
        key.append(":");
        key.append(name);
        key
    } else if !mean.is_empty() {
        let mut key = String::from_str("----:");
        key.append(mean);
        key
    } else {
        String::from_str("----")
    }
}

/// The text that a box of a free-form item gives for the part named `name`:
/// the box's own where it has that name and more than four bytes of content,
/// and `current` otherwise.
pub open spec fn text_after(data: Seq<u8>, at: int, name: u32, current: Seq<char>) -> Seq<char> {
    if name_code(data.subrange(at + 4, at + 8)) == name && be32(data, at) > 12 {
        utf8_lossy(data.subrange(at + 12, at + be32(data, at)))
    } else {
        current
    }
}

/// Reads one box of a free-form item: a `mean` or `name` box with more than
/// four bytes of content replaces the text read so far.
fn read_freeform_part(data: &[u8], atom: &Atom, mean_str: String, name_str: String) -> (result: (
    String,
    String,
))
    requires
        describes(*atom, data@, atom.offset as int),
        atom.offset + atom.size <= data.len(),
        atom.size >= 8,
    ensures
        result.0@ == text_after(data@, atom.offset as int, MEAN, mean_str@),
        result.1@ == text_after(data@, atom.offset as int, NAME, name_str@),
{
    let code = code_of(&atom.name);
    if atom.data_size > 4 {
        let s: usize = atom.data_offset + 4;
        let e: usize = atom.data_offset + atom.data_size;
        if code == MEAN {
            return (from_utf8_lossy(slice_subrange(data, s, e)), name_str);
        } else if code == NAME {
            return (mean_str, from_utf8_lossy(slice_subrange(data, s, e)));
        }
    }
    (mean_str, name_str)
}

/// Builds the key of a free-form item from the `mean` and `name` boxes in
/// its content `data[start..end]`.
pub fn build_freeform_key(data: &[u8], start: usize, end: usize) -> (result: String)
    ensures
        result@ == freeform_key_in(data@, start as int, held(data@, end)),
{
    let mut mean_str = String::new();
    let mut name_str = String::new();
    let mut it = AtomIter::new(data, start, end);
    let ghost all = it.remaining();
    let ghost limit = held(data@, end);
    let ghost k: int = 0;
    assert(all.take(0) =~= Seq::<int>::empty());
    loop
        invariant
            it.wf(),
            it.bytes() == data@,
            it.limit() == limit,
            limit == held(data@, end),
            limit <= data.len(),
            all == box_offsets(data@, start as int, limit),
            0 <= k <= all.len(),
            it.remaining() == all.skip(k),
            mean_str@ == last_text(data@, all.take(k), MEAN),
            name_str@ == last_text(data@, all.take(k), NAME),
        decreases all.len() - k,
    {
        match it.next() {
            None => {
                assert(all.take(k) =~= all);
                return join_freeform_key(mean_str.as_str(), name_str.as_str());
            },
            Some(atom) => {
                proof {
                    assert(all.skip(k).skip(1) =~= all.skip(k + 1));
                    assert(all.take(k + 1).drop_last() =~= all.take(k));
                    assert(all.take(k + 1).last() == all[k]);
                }
                let (mean_next, name_next) = read_freeform_part(data, &atom, mean_str, name_str);
                mean_str = mean_next;
                name_str = name_next;
                proof {
                    k = k + 1;
                }
            },
        }
    }
}

impl MP4Tags {
    /// Takes in a value read for a key: merged into the value that the key
    /// has, or added as a new last entry.
    pub fn merge_value(&mut self, key: &str, value: MP4TagValue)
        ensures
            final(self)@ == merged_in(old(self)@, key@, value@),
    {
        let i = self.position(key);
        let ghost before = self@;
        proof {
            lemma_index_of(before, key@);
        }
        if i < self.items.len() {
            merge_mp4_values(&mut self.items[i].1, value);
            assert(self@ =~= merged_in(before, key@, value@));
        } else {
            self.items.push((key.to_owned(), value));
            assert(self@ =~= merged_in(before, key@, value@));
        }
    }
}

/// Reads one box of an item into the tags.
fn read_data_box(tags: &mut MP4Tags, data: &[u8], atom: &Atom, key: &str)
    requires
        data.len() <= usize::MAX / 4,
        describes(*atom, data@, atom.offset as int),
        atom.offset + atom.size <= data.len(),
        atom.size >= 8,
    ensures
        final(tags)@ == with_data_box(old(tags)@, data@, key@, atom.offset as int),
{
    if same_name(&atom.name, &name_of(DATA)) && atom.data_size >= 8 {
        let type_indicator: u32 = read_be32(data, atom.data_offset);
        let payload = slice_subrange(data, atom.data_offset + 8, atom.data_offset + atom.data_size);
        match decode_mp4_value(type_indicator, key, payload) {
            Some(value) => {
                tags.merge_value(key, value);
            },
            None => {},
        }
    }
}

/// Reads the boxes of one item into the tags.
fn read_item(tags: &mut MP4Tags, data: &[u8], item: &Atom, key: &str)
    requires
        data.len() <= usize::MAX / 4,
        describes(*item, data@, item.offset as int),
        item.offset + item.size <= data.len(),
        item.size >= 8,
    ensures
        final(tags)@ == with_data_boxes(
            old(tags)@,
            data@,
            key@,
            box_offsets(data@, item.offset + 8, item.offset + be32(data@, item.offset as int)),
        ),
{
    let item_end: usize = item.data_offset + item.data_size;
    let mut it = AtomIter::new(data, item.data_offset, item_end);
    let ghost all = it.remaining();
    let ghost k: int = 0;
    let ghost start = old(tags)@;
    assert(all.take(0) =~= Seq::<int>::empty());
    loop
        invariant
            data.len() <= usize::MAX / 4,
            it.wf(),
            it.bytes() == data@,
            it.limit() == item_end,
            item_end <= data.len(),
            item_end == item.offset + be32(data@, item.offset as int),
            all == box_offsets(data@, item.offset + 8, item_end as int),
            0 <= k <= all.len(),
            it.remaining() == all.skip(k),
            start == old(tags)@,
            tags@ == with_data_boxes(start, data@, key@, all.take(k)),
        decreases all.len() - k,
    {
        match it.next() {
            None => {
                assert(all.take(k) =~= all);
                return ;
            },
            Some(atom) => {
                proof {
                    assert(all.skip(k).skip(1) =~= all.skip(k + 1));
                    assert(all.take(k + 1).drop_last() =~= all.take(k));
                    assert(all.take(k + 1).last() == all[k]);
                }
                read_data_box(tags, data, &atom, key);
                proof {
                    k = k + 1;
                }
            },
        }
    }
}

/// Reads one item box into the tags.
fn read_item_box(tags: &mut MP4Tags, data: &[u8], item: &Atom)
    requires
        data.len() <= usize::MAX / 4,
        describes(*item, data@, item.offset as int),
        item.offset + item.size <= data.len(),
        item.size >= 8,
    ensures
        final(tags)@ == with_item(old(tags)@, data@, item.offset as int),
{
    let key = if same_name(&item.name, &name_of(FREEFORM)) {
        build_freeform_key(data, item.data_offset, item.data_offset + item.data_size)
    } else {
        atom_name_to_key(&item.name)
    };
    read_item(tags, data, item, key.as_str());
}

/// Reads the tags of a `moov` box whose content is `data[moov_start..moov_end]`.
///
/// The tags are those of the `ilst` box under `udta` and `meta`. A file
/// without these boxes has no tags; that is no failure, and neither is a box
/// that cannot be read, which is passed over. Values of one key are merged
/// in the order in which they stand.
pub fn parse_mp4_tags_iter(data: &[u8], moov_start: usize, moov_end: usize) -> (result: Result<
    MP4Tags,
    TagError,
>)
    requires
        data.len() <= usize::MAX / 4,
    ensures
        result matches Ok(tags) && tags@ == tags_in(
            data@,
            moov_start as int,
            held(data@, moov_end),
        ),
{
    let mut tags = MP4Tags::new();
    let udta = match find_atom(data, moov_start, moov_end, &name_of(UDTA)) {
        Some(a) => a,
        None => {
            return Ok(tags);
        },
    };
    proof {
        lemma_found_is_first(
            data@,
            moov_start as int,
            held(data@, moov_end),
            UDTA,
            Some(udta),
        );
    }
    let udta_end: usize = udta.data_offset + udta.data_size;
    let found_meta = find_atom(data, udta.data_offset, udta_end, &name_of(META));
    proof {
        lemma_found_is_first(data@, udta.offset + 8, udta_end as int, META, found_meta);
    }
    let meta = match found_meta {
        Some(a) => a,
        None => {
            return Ok(tags);
        },
    };
    if meta.data_size <= 4 {
        return Ok(tags);
    }
    let meta_end: usize = meta.data_offset + meta.data_size;
    let found_ilst = find_atom(data, meta.data_offset + 4, meta_end, &name_of(ILST));
    proof {
        lemma_found_is_first(data@, meta.offset + 12, meta_end as int, ILST, found_ilst);
    }
    let ilst = match found_ilst {
        Some(a) => a,
        None => {
            return Ok(tags);
        },
    };
    let ilst_end: usize = ilst.data_offset + ilst.data_size;
    let mut it = AtomIter::new(data, ilst.data_offset, ilst_end);
    let ghost all = it.remaining();
    let ghost k: int = 0;
    let ghost goal = tags_in(data@, moov_start as int, held(data@, moov_end));
    assert(all.take(0) =~= Seq::<int>::empty());
    assert(goal == with_items(Seq::empty(), data@, all));
    loop
        invariant
            data.len() <= usize::MAX / 4,
            goal == tags_in(data@, moov_start as int, held(data@, moov_end)),
            goal == with_items(Seq::empty(), data@, all),
            it.wf(),
            it.bytes() == data@,
            it.limit() == ilst_end,
            ilst_end <= data.len(),
            all == box_offsets(data@, ilst.offset + 8, ilst_end as int),
            0 <= k <= all.len(),
            it.remaining() == all.skip(k),
            tags@ == with_items(Seq::empty(), data@, all.take(k)),
        decreases all.len() - k,
    {
        match it.next() {
            None => {
                assert(all.take(k) =~= all);
                return Ok(tags);
            },
            Some(item) => {
                proof {
                    assert(all.skip(k).skip(1) =~= all.skip(k + 1));
                    assert(all.take(k + 1).drop_last() =~= all.take(k));
                    assert(all.take(k + 1).last() == all[k]);
                }
                read_item_box(&mut tags, data, &item);
                proof {
                    k = k + 1;
                }
            },
        }
    }
}

} // verus!
