//! Writing tags back into an MP4 file.
//!
//! The `moov` box is built anew around a new `ilst` box; every box that does
//! not lie on the way from `moov` to `ilst` is copied as it is. Where the new
//! `moov` has another size and media data follows it, the chunk offset tables
//! are moved along.

use vstd::prelude::*;
use vstd::slice::slice_subrange;
use crate::atom::{
    be32, box_offsets, describes, find_atom, name_bytes, name_of, same_name, Atom,
    AtomIter, HDLR, ILST, MDAT, META, MOOV, UDTA,
};
use crate::error::TagError;
use crate::offsets::{move_chunk_offsets, moved_boxes};
use crate::reader::{first_box, lemma_found_is_first};
use crate::render::{atom_bytes, hdlr_body, ilst_bytes, make_atom, make_meta_hdlr, push_zeros, zeros};
use crate::tags::{MP4Tags, TagsView};
use crate::text::append_bytes;

verus! {

/// The box at `at`, copied whole, unless it has the given name.
pub open spec fn unless_named(data: Seq<u8>, at: int, name: u32) -> Seq<u8> {
    if data.subrange(at + 4, at + 8) == name_bytes(name) {
        Seq::empty()
    } else {
        data.subrange(at, at + be32(data, at))
    }
}

/// The boxes at `offsets` that do not have the given name, copied whole, in
/// order.
pub open spec fn others(data: Seq<u8>, offsets: Seq<int>, name: u32) -> Seq<u8>
    decreases offsets.len(),
{
    if offsets.len() == 0 {
        Seq::empty()
    } else {
        others(data, offsets.drop_last(), name) + unless_named(data, offsets.last(), name)
    }
}

/// The content of the new `meta` box. A `meta` box that is there, at `meta`,
/// keeps its four bytes of version and flags and its boxes other than
/// `ilst`; a new one gets zero flags and a handler box. The new `ilst` comes
/// last.
pub open spec fn meta_body(data: Seq<u8>, meta: Option<int>, ilst: Seq<u8>) -> Seq<u8> {
    match meta {
        None => zeros(4) + atom_bytes(name_bytes(HDLR), hdlr_body()) + ilst,
        Some(at) => {
            let size = be32(data, at);
            if size >= 12 {
                data.subrange(at + 8, at + 12) + others(
                    data,
                    box_offsets(data, at + 12, at + size),
                    ILST,
                ) + ilst
            } else {
                zeros(4) + ilst
            }
        },
    }
}

/// The content of the new `udta` box: the boxes of the old one, at `udta`,
/// other than `meta`, then the new `meta` box, built from the first `meta`
/// of the old one.
pub open spec fn udta_body(data: Seq<u8>, udta: Option<int>, ilst: Seq<u8>) -> Seq<u8> {
    match udta {
        None => atom_bytes(name_bytes(META), meta_body(data, None, ilst)),
        Some(at) => {
            let end = at + be32(data, at);
            others(data, box_offsets(data, at + 8, end), META) + atom_bytes(
                name_bytes(META),
                meta_body(data, first_box(data, at + 8, end, META), ilst),
            )
        },
    }
}

/// The new `moov` box for the old one at `moov`: its boxes other than
/// `udta`, then the new `udta` box, built from its first `udta`.
pub open spec fn moov_bytes(data: Seq<u8>, moov: int, ilst: Seq<u8>) -> Seq<u8> {
    let end = moov + be32(data, moov);
    atom_bytes(
        name_bytes(MOOV),
        others(data, box_offsets(data, moov + 8, end), UDTA) + atom_bytes(
            name_bytes(UDTA),
            udta_body(data, first_box(data, moov + 8, end, UDTA), ilst),
        ),
    )
}

/// True when one of the boxes at `offsets` is an `mdat` box that starts
/// after `moov`.
pub open spec fn mdat_after(data: Seq<u8>, offsets: Seq<int>, moov: int) -> bool {
    exists|i: int|
        0 <= i < offsets.len() && data.subrange(#[trigger] offsets[i] + 4, offsets[i] + 8)
            == name_bytes(MDAT) && offsets[i] > moov
}

/// The new `moov` box as it is written: with its chunk offsets moved by the
/// change in size where that is not zero and media data follows the old box.
pub open spec fn written_moov(data: Seq<u8>, moov: int, ilst: Seq<u8>) -> Seq<u8> {
    let fresh = moov_bytes(data, moov, ilst);
    let delta = fresh.len() - be32(data, moov);
    if delta != 0 && mdat_after(data, box_offsets(data, 0, data.len() as int), moov) {
        moved_boxes(fresh, 8, fresh.len() as int, delta)
    } else {
        fresh
    }
}

/// The file with the given tags written into it: what stands before the
/// first `moov` box, the new `moov` box, what stands after the old one.
/// Nothing where the file has no `moov` box.
pub open spec fn saved(data: Seq<u8>, tags: TagsView) -> Option<Seq<u8>> {
    match first_box(data, 0, data.len() as int, MOOV) {
        None => None,
        Some(moov) => Some(
            data.subrange(0, moov) + written_moov(data, moov, ilst_bytes(tags)) + data.subrange(
                moov + be32(data, moov),
                data.len() as int,
            ),
        ),
    }
}

/// Copies the boxes of `data[start..end]` that do not have the given name.
pub fn copy_others(data: &[u8], start: usize, end: usize, name: u32) -> (result: Vec<u8>)
    requires
        end <= data.len(),
    ensures
        result@ == others(data@, box_offsets(data@, start as int, end as int), name),
{
    let mut out: Vec<u8> = Vec::new();
    let mut it = AtomIter::new(data, start, end);
    let ghost all = it.remaining();
    let ghost k: int = 0;
    let skipped = name_of(name);
    assert(all.take(0) =~= Seq::<int>::empty());
    loop
        invariant
            it.wf(),
            it.bytes() == data@,
            it.limit() == end,
            end <= data.len(),
            skipped@ == name_bytes(name),
            all == box_offsets(data@, start as int, end as int),
            0 <= k <= all.len(),
            it.remaining() == all.skip(k),
            out@ == others(data@, all.take(k), name),
        decreases all.len() - k,
    {
        match it.next() {
            None => {
                assert(all.take(k) =~= all);
                return out;
            },
            Some(atom) => {
                proof {
                    assert(all.skip(k).skip(1) =~= all.skip(k + 1));
                    assert(all.take(k + 1).drop_last() =~= all.take(k));
                    assert(all.take(k + 1).last() == all[k]);
                }
                if !same_name(&atom.name, &skipped) {
                    append_bytes(
                        &mut out,
                        slice_subrange(data, atom.offset, atom.offset + atom.size),
                    );
                } else {
                    assert(out@ + Seq::<u8>::empty() =~= out@);
                }
                proof {
                    k = k + 1;
                }
            },
        }
    }
}

/// Tells whether an `mdat` box among the top-level boxes of the file starts
/// after `moov`.
pub fn has_mdat_after(data: &[u8], moov: usize) -> (result: bool)
    ensures
        result == mdat_after(data@, box_offsets(data@, 0, data@.len() as int), moov as int),
{
    let mut it = AtomIter::new(data, 0, data.len());
    let ghost all = it.remaining();
    let ghost k: int = 0;
    let mdat = name_of(MDAT);
    loop
        invariant
            it.wf(),
            it.bytes() == data@,
            it.limit() == data.len(),
            mdat@ == name_bytes(MDAT),
            all == box_offsets(data@, 0, data@.len() as int),
            0 <= k <= all.len(),
            it.remaining() == all.skip(k),
            forall|i: int|
                0 <= i < k ==> !(data@.subrange(#[trigger] all[i] + 4, all[i] + 8) == name_bytes(
                    MDAT,
                ) && all[i] > moov),
        decreases all.len() - k,
    {
        match it.next() {
            None => {
                return false;
            },
            Some(atom) => {
                proof {
                    assert(all.skip(k).skip(1) =~= all.skip(k + 1));
                    assert(all.skip(k)[0] == all[k]);
                }
                if same_name(&atom.name, &mdat) && atom.offset > moov {
                    return true;
                }
                proof {
                    k = k + 1;
                }
            },
        }
    }
}

/// Builds the content of the new `meta` box from the old box, if there is
/// one, and the new `ilst` box.
pub fn rebuild_meta(data: &[u8], meta: Option<Atom>, ilst: &[u8]) -> (result: Vec<u8>)
    requires
        meta matches Some(a) ==> describes(a, data@, a.offset as int) && a.size >= 8 && a.offset
            + a.size <= data.len(),
    ensures
        result@ == meta_body(
            data@,
            match meta {
                Some(a) => Some(a.offset as int),
                None => None,
            },
            ilst@,
        ),
{
    let mut body: Vec<u8> = Vec::new();
    match meta {
        None => {
            push_zeros(&mut body, 4);
            let hdlr = make_meta_hdlr();
            append_bytes(&mut body, hdlr.as_slice());
        },
        Some(a) => {
            if a.data_size >= 4 {
                append_bytes(&mut body, slice_subrange(data, a.data_offset, a.data_offset + 4));
                let kept = copy_others(data, a.data_offset + 4, a.offset + a.size, ILST);
                append_bytes(&mut body, kept.as_slice());
            } else {
                push_zeros(&mut body, 4);
            }
        },
    }
    append_bytes(&mut body, ilst);
    body
}

/// Builds the content of the new `udta` box from the old box, if there is
/// one, and the new `ilst` box.
pub fn rebuild_udta(data: &[u8], udta: Option<Atom>, ilst: &[u8]) -> (result: Vec<u8>)
    requires
        udta matches Some(a) ==> describes(a, data@, a.offset as int) && a.size >= 8 && a.offset
            + a.size <= data.len(),
    ensures
        result@ == udta_body(
            data@,
            match udta {
                Some(a) => Some(a.offset as int),
                None => None,
            },
            ilst@,
        ),
{
    match udta {
        None => {
            let body = rebuild_meta(data, None, ilst);
            make_atom(&name_of(META), body.as_slice())
        },
        Some(a) => {
            let end: usize = a.offset + a.size;
            let mut out = copy_others(data, a.data_offset, end, META);
            let meta = find_atom(data, a.data_offset, end, &name_of(META));
            proof {
                lemma_found_is_first(data@, a.offset + 8, end as int, META, meta);
            }
            let body = rebuild_meta(data, meta, ilst);
            let meta_atom = make_atom(&name_of(META), body.as_slice());
            append_bytes(&mut out, meta_atom.as_slice());
            out
        },
    }
}

/// Builds the new `moov` box from the old one and the new `ilst` box.
pub fn rebuild_moov(data: &[u8], moov: &Atom, ilst: &[u8]) -> (result: Vec<u8>)
    requires
        describes(*moov, data@, moov.offset as int),
        moov.size >= 8,
        moov.offset + moov.size <= data.len(),
    ensures
        result@ == moov_bytes(data@, moov.offset as int, ilst@),
{
    let end: usize = moov.offset + moov.size;
    let mut body = copy_others(data, moov.data_offset, end, UDTA);
    let udta = find_atom(data, moov.data_offset, end, &name_of(UDTA));
    proof {
        lemma_found_is_first(data@, moov.offset + 8, end as int, UDTA, udta);
    }
    let udta_content = rebuild_udta(data, udta, ilst);
    let udta_atom = make_atom(&name_of(UDTA), udta_content.as_slice());
    append_bytes(&mut body, udta_atom.as_slice());
    make_atom(&name_of(MOOV), body.as_slice())
}

/// Writes the tags into the bytes of an MP4 file and returns the bytes of
/// the new file.
///
/// Only the first `moov` box changes: all that stands before and after it is
/// kept byte for byte, so the file's length changes by the change in size of
/// that box and by nothing else. A file without a `moov` box cannot be
/// written to.
pub fn save_mp4_tags(data: &[u8], tags: &MP4Tags) -> (result: Result<Vec<u8>, TagError>)
    ensures
        match saved(data@, tags@) {
            Some(bytes) => result matches Ok(out) && out@ == bytes,
            None => result matches Err(TagError::MP4(reason)) && reason@
                == "No moov atom found"@,
        },
        result matches Ok(out) ==> {
            let moov = first_box(data@, 0, data@.len() as int, MOOV).unwrap();
            let old_size = be32(data@, moov);
            let new_size = moov_bytes(data@, moov, ilst_bytes(tags@)).len();
            &&& out@.len() == data@.len() - old_size + new_size
            &&& out@.subrange(0, moov) == data@.subrange(0, moov)
            &&& out@.subrange(moov + new_size, out@.len() as int) == data@.subrange(
                moov + old_size,
                data@.len() as int,
            )
        },
{
    let found = find_atom(data, 0, data.len(), &name_of(MOOV));
    proof {
        lemma_found_is_first(data@, 0, data@.len() as int, MOOV, found);
    }
    let moov = match found {
        Some(a) => a,
        None => {
            return Err(TagError::MP4(String::from_str("No moov atom found")));
        },
    };
    let new_ilst = tags.render_ilst();
    let mut new_moov = rebuild_moov(data, &moov, new_ilst.as_slice());
    let ghost fresh = new_moov@;
    let delta: i128 = new_moov.len() as i128 - moov.size as i128;
    if delta != 0 && has_mdat_after(data, moov.offset) {
        let end: usize = new_moov.len();
        move_chunk_offsets(&mut new_moov, 8, end, delta);
    }
    let moov_end: usize = moov.offset + moov.size;
    let mut output: Vec<u8> = Vec::new();
    append_bytes(&mut output, slice_subrange(data, 0, moov.offset));
    append_bytes(&mut output, new_moov.as_slice());
    append_bytes(&mut output, slice_subrange(data, moov_end, data.len()));
    proof {
        let m = moov.offset as int;
        assert(output@.subrange(0, m) =~= data@.subrange(0, m));
        assert(output@.subrange(m + fresh.len(), output@.len() as int) =~= data@.subrange(
            moov_end as int,
            data@.len() as int,
        ));
    }
    Ok(output)
}

} // verus!
