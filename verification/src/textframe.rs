//! Decoding the two plainest kinds of frame: text frames with one value in
//! Latin-1 or UTF-8, and links.

use vstd::prelude::*;
use vstd::slice::slice_subrange;
use vstd::utf8::*;
use crate::frames::{views, FrameView, RawFrame};
use crate::id3tags::{entry_of, lemma_entry_of, Entries, Frame, ID3Tags, LazyFrame};
use crate::text::{decode_latin1, find_byte, from_utf8, latin1};

verus! {

/// The bytes without the zero bytes at their end.
pub open spec fn trimmed(s: Seq<u8>) -> Seq<u8>
    decreases s.len(),
{
    if s.len() > 0 && s.last() == 0 {
        trimmed(s.drop_last())
    } else {
        s
    }
}

/// The one value of a text frame, where the frame is plain enough: its
/// content is a byte that names the encoding and the text, which may end in
/// zero bytes. Encoding 0 is Latin-1, encoding 3 is UTF-8. There is no
/// value for an empty text, for a text with a zero byte inside, which
/// separates several values, for UTF-8 that is not valid, and for the other
/// encodings.
pub open spec fn simple_text(data: Seq<u8>) -> Option<Seq<char>> {
    if data.len() == 0 {
        None
    } else {
        let text = trimmed(data.skip(1));
        if text.len() == 0 || text.contains(0) {
            None
        } else if data[0] == 3 {
            if valid_utf8(text) {
                Some(decode_utf8(text))
            } else {
                None
            }
        } else if data[0] == 0 {
            Some(latin1(text))
        } else {
            None
        }
    }
}

/// The link of a link frame, where it is plain enough: the content without
/// the zero bytes at its end, where that is not empty and all ASCII.
pub open spec fn simple_url(data: Seq<u8>) -> Option<Seq<char>> {
    let text = trimmed(data);
    if text.len() > 0 && (forall|i: int| 0 <= i < text.len() ==> text[i] < 0x80) {
        Some(latin1(text))
    } else {
        None
    }
}

/// True for the ids of text frames with plain values: four bytes that start
/// with `T`, but for `TXXX`, `TIPL` and `TMCL`.
pub open spec fn text_id(id: Seq<u8>) -> bool {
    &&& id.len() == 4
    &&& id[0] == 0x54
    &&& !(id[1] == 0x58 && id[2] == 0x58 && id[3] == 0x58)
    &&& !(id[1] == 0x49 && id[2] == 0x50 && id[3] == 0x4c)
    &&& !(id[1] == 0x4d && id[2] == 0x43 && id[3] == 0x4c)
}

/// True for the ids of link frames: four bytes that start with `W`, but for
/// `WXXX`.
pub open spec fn url_id(id: Seq<u8>) -> bool {
    &&& id.len() == 4
    &&& id[0] == 0x57
    &&& !(id[1] == 0x58 && id[2] == 0x58 && id[3] == 0x58)
}

/// What decoding makes of a frame, said of the decoded frame.
pub open spec fn decodes_to(frame: FrameView, result: Option<Frame>) -> bool {
    if text_id(frame.id) && simple_text(frame.data) is Some {
        result matches Some(Frame::Text { id, encoding, text }) && id@ == latin1(frame.id)
            && encoding == frame.data[0] && text@.len() == 1 && text@[0]@ == simple_text(
            frame.data,
        ).unwrap()
    } else if url_id(frame.id) && simple_url(frame.data) is Some {
        result matches Some(Frame::Url { id, url }) && id@ == latin1(frame.id) && url@
            == simple_url(frame.data).unwrap()
    } else {
        result is None
    }
}

/// Finds the length of the bytes without the zero bytes at their end.
pub fn trimmed_length(data: &[u8]) -> (result: usize)
    ensures
        result <= data@.len(),
        data@.take(result as int) == trimmed(data@),
{
    let mut n: usize = data.len();
    assert(data@.take(n as int) =~= data@);
    while n > 0 && data[n - 1] == 0
        invariant
            n <= data.len(),
            trimmed(data@.take(n as int)) == trimmed(data@),
        decreases n,
    {
        assert(data@.take(n as int).drop_last() =~= data@.take(n - 1));
        n -= 1;
    }
    n
}

/// Tells whether every byte is ASCII.
fn all_ascii(data: &[u8]) -> (result: bool)
    ensures
        result == (forall|i: int| 0 <= i < data@.len() ==> data@[i] < 0x80),
{
    let mut i: usize = 0;
    while i < data.len()
        invariant
            i <= data.len(),
            forall|j: int| 0 <= j < i ==> data@[j] < 0x80,
        decreases data.len() - i,
    {
        if data[i] >= 0x80 {
            return false;
        }
        i += 1;
    }
    true
}

/// Reads the one value of a plain text frame.
pub fn read_simple_text(data: &[u8]) -> (result: Option<String>)
    ensures
        match simple_text(data@) {
            Some(text) => result matches Some(found) && found@ == text,
            None => result is None,
        },
{
    if data.len() == 0 {
        return None;
    }
    let encoding: u8 = data[0];
    let rest = slice_subrange(data, 1, data.len());
    assert(rest@ =~= data@.skip(1));
    let len = trimmed_length(rest);
    if len == 0 {
        return None;
    }
    let text = slice_subrange(rest, 0, len);
    assert(text@ =~= trimmed(rest@));
    if encoding == 3 {
        match find_byte(0, text) {
            Some(i) => {
                assert(text@[i as int] == 0);
                None
            },
            None => from_utf8(text),
        }
    } else if encoding == 0 {
        match find_byte(0, text) {
            Some(i) => {
                assert(text@[i as int] == 0);
                None
            },
            None => Some(decode_latin1(text)),
        }
    } else {
        None
    }
}

/// Reads the link of a plain link frame.
pub fn read_simple_url(data: &[u8]) -> (result: Option<String>)
    ensures
        match simple_url(data@) {
            Some(text) => result matches Some(found) && found@ == text,
            None => result is None,
        },
{
    let len = trimmed_length(data);
    let text = slice_subrange(data, 0, len);
    assert(text@ =~= trimmed(data@));
    if len > 0 && all_ascii(text) {
        Some(decode_latin1(text))
    } else {
        None
    }
}

/// Decodes a frame of one of the two plain kinds; other frames are left to
/// a full decoder.
pub fn decode_simple_frame(frame: &RawFrame) -> (result: Option<Frame>)
    ensures
        decodes_to(frame@, result),
{
    let id = frame.id.as_slice();
    if id.len() != 4 {
        return None;
    }
    let x: bool = id[1] == 0x58 && id[2] == 0x58 && id[3] == 0x58;
    if id[0] == 0x54 && !x && !(id[1] == 0x49 && id[2] == 0x50 && id[3] == 0x4c) && !(id[1] == 0x4d
        && id[2] == 0x43 && id[3] == 0x4c) {
        match read_simple_text(frame.data.as_slice()) {
            Some(value) => {
                let mut text: Vec<String> = Vec::new();
                text.push(value);
                Some(Frame::Text { id: decode_latin1(id), encoding: frame.data[0], text })
            },
            None => None,
        }
    } else if id[0] == 0x57 && !x {
        match read_simple_url(frame.data.as_slice()) {
            Some(url) => Some(Frame::Url { id: decode_latin1(id), url }),
            None => None,
        }
    } else {
        None
    }
}

/// The key under which a frame of one of the two plain kinds is kept, or
/// nothing for a frame that is not decoded here.
pub open spec fn simple_key(frame: FrameView) -> Option<Seq<char>> {
    if (text_id(frame.id) && simple_text(frame.data) is Some) || (url_id(frame.id) && simple_url(
        frame.data,
    ) is Some) {
        Some(latin1(frame.id))
    } else {
        None
    }
}

/// The keys of a tag that took in the plain frames among `frames` in order:
/// each key once, where it first came.
pub open spec fn gathered_keys(frames: Seq<FrameView>) -> Seq<Seq<char>>
    decreases frames.len(),
{
    if frames.len() == 0 {
        Seq::empty()
    } else {
        let before = gathered_keys(frames.drop_last());
        match simple_key(frames.last()) {
            Some(key) => if before.contains(key) {
                before
            } else {
                before.push(key)
            },
            None => before,
        }
    }
}

/// The keys of the entries of a tag.
pub open spec fn keys_of(entries: Entries) -> Seq<Seq<char>> {
    entries.map_values(|entry: (String, Vec<LazyFrame>)| entry.0@)
}

/// A key has an entry exactly when it is among the keys.
pub proof fn lemma_entry_among_keys(entries: Entries, key: Seq<char>)
    ensures
        (entry_of(entries, key) < entries.len()) == keys_of(entries).contains(key),
{
    lemma_entry_of(entries, key);
    let keys = keys_of(entries);
    let at = entry_of(entries, key);
    if at < entries.len() {
        assert(keys[at] == key);
    }
    if keys.contains(key) {
        let j = choose|j: int| 0 <= j < keys.len() && keys[j] == key;
        assert(entries[j].0@ == key);
    }
}

/// Takes the plain frames among `frames` into a new tag, in order. The
/// first frame of a key is kept; later ones are dropped.
pub fn gather_simple_frames(frames: &[RawFrame]) -> (result: ID3Tags)
    ensures
        result.wf(),
        keys_of(result.items@) == gathered_keys(views(frames@)),
{
    let mut tags = ID3Tags::new();
    let mut i: usize = 0;
    assert(views(frames@).take(0) =~= Seq::<FrameView>::empty());
    assert(keys_of(tags.items@) =~= Seq::<Seq<char>>::empty());
    while i < frames.len()
        invariant
            i <= frames.len(),
            tags.wf(),
            keys_of(tags.items@) == gathered_keys(views(frames@).take(i as int)),
        decreases frames.len() - i,
    {
        let ghost before = tags.items@;
        proof {
            assert(views(frames@).take(i + 1).drop_last() =~= views(frames@).take(i as int));
            assert(views(frames@).take(i + 1).last() == frames@[i as int]@);
        }
        match decode_simple_frame(&frames[i]) {
            Some(frame) => {
                proof {
                    lemma_entry_among_keys(before, frame.key());
                }
                let taken = tags.add(frame);
                proof {
                    if taken {
                        assert(keys_of(tags.items@) =~= keys_of(before).push(frame.key()));
                    }
                }
            },
            None => {},
        }
        i += 1;
    }
    assert(views(frames@).take(i as int) =~= views(frames@));
    tags
}

} // verus!
