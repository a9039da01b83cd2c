//! Walking the frames of an ID3v2 tag body.
//!
//! The walk finds the frames and prepares their content; what a frame's
//! content means is decided elsewhere.

use vstd::prelude::*;
use vstd::slice::slice_subrange;
use vstd::slice::slice_to_vec;
use crate::atom::{be32, read_be32};
use crate::bitpadded::{decoded, lemma_decoded_bound, BitPaddedInt};
use crate::header::{
    bpi_of, determine_bpi, has_magic, header_of, id_byte, is_id_byte, plausible_id,
    supported_major, ID3Header,
};
use crate::unsynch::{decode_unsynchronisation, unsynch_decoded};

verus! {

/// One frame as found in a tag: its id and its content, made ready for
/// decoding.
#[derive(Debug, Clone)]
pub struct RawFrame {
    /// The id: three bytes in version 2.2, four in the later versions.
    pub id: Vec<u8>,
    /// The content, with a data length prefix and unsynchronisation removed.
    pub data: Vec<u8>,
}

/// A frame as plain data.
pub struct FrameView {
    pub id: Seq<u8>,
    pub data: Seq<u8>,
}

impl View for RawFrame {
    type V = FrameView;

    open spec fn view(&self) -> FrameView {
        FrameView { id: self.id@, data: self.data@ }
    }
}

/// What the two flag bytes of a frame say, for the version of the tag.
pub struct FrameFlags {
    pub compressed: bool,
    pub encrypted: bool,
    pub unsynchronised: bool,
    pub has_data_length: bool,
}

/// The flags in the 16-bit flag field of a frame. Version 4 has a bit for
/// each; version 3 has no unsynchronisation per frame, and its compression
/// bit also announces a data length.
pub open spec fn flags_in(field: u16, version: u8) -> FrameFlags {
    if version == 4 {
        FrameFlags {
            compressed: field & 0x0008 != 0,
            encrypted: field & 0x0004 != 0,
            unsynchronised: field & 0x0002 != 0,
            has_data_length: field & 0x0001 != 0,
        }
    } else {
        FrameFlags {
            compressed: field & 0x0080 != 0,
            encrypted: field & 0x0040 != 0,
            unsynchronised: false,
            has_data_length: field & 0x0080 != 0,
        }
    }
}

/// The content of a frame made ready: nothing for an encrypted or compressed
/// frame, which is passed over; otherwise the payload without the four bytes
/// of a data length, where the flags announce one and the payload has them,
/// and with unsynchronisation reversed, where the flags say so.
pub open spec fn prepared(payload: Seq<u8>, flags: FrameFlags) -> Option<Seq<u8>> {
    if flags.encrypted || flags.compressed {
        None
    } else {
        let stripped = if flags.has_data_length && payload.len() >= 4 {
            payload.skip(4)
        } else {
            payload
        };
        Some(
            if flags.unsynchronised {
                unsynch_decoded(stripped)
            } else {
                stripped
            },
        )
    }
}

/// The frame with the given id and prepared content, or no frame.
pub open spec fn frame_if(id: Seq<u8>, data: Option<Seq<u8>>) -> Seq<FrameView> {
    match data {
        Some(d) => seq![FrameView { id, data: d }],
        None => Seq::empty(),
    }
}

/// The 16-bit flag field at `at`.
pub open spec fn flag_field(body: Seq<u8>, at: int) -> u16 {
    (body[at] * 0x100 + body[at + 1]) as u16
}

/// True when a frame with a ten-byte header starts at `at`: the header lies
/// in the body, does not start with a zero byte, has a plausible id, and
/// announces a content that is not empty and lies in the body.
pub open spec fn frame_at(body: Seq<u8>, at: int, bits: u8) -> bool {
    &&& 0 <= at
    &&& at + 10 <= body.len()
    &&& body[at] != 0
    &&& plausible_id(body, at)
    &&& decoded(body.subrange(at + 4, at + 8), bits) > 0
    &&& at + 10 + decoded(body.subrange(at + 4, at + 8), bits) <= body.len()
}

/// The frames of a body of version 2.3 or 2.4 from `at` on, with sizes read
/// at `bits` bits per byte. The walk ends, quietly, where no frame starts.
pub open spec fn frames_from(body: Seq<u8>, at: int, version: u8, bits: u8) -> Seq<FrameView>
    decreases body.len() - at,
{
    if frame_at(body, at, bits) {
        let size = decoded(body.subrange(at + 4, at + 8), bits);
        frame_if(
            body.subrange(at, at + 4),
            prepared(
                body.subrange(at + 10, at + 10 + size),
                flags_in(flag_field(body, at + 8), version),
            ),
        ) + frames_from(body, at + 10 + size, version, bits)
    } else {
        Seq::empty()
    }
}

/// The 24-bit integer at `at`, most significant byte first.
pub open spec fn be24(body: Seq<u8>, at: int) -> int {
    body[at] * 0x1_0000 + body[at + 1] * 0x100 + body[at + 2]
}

/// True when a frame with a six-byte header, as in version 2.2, starts at
/// `at`.
pub open spec fn frame22_at(body: Seq<u8>, at: int) -> bool {
    &&& 0 <= at
    &&& at + 6 <= body.len()
    &&& body[at] != 0
    &&& id_byte(body[at]) && id_byte(body[at + 1]) && id_byte(body[at + 2])
    &&& be24(body, at + 3) > 0
    &&& at + 6 + be24(body, at + 3) <= body.len()
}

/// The frames of a body of version 2.2 from `at` on.
pub open spec fn frames22_from(body: Seq<u8>, at: int) -> Seq<FrameView>
    decreases body.len() - at,
{
    if frame22_at(body, at) {
        let size = be24(body, at + 3);
        seq![FrameView { id: body.subrange(at, at + 3), data: body.subrange(at + 6, at + 6 + size) }]
            + frames22_from(body, at + 6 + size)
    } else {
        Seq::empty()
    }
}

/// The frames of a tag body of the given major version, walked from its
/// start.
pub open spec fn frames_of(body: Seq<u8>, version: u8, bits: u8) -> Seq<FrameView> {
    if version == 2 {
        frames22_from(body, 0)
    } else {
        frames_from(body, 0, version, bits)
    }
}

/// The views of frames.
pub open spec fn views(frames: Seq<RawFrame>) -> Seq<FrameView> {
    frames.map_values(|f: RawFrame| f@)
}

/// The length of the extended header at the start of a body: in version 4
/// its first four bytes as a syncsafe integer, in version 3 its first four
/// bytes as a plain integer and those four bytes. Zero where the body is
/// too short to say.
pub open spec fn extended_length(body: Seq<u8>, version: u8) -> int {
    if body.len() < 4 {
        0
    } else if version == 4 {
        decoded(body.subrange(0, 4), 7) as int
    } else {
        be32(body, 0) + 4
    }
}

/// The part of a tag body that holds the frames: the body with tag-wide
/// unsynchronisation reversed, in the versions before 4 where the header
/// asks for it, and without the extended header, in the versions after 2
/// where the header announces one.
pub open spec fn frame_region(body: Seq<u8>, header: ID3Header) -> Seq<u8> {
    let plain = if header.version.0 < 4 && header.flags.unsynchronisation {
        unsynch_decoded(body)
    } else {
        body
    };
    if header.flags.extended && header.version.0 >= 3 {
        let skip = extended_length(plain, header.version.0);
        if skip <= plain.len() {
            plain.skip(skip)
        } else {
            Seq::empty()
        }
    } else {
        plain
    }
}

/// The width at which the frame sizes of a region are read: found out from
/// the region in version 4, eight bits before.
pub open spec fn width_for(region: Seq<u8>, version: u8) -> u8 {
    if version == 4 {
        bpi_of(region, region.len() as usize)
    } else {
        8
    }
}

/// Reads the flags of a frame.
fn read_flags(high: u8, low: u8, version: u8) -> (result: FrameFlags)
    ensures
        result == flags_in((high * 0x100 + low) as u16, version),
{
    let field: u16 = high as u16 * 0x100 + low as u16;
    if version == 4 {
        FrameFlags {
            compressed: field & 0x0008 != 0,
            encrypted: field & 0x0004 != 0,
            unsynchronised: field & 0x0002 != 0,
            has_data_length: field & 0x0001 != 0,
        }
    } else {
        FrameFlags {
            compressed: field & 0x0080 != 0,
            encrypted: field & 0x0040 != 0,
            unsynchronised: false,
            has_data_length: field & 0x0080 != 0,
        }
    }
}

/// Makes the content of a frame ready for decoding, or passes the frame
/// over.
pub fn prepare_payload(payload: &[u8], flags: &FrameFlags) -> (result: Option<Vec<u8>>)
    ensures
        match prepared(payload@, *flags) {
            Some(d) => result matches Some(v) && v@ == d,
            None => result is None,
        },
{
    if flags.encrypted || flags.compressed {
        return None;
    }
    let stripped = if flags.has_data_length && payload.len() >= 4 {
        let s = slice_subrange(payload, 4, payload.len());
        assert(s@ =~= payload@.skip(4));
        s
    } else {
        payload
    };
    if flags.unsynchronised {
        match decode_unsynchronisation(stripped) {
            Ok(d) => Some(d),
            Err(_) => None,
        }
    } else {
        Some(slice_to_vec(stripped))
    }
}

/// Walks the frames of a body of version 2.3 or 2.4.
fn walk_frames_v2x(body: &[u8], version: u8, bits: u8) -> (result: Vec<RawFrame>)
    requires
        bits == 7 || bits == 8,
    ensures
        views(result@) == frames_from(body@, 0, version, bits),
{
    let mut out: Vec<RawFrame> = Vec::new();
    let mut at: usize = 0;
    let ghost goal = frames_from(body@, 0, version, bits);
    assert(views(out@) =~= Seq::<FrameView>::empty());
    assert(views(out@) + goal =~= goal);
    loop
        invariant
            bits == 7 || bits == 8,
            at <= body.len(),
            goal == frames_from(body@, 0, version, bits),
            views(out@) + frames_from(body@, at as int, version, bits) == goal,
        decreases body.len() - at,
    {
        let ghost rest = frames_from(body@, at as int, version, bits);
        if body.len() - at < 10 || body[at] == 0 {
            assert(views(out@) + Seq::<FrameView>::empty() =~= views(out@));
            return out;
        }
        if !(is_id_byte(body[at]) && is_id_byte(body[at + 1]) && is_id_byte(
            body[at + 2],
        ) && is_id_byte(body[at + 3])) {
            assert(views(out@) + Seq::<FrameView>::empty() =~= views(out@));
            return out;
        }
        let size: usize = BitPaddedInt::decode(slice_subrange(body, at + 4, at + 8), bits) as usize;
        if size == 0 || size > body.len() - at - 10 {
            assert(views(out@) + Seq::<FrameView>::empty() =~= views(out@));
            return out;
        }
        let flags = read_flags(body[at + 8], body[at + 9], version);
        let start: usize = at + 10;
        let payload = slice_subrange(body, start, start + size);
        let ghost before = views(out@);
        match prepare_payload(payload, &flags) {
            Some(data) => {
                let id = slice_to_vec(slice_subrange(body, at, at + 4));
                out.push(RawFrame { id, data });
                assert(views(out@) =~= before + frame_if(
                    body@.subrange(at as int, at + 4),
                    prepared(payload@, flags),
                ));
            },
            None => {
                assert(views(out@) =~= before + frame_if(
                    body@.subrange(at as int, at + 4),
                    prepared(payload@, flags),
                ));
            },
        }
        assert(views(out@) + frames_from(body@, start + size, version, bits) =~= before + rest);
        at = start + size;
    }
}

/// Walks the frames of a body of version 2.2.
fn walk_frames_v22(body: &[u8]) -> (result: Vec<RawFrame>)
    ensures
        views(result@) == frames22_from(body@, 0),
{
    let mut out: Vec<RawFrame> = Vec::new();
    let mut at: usize = 0;
    let ghost goal = frames22_from(body@, 0);
    assert(views(out@) =~= Seq::<FrameView>::empty());
    assert(views(out@) + goal =~= goal);
    loop
        invariant
            at <= body.len(),
            goal == frames22_from(body@, 0),
            views(out@) + frames22_from(body@, at as int) == goal,
        decreases body.len() - at,
    {
        let ghost rest = frames22_from(body@, at as int);
        if body.len() - at < 6 || body[at] == 0 {
            assert(views(out@) + Seq::<FrameView>::empty() =~= views(out@));
            return out;
        }
        if !(is_id_byte(body[at]) && is_id_byte(body[at + 1]) && is_id_byte(
            body[at + 2],
        )) {
            assert(views(out@) + Seq::<FrameView>::empty() =~= views(out@));
            return out;
        }
        let size: usize = body[at + 3] as usize * 0x1_0000 + body[at + 4] as usize * 0x100
            + body[at + 5] as usize;
        if size == 0 || size > body.len() - at - 6 {
            assert(views(out@) + Seq::<FrameView>::empty() =~= views(out@));
            return out;
        }
        let start: usize = at + 6;
        let ghost before = views(out@);
        let id = slice_to_vec(slice_subrange(body, at, at + 3));
        let data = slice_to_vec(slice_subrange(body, start, start + size));
        out.push(RawFrame { id, data });
        assert(views(out@) =~= before + seq![
            FrameView {
                id: body@.subrange(at as int, at + 3),
                data: body@.subrange(start as int, start + size),
            },
        ]);
        assert(views(out@) + frames22_from(body@, start + size) =~= before + rest);
        at = start + size;
    }
}

/// Walks the frames of a tag body of the given major version, in order,
/// reading frame sizes at `width` bits per byte.
///
/// The body is what follows the tag header and any extended header. Version
/// 2 has six-byte frame headers and takes no width; the later versions have
/// ten-byte headers. The walk stops at padding, at an implausible id, at an
/// empty frame and at a frame that would reach past the body. Encrypted and
/// compressed frames are passed over.
pub fn walk_frames(tag_body: &[u8], version: u8, width: u8) -> (result: Vec<RawFrame>)
    requires
        width == 7 || width == 8,
    ensures
        views(result@) == frames_of(tag_body@, version, width),
{
    if version == 2 {
        walk_frames_v22(tag_body)
    } else {
        walk_frames_v2x(tag_body, version, width)
    }
}

/// The length of the extended header at the start of a body.
pub fn extended_header_length(body: &[u8], version: u8) -> (result: u64)
    ensures
        result == extended_length(body@, version),
{
    if body.len() < 4 {
        0
    } else if version == 4 {
        proof {
            lemma_decoded_bound(body@.subrange(0, 4), 7);
        }
        BitPaddedInt::syncsafe(slice_subrange(body, 0, 4)) as u64
    } else {
        read_be32(body, 0) as u64 + 4
    }
}

/// Cuts an extended header off the start of a body.
fn without_extended_header<'a>(plain: &'a [u8], header: &ID3Header) -> (result: &'a [u8])
    ensures
        result@ == if header.flags.extended && header.version.0 >= 3 {
            let skip = extended_length(plain@, header.version.0);
            if skip <= plain@.len() {
                plain@.skip(skip)
            } else {
                Seq::empty()
            }
        } else {
            plain@
        },
{
    if header.flags.extended && header.version.0 >= 3 {
        let skip: u64 = extended_header_length(plain, header.version.0);
        if skip <= plain.len() as u64 {
            let s = slice_subrange(plain, skip as usize, plain.len());
            assert(s@ =~= plain@.skip(skip as int));
            s
        } else {
            let s = slice_subrange(plain, 0, 0);
            assert(s@ =~= Seq::<u8>::empty());
            s
        }
    } else {
        plain
    }
}

/// Reads the frames of the tag body that belongs to `header`.
///
/// Tag-wide unsynchronisation is reversed first, in the versions before 4;
/// an extended header is skipped; in version 4 the width of the frame sizes
/// is found out from the frames themselves.
pub fn read_frames(tag_body: &[u8], header: &ID3Header) -> (result: Vec<RawFrame>)
    ensures
        views(result@) == frames_of(
            frame_region(tag_body@, *header),
            header.version.0,
            width_for(frame_region(tag_body@, *header), header.version.0),
        ),
{
    let version: u8 = header.version.0;
    if version < 4 && header.flags.unsynchronisation {
        let plain: Vec<u8> = match decode_unsynchronisation(tag_body) {
            Ok(d) => d,
            Err(_) => Vec::new(),
        };
        let region = without_extended_header(plain.as_slice(), header);
        walk_frames(region, version, 8)
    } else {
        let region = without_extended_header(tag_body, header);
        let width: u8 = if version == 4 {
            determine_bpi(region, region.len())
        } else {
            8
        };
        walk_frames(region, version, width)
    }
}

/// The tag at the start of a file: its header and its frames. There is none
/// where the file does not start with a header that can be read, and none
/// where the body that the header announces does not lie in the file.
pub open spec fn tag_in(data: Seq<u8>) -> Option<(ID3Header, Seq<FrameView>)> {
    if has_magic(data) && supported_major(data[3]) {
        let header = header_of(data.subrange(0, 10), 0);
        if 10 + header.size <= data.len() {
            let region = frame_region(data.subrange(10, 10 + header.size), header);
            Some((header, frames_of(region, header.version.0, width_for(region, header.version.0))))
        } else {
            None
        }
    } else {
        None
    }
}

/// Reads the ID3v2 tag at the start of a file.
pub fn read_id3_tag(data: &[u8]) -> (result: Option<(ID3Header, Vec<RawFrame>)>)
    ensures
        match tag_in(data@) {
            Some((header, frames)) => result matches Some((h, found)) && h == header && views(
                found@,
            ) == frames,
            None => result is None,
        },
{
    if data.len() < 10 {
        return None;
    }
    let start = slice_subrange(data, 0, 10);
    assert(has_magic(start@) == has_magic(data@));
    match ID3Header::parse(start, 0) {
        Ok(header) => {
            let size: usize = header.size as usize;
            if size <= data.len() - 10 {
                let frames = read_frames(slice_subrange(data, 10, 10 + size), &header);
                Some((header, frames))
            } else {
                None
            }
        },
        Err(_) => None,
    }
}

} // verus!
