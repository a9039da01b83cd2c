//! Reading what the `moov` box says of the audio stream.
//!
//! Only whole numbers are read here. The length in seconds is the duration
//! divided by the timescale, and the bitrate follows from it; both are left
//! to the caller.

use vstd::prelude::*;
use vstd::slice::slice_subrange;
use crate::atom::{
    be32, box_offsets, describes, find_atom, held, name_bytes, name_of, read_be32,
    same_name, Atom, AtomIter,
};
use crate::atom::{HDLR, MOOV};
use crate::error::TagError;
use crate::offsets::{be64, MDIA, MINF, STBL, TRAK};
use crate::reader::{first_box, lemma_found_is_first};
use crate::text::{from_utf8_lossy, utf8_lossy};

verus! {

/// `mvhd`: the movie header.
pub const MVHD: u32 = 0x6d76_6864;

/// `stsd`: the sample descriptions.
pub const STSD: u32 = 0x7374_7364;

/// `soun`: the handler type of sound.
pub const SOUN: u32 = 0x736f_756e;

/// How long the stream lasts: `duration` units of which `timescale` make a
/// second.
#[derive(Debug, Clone, Copy)]
pub struct MP4Timing {
    pub duration: u64,
    pub timescale: u32,
}

/// The format of the audio.
#[derive(Debug, Clone)]
pub struct MP4AudioFormat {
    pub channels: u32,
    pub sample_rate: u32,
    pub bits_per_sample: u32,
    pub codec: String,
}

/// An audio format as plain data.
pub struct AudioFormatView {
    pub channels: u32,
    pub sample_rate: u32,
    pub bits_per_sample: u32,
    pub codec: Seq<char>,
}

impl View for MP4AudioFormat {
    type V = AudioFormatView;

    open spec fn view(&self) -> AudioFormatView {
        AudioFormatView {
            channels: self.channels,
            sample_rate: self.sample_rate,
            bits_per_sample: self.bits_per_sample,
            codec: self.codec@,
        }
    }
}

/// The 16-bit integer at `at`, most significant byte first.
pub open spec fn be16(data: Seq<u8>, at: int) -> int {
    data[at] * 0x100 + data[at + 1]
}

/// The timing when the file says nothing: no duration, a millisecond scale.
pub open spec fn no_timing() -> MP4Timing {
    MP4Timing { duration: 0, timescale: 1000 }
}

/// The timing in the `mvhd` box at `at`. Version 0 of the box holds both
/// numbers in 32 bits, version 1 holds the duration in 64 bits. A box of
/// another version, or too short for its version, says nothing.
pub open spec fn timing_at(data: Seq<u8>, at: int) -> MP4Timing {
    let start = at + 8;
    let len = be32(data, at) - 8;
    if len >= 20 && data[start] == 0 {
        MP4Timing {
            duration: be32(data, start + 16) as u64,
            timescale: be32(data, start + 12) as u32,
        }
    } else if len >= 32 && data[start] == 1 {
        MP4Timing {
            duration: be64(data, start + 24) as u64,
            timescale: be32(data, start + 20) as u32,
        }
    } else {
        no_timing()
    }
}

/// The timing of the `moov` box whose content is `data[start..end]`.
pub open spec fn timing_in(data: Seq<u8>, start: int, end: int) -> MP4Timing {
    match first_box(data, start, end, MVHD) {
        Some(at) => timing_at(data, at),
        None => no_timing(),
    }
}

/// True when the box at `at` is a handler box that declares sound.
pub open spec fn sound_handler(data: Seq<u8>, at: int) -> bool {
    data.subrange(at + 4, at + 8) == name_bytes(HDLR) && be32(data, at) >= 20 && be32(
        data,
        at + 16,
    ) == SOUN
}

/// True when one of the boxes at `offsets` is a handler box that declares
/// sound.
pub open spec fn has_sound_handler(data: Seq<u8>, offsets: Seq<int>) -> bool {
    exists|i: int| 0 <= i < offsets.len() && sound_handler(data, #[trigger] offsets[i])
}

/// The content of the box at `at`, searched for the first box named `name`.
pub open spec fn child(data: Seq<u8>, at: int, name: u32) -> Option<int> {
    first_box(data, at + 8, at + be32(data, at), name)
}

/// The sample description box of the track at `trak`, where the track holds
/// sound: the `stsd` in the `stbl` in the `minf` in the `mdia` of the track.
pub open spec fn sound_description(data: Seq<u8>, trak: int) -> Option<int> {
    match child(data, trak, MDIA) {
        None => None,
        Some(mdia) => if !has_sound_handler(
            data,
            box_offsets(data, mdia + 8, mdia + be32(data, mdia)),
        ) {
            None
        } else {
            match child(data, mdia, MINF) {
                None => None,
                Some(minf) => match child(data, minf, STBL) {
                    None => None,
                    Some(stbl) => child(data, stbl, STSD),
                },
            }
        },
    }
}

/// The format in the sample description box at `at`, or `current` where the
/// box is too short to hold one. The first description starts after eight
/// bytes of the box's content: its name stands at its bytes 4 to 8, and in
/// the audio fields that follow its eight bytes of header the channels stand
/// at byte 16, the bits per sample at 18 and the sample rate at 24.
pub open spec fn format_at(data: Seq<u8>, at: int, current: AudioFormatView) -> AudioFormatView {
    if be32(data, at) >= 52 {
        let entry = at + 16;
        AudioFormatView {
            codec: utf8_lossy(data.subrange(entry + 4, entry + 8)),
            channels: be16(data, entry + 24) as u32,
            bits_per_sample: be16(data, entry + 26) as u32,
            sample_rate: be16(data, entry + 32) as u32,
        }
    } else {
        current
    }
}

/// The format after the box at `at`, a child of `moov`, was looked at: that
/// of the box where it is a track that holds sound, `current` otherwise.
pub open spec fn format_after(data: Seq<u8>, at: int, current: AudioFormatView) -> AudioFormatView {
    if data.subrange(at + 4, at + 8) == name_bytes(TRAK) {
        match sound_description(data, at) {
            Some(stsd) => format_at(data, stsd, current),
            None => current,
        }
    } else {
        current
    }
}

/// The format after the boxes at `offsets` were looked at in order.
pub open spec fn format_over(data: Seq<u8>, offsets: Seq<int>, start: AudioFormatView) -> AudioFormatView
    decreases offsets.len(),
{
    if offsets.len() == 0 {
        start
    } else {
        format_after(data, offsets.last(), format_over(data, offsets.drop_last(), start))
    }
}

/// The format when the file says nothing: two channels, 44100 Hz, 16 bits,
/// codec `mp4a`.
pub open spec fn default_format() -> AudioFormatView {
    AudioFormatView { channels: 2, sample_rate: 44100, bits_per_sample: 16, codec: "mp4a"@ }
}

/// Reads the 16-bit integer at `at`.
fn read_be16(data: &[u8], at: usize) -> (result: u32)
    requires
        at + 2 <= data.len(),
    ensures
        result == be16(data@, at as int),
{
    data[at] as u32 * 0x100 + data[at + 1] as u32
}

/// Reads the timing of a `moov` box whose content is
/// `data[moov_start..moov_end]`, from its first `mvhd` box.
pub fn parse_mp4_timing(data: &[u8], moov_start: usize, moov_end: usize) -> (result: MP4Timing)
    ensures
        result == timing_in(data@, moov_start as int, held(data@, moov_end)),
{
    let found = find_atom(data, moov_start, moov_end, &name_of(MVHD));
    proof {
        lemma_found_is_first(data@, moov_start as int, held(data@, moov_end), MVHD, found);
    }
    match found {
        None => MP4Timing { duration: 0, timescale: 1000 },
        Some(mvhd) => {
            let start: usize = mvhd.data_offset;
            let len: usize = mvhd.data_size;
            if len >= 20 && data[start] == 0 {
                MP4Timing {
                    duration: read_be32(data, start + 16) as u64,
                    timescale: read_be32(data, start + 12),
                }
            } else if len >= 32 && data[start] == 1 {
                let high: u64 = read_be32(data, start + 24) as u64;
                let low: u64 = read_be32(data, start + 28) as u64;
                MP4Timing {
                    duration: high * 0x1_0000_0000 + low,
                    timescale: read_be32(data, start + 20),
                }
            } else {
                MP4Timing { duration: 0, timescale: 1000 }
            }
        },
    }
}

/// Tells whether the content of a media box declares sound.
fn declares_sound(data: &[u8], mdia: &Atom) -> (result: bool)
    requires
        describes(*mdia, data@, mdia.offset as int),
        mdia.size >= 8,
        mdia.offset + mdia.size <= data.len(),
    ensures
        result == has_sound_handler(
            data@,
            box_offsets(data@, mdia.offset + 8, mdia.offset + be32(data@, mdia.offset as int)),
        ),
{
    let end: usize = mdia.offset + mdia.size;
    let mut it = AtomIter::new(data, mdia.data_offset, end);
    let ghost all = it.remaining();
    let ghost k: int = 0;
    let hdlr = name_of(HDLR);
    loop
        invariant
            it.wf(),
            it.bytes() == data@,
            it.limit() == end,
            end <= data.len(),
            end == mdia.offset + be32(data@, mdia.offset as int),
            hdlr@ == name_bytes(HDLR),
            all == box_offsets(data@, mdia.offset + 8, end as int),
            0 <= k <= all.len(),
            it.remaining() == all.skip(k),
            forall|i: int| 0 <= i < k ==> !sound_handler(data@, #[trigger] all[i]),
        decreases all.len() - k,
    {
        match it.next() {
            None => {
                return false;
            },
            Some(a) => {
                proof {
                    assert(all.skip(k).skip(1) =~= all.skip(k + 1));
                    assert(all.skip(k)[0] == all[k]);
                }
                if same_name(&a.name, &hdlr) && a.data_size >= 12 && read_be32(
                    data,
                    a.data_offset + 8,
                ) == SOUN {
                    return true;
                }
                proof {
                    k = k + 1;
                }
            },
        }
    }
}

/// Finds the first box named `name` in the content of `parent`.
fn find_child(data: &[u8], parent: &Atom, name: u32) -> (result: Option<Atom>)
    requires
        describes(*parent, data@, parent.offset as int),
        parent.size >= 8,
        parent.offset + parent.size <= data.len(),
    ensures
        result is Some <==> child(data@, parent.offset as int, name) is Some,
        result matches Some(a) ==> child(data@, parent.offset as int, name) == Some(
            a.offset as int,
        ) && describes(a, data@, a.offset as int) && a.size >= 8 && a.offset + a.size
            <= data.len(),
{
    let end: usize = parent.offset + parent.size;
    let found = find_atom(data, parent.data_offset, end, &name_of(name));
    proof {
        lemma_found_is_first(data@, parent.offset + 8, end as int, name, found);
    }
    found
}

/// Finds the sample description box of a track that holds sound.
fn find_sound_description(data: &[u8], trak: &Atom) -> (result: Option<Atom>)
    requires
        describes(*trak, data@, trak.offset as int),
        trak.size >= 8,
        trak.offset + trak.size <= data.len(),
    ensures
        result is Some <==> sound_description(data@, trak.offset as int) is Some,
        result matches Some(a) ==> sound_description(data@, trak.offset as int) == Some(
            a.offset as int,
        ) && describes(a, data@, a.offset as int) && a.size >= 8 && a.offset + a.size
            <= data.len(),
{
    let mdia = match find_child(data, trak, MDIA) {
        Some(a) => a,
        None => {
            return None;
        },
    };
    if !declares_sound(data, &mdia) {
        return None;
    }
    let minf = match find_child(data, &mdia, MINF) {
        Some(a) => a,
        None => {
            return None;
        },
    };
    let stbl = match find_child(data, &minf, STBL) {
        Some(a) => a,
        None => {
            return None;
        },
    };
    find_child(data, &stbl, STSD)
}

/// Looks at one child of `moov` and gives the format after it.
fn look_at_track(data: &[u8], atom: &Atom, current: MP4AudioFormat) -> (result: MP4AudioFormat)
    requires
        describes(*atom, data@, atom.offset as int),
        atom.size >= 8,
        atom.offset + atom.size <= data.len(),
    ensures
        result@ == format_after(data@, atom.offset as int, current@),
{
    if !same_name(&atom.name, &name_of(TRAK)) {
        return current;
    }
    match find_sound_description(data, atom) {
        None => current,
        Some(stsd) => {
            if stsd.size >= 52 {
                let entry: usize = stsd.offset + 16;
                MP4AudioFormat {
                    codec: from_utf8_lossy(slice_subrange(data, entry + 4, entry + 8)),
                    channels: read_be16(data, entry + 24),
                    bits_per_sample: read_be16(data, entry + 26),
                    sample_rate: read_be16(data, entry + 32),
                }
            } else {
                current
            }
        },
    }
}

/// Reads the audio format of a `moov` box whose content is
/// `data[moov_start..moov_end]`: that of its last track that holds sound
/// and describes it, or the default.
pub fn parse_mp4_audio_format(data: &[u8], moov_start: usize, moov_end: usize) -> (result:
    MP4AudioFormat)
    ensures
        result@ == format_over(
            data@,
            box_offsets(data@, moov_start as int, held(data@, moov_end)),
            default_format(),
        ),
{
    let mut format = MP4AudioFormat {
        channels: 2,
        sample_rate: 44100,
        bits_per_sample: 16,
        codec: String::from_str("mp4a"),
    };
    let mut it = AtomIter::new(data, moov_start, moov_end);
    let ghost all = it.remaining();
    let ghost limit = held(data@, moov_end);
    let ghost k: int = 0;
    assert(all.take(0) =~= Seq::<int>::empty());
    loop
        invariant
            it.wf(),
            it.bytes() == data@,
            it.limit() == limit,
            limit == held(data@, moov_end),
            limit <= data.len(),
            all == box_offsets(data@, moov_start as int, limit),
            0 <= k <= all.len(),
            it.remaining() == all.skip(k),
            format@ == format_over(data@, all.take(k), default_format()),
        decreases all.len() - k,
    {
        match it.next() {
            None => {
                assert(all.take(k) =~= all);
                return format;
            },
            Some(atom) => {
                proof {
                    assert(all.skip(k).skip(1) =~= all.skip(k + 1));
                    assert(all.take(k + 1).drop_last() =~= all.take(k));
                    assert(all.take(k + 1).last() == all[k]);
                }
                format = look_at_track(data, &atom, format);
                proof {
                    k = k + 1;
                }
            },
        }
    }
}

/// Finds the `moov` box of a file: where its content starts and how long the
/// content is. A file without one cannot be read.
pub fn locate_moov(data: &[u8]) -> (result: Result<(usize, usize), TagError>)
    ensures
        match first_box(data@, 0, data@.len() as int, MOOV) {
            Some(at) => result == Ok::<(usize, usize), TagError>(
                ((at + 8) as usize, (be32(data@, at) - 8) as usize),
            ),
            None => result matches Err(TagError::MP4(reason)) && reason@ == "No moov atom"@,
        },
{
    let found = find_atom(data, 0, data.len(), &name_of(MOOV));
    proof {
        lemma_found_is_first(data@, 0, data@.len() as int, MOOV, found);
    }
    match found {
        Some(moov) => Ok((moov.data_offset, moov.data_size)),
        None => Err(TagError::MP4(String::from_str("No moov atom"))),
    }
}

} // verus!
