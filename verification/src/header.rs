//! The ten-byte ID3v2 tag header, and the detection of how a v2.4 tag's frame
//! sizes were written.

use vstd::prelude::*;
use vstd::slice::slice_subrange;
use crate::bitpadded::{capacity, decoded, lemma_decoded_bound, BitPaddedInt};
use crate::error::TagError;
use crate::text::{decimal, decimal_u8};

verus! {

/// The flag bits of an ID3v2 header.
#[derive(Debug, Clone, Copy, Default)]
pub struct ID3Flags {
    pub unsynchronisation: bool,
    pub extended: bool,
    pub experimental: bool,
    pub footer: bool,
}

/// A parsed ID3v2 header.
#[derive(Debug, Clone, Copy)]
pub struct ID3Header {
    /// Major version and revision: `(4, 0)` for ID3v2.4.
    pub version: (u8, u8),
    pub flags: ID3Flags,
    /// Length of the tag body, without the header and without a footer.
    pub size: u32,
    /// Where the header starts in the file.
    pub offset: u64,
}

/// True when `data` begins with the three bytes `ID3` and holds a full header.
pub open spec fn has_magic(data: Seq<u8>) -> bool {
    data.len() >= 10 && data[0] == 0x49 && data[1] == 0x44 && data[2] == 0x33
}

/// True for the major versions that can be read: 2, 3 and 4.
pub open spec fn supported_major(major: u8) -> bool {
    2 <= major <= 4
}

/// The flags that a header's flag byte spells for the given major version.
/// The footer bit counts only in version 4.
pub open spec fn flags_of(flag_byte: u8, major: u8) -> ID3Flags {
    ID3Flags {
        unsynchronisation: flag_byte & 0x80 != 0,
        extended: flag_byte & 0x40 != 0,
        experimental: flag_byte & 0x20 != 0,
        footer: major == 4 && flag_byte & 0x10 != 0,
    }
}

/// The header that the first ten bytes of `data` spell.
pub open spec fn header_of(data: Seq<u8>, offset: u64) -> ID3Header {
    ID3Header {
        version: (data[3], data[4]),
        flags: flags_of(data[5], data[3]),
        size: decoded(data.subrange(6, 10), 7) as u32,
        offset,
    }
}

/// The text that names a version, such as `ID3v2.5.0`.
pub open spec fn version_label(major: u8, revision: u8) -> Seq<char> {
    "ID3v2."@ + decimal(major as nat) + "."@ + decimal(revision as nat)
}

/// What parsing a header yields, failures included.
pub open spec fn parse_outcome(data: Seq<u8>, offset: u64, result: Result<ID3Header, TagError>) -> bool {
    if !has_magic(data) {
        result == Err::<ID3Header, TagError>(TagError::ID3NoHeader)
    } else if !supported_major(data[3]) {
        match result {
            Err(TagError::ID3UnsupportedVersion(s)) => s@ == version_label(data[3], data[4]),
            _ => false,
        }
    } else {
        result == Ok::<ID3Header, TagError>(header_of(data, offset))
    }
}

impl ID3Header {
    /// Parses the header at the start of `data`, which was found at `offset`
    /// in its file.
    ///
    /// Fewer than ten bytes, or a wrong magic, is `ID3NoHeader`. A major
    /// version outside 2 to 4 is `ID3UnsupportedVersion`. Nothing else is
    /// checked: the size is not held against the length of the file.
    pub fn parse(data: &[u8], offset: u64) -> (result: Result<ID3Header, TagError>)
        ensures
            parse_outcome(data@, offset, result),
            !has_magic(data@) ==> result matches Err(TagError::ID3NoHeader),
            has_magic(data@) && !supported_major(data@[3]) ==> result matches Err(
                TagError::ID3UnsupportedVersion(_),
            ),
            result matches Ok(h) ==> h.size < 0x1000_0000,
    {
        if data.len() < 10 {
            return Err(TagError::ID3NoHeader);
        }
        if data[0] != 0x49 || data[1] != 0x44 || data[2] != 0x33 {
            return Err(TagError::ID3NoHeader);
        }
        let major: u8 = data[3];
        let revision: u8 = data[4];
        if major < 2 || major > 4 {
            let mut label = String::from_str("ID3v2.");
            label.append(decimal_u8(major).as_str());
            label.append(".");
            label.append(decimal_u8(revision).as_str());
            return Err(TagError::ID3UnsupportedVersion(label));
        }
        let flag_byte: u8 = data[5];
        let flags = ID3Flags {
            unsynchronisation: flag_byte & 0x80 != 0,
            extended: flag_byte & 0x40 != 0,
            experimental: flag_byte & 0x20 != 0,
            footer: major == 4 && flag_byte & 0x10 != 0,
        };
        let size: u32 = BitPaddedInt::syncsafe(slice_subrange(data, 6, 10));
        proof {
            lemma_decoded_bound(data@.subrange(6, 10), 7);
            reveal_with_fuel(capacity, 5);
        }
        Ok(ID3Header { version: (major, revision), flags, size, offset })
    }

    /// The length of the whole tag: body, ten-byte header, and the ten-byte
    /// footer where there is one.
    pub fn full_size(&self) -> (result: u32)
        requires
            self.size + 10 + if self.flags.footer { 10int } else { 0int } <= u32::MAX,
        ensures
            result as int == self.size + 10 + if self.flags.footer { 10int } else { 0int },
    {
        let mut s: u32 = self.size + 10;
        if self.flags.footer {
            s += 10;
        }
        s
    }
}

/// Looks for an ID3v2 tag at the start of the file: the offset 0 when `data`
/// begins with a header's magic, and nothing otherwise.
pub fn find_id3v2_header(data: &[u8]) -> (result: Option<u64>)
    ensures
        result == if has_magic(data@) { Some(0u64) } else { None },
{
    if data.len() >= 10 && data[0] == 0x49 && data[1] == 0x44 && data[2] == 0x33 {
        Some(0)
    } else {
        None
    }
}

/// True for the bytes a frame id may hold: upper-case letters and digits.
pub open spec fn id_byte(b: u8) -> bool {
    (0x41 <= b <= 0x5a) || (0x30 <= b <= 0x39)
}

/// True when the four bytes at `at` could be a frame id.
pub open spec fn plausible_id(data: Seq<u8>, at: int) -> bool {
    id_byte(data[at]) && id_byte(data[at + 1]) && id_byte(data[at + 2]) && id_byte(data[at + 3])
}

/// True when the `n` bytes from `at` on are all zero.
pub open spec fn zero_run(data: Seq<u8>, at: int, n: int) -> bool {
    forall|i: int| at <= i < at + n ==> #[trigger] data[i] == 0
}

/// What one walk over the frame headers found.
pub struct Scan {
    /// How many frames had a plausible id.
    pub plausible: nat,
    /// How far the walk ended past the end of the frames; zero or less when
    /// it stopped inside.
    pub overshoot: int,
}

/// The walk over the frame headers of `data[..end]` that starts at `at` and
/// reads each size with `bits` bits per byte.
///
/// A header takes ten bytes: a four-byte id, a four-byte size, two bytes of
/// flags. The walk ends where fewer than ten bytes are left, or at ten zero
/// bytes, which are padding.
pub open spec fn scan(data: Seq<u8>, end: int, bits: u8, at: int) -> Scan
    decreases end - at,
{
    if at < 0 || at + 10 > end {
        Scan { plausible: 0, overshoot: at - end }
    } else if zero_run(data, at, 10) {
        Scan { plausible: 0, overshoot: -((end - at) % 10) }
    } else {
        let size = decoded(data.subrange(at + 4, at + 8), bits);
        let next = at + 10 + size;
        let rest = if next > end {
            Scan { plausible: 0, overshoot: next - end }
        } else {
            scan(data, end, bits, next)
        };
        Scan {
            plausible: rest.plausible + if plausible_id(data, at) { 1nat } else { 0nat },
            overshoot: rest.overshoot,
        }
    }
}

/// The width that the two walks argue for.
///
/// Eight bits win when that walk met more plausible frames, or as many while
/// the seven-bit walk ran past the end by a byte or more and the eight-bit
/// walk by one byte at most. Otherwise the answer is seven.
pub open spec fn chosen_width(seven: Scan, eight: Scan) -> u8 {
    if eight.plausible > seven.plausible || (eight.plausible == seven.plausible
        && seven.overshoot >= 1 && eight.overshoot <= 1) {
        8
    } else {
        7
    }
}

/// The end of the frames, held to the length of the data.
pub open spec fn frames_limit(data: Seq<u8>, frames_end: usize) -> int {
    if frames_end <= data.len() {
        frames_end as int
    } else {
        data.len() as int
    }
}

/// The width, 7 or 8, with which the frame sizes of `data` were written.
pub open spec fn bpi_of(data: Seq<u8>, frames_end: usize) -> u8 {
    let end = frames_limit(data, frames_end);
    chosen_width(scan(data, end, 7, 0), scan(data, end, 8, 0))
}

/// True when `n` frames with plausible ids lie end to end from `at` on and
/// end exactly at `end`, their sizes read at `bits` bits per byte.
pub open spec fn tiled(data: Seq<u8>, end: int, bits: u8, at: int, n: nat) -> bool
    decreases n,
{
    if n == 0 {
        at == end
    } else {
        &&& 0 <= at
        &&& at + 10 <= end
        &&& end <= data.len()
        &&& plausible_id(data, at)
        &&& tiled(
            data,
            end,
            bits,
            at + 10 + decoded(data.subrange(at + 4, at + 8), bits),
            (n - 1) as nat,
        )
    }
}

/// A walk at the width at which the frames were written counts every frame
/// and ends exactly at the end.
pub proof fn lemma_tiled_scan(data: Seq<u8>, end: int, bits: u8, at: int, n: nat)
    requires
        tiled(data, end, bits, at, n),
    ensures
        scan(data, end, bits, at) == (Scan { plausible: n, overshoot: 0 }),
    decreases n,
{
    if n > 0 {
        let next = at + 10 + decoded(data.subrange(at + 4, at + 8), bits);
        lemma_tiled_scan(data, end, bits, next, (n - 1) as nat);
        assert(!zero_run(data, at, 10)) by {
            assert(id_byte(data[at]));
        }
        assert(tiled(data, end, bits, next, (n - 1) as nat));
        if n == 1 {
            assert(next == end);
        } else {
            assert(next + 10 <= end);
        }
    }
}

/// A tag of `n` plausible frames with syncsafe sizes, which fill it exactly,
/// is found to be syncsafe unless the walk at eight bits meets more than
/// `n` plausible frames.
pub proof fn lemma_syncsafe_tag(data: Seq<u8>, frames_end: usize, n: nat)
    requires
        tiled(data, frames_limit(data, frames_end), 7, 0, n),
    ensures
        bpi_of(data, frames_end) == 7 <==> scan(
            data,
            frames_limit(data, frames_end),
            8,
            0,
        ).plausible <= n,
{
    lemma_tiled_scan(data, frames_limit(data, frames_end), 7, 0, n);
}

/// A tag of `n` plausible frames with plain sizes, which fill it exactly, is
/// found to be plain where the walk at seven bits meets fewer than `n`
/// plausible frames, or as many and runs past the end, and only there.
pub proof fn lemma_plain_tag(data: Seq<u8>, frames_end: usize, n: nat)
    requires
        tiled(data, frames_limit(data, frames_end), 8, 0, n),
    ensures
        bpi_of(data, frames_end) == 8 <==> {
            let seven = scan(data, frames_limit(data, frames_end), 7, 0);
            seven.plausible < n || (seven.plausible == n && seven.overshoot >= 1)
        },
{
    lemma_tiled_scan(data, frames_limit(data, frames_end), 8, 0, n);
}

/// Tells whether the ten bytes at `at` are all zero.
fn is_padding(data: &[u8], at: usize) -> (result: bool)
    requires
        at + 10 <= data.len(),
    ensures
        result == zero_run(data@, at as int, 10),
{
    let mut i: usize = 0;
    while i < 10
        invariant
            i <= 10,
            at + 10 <= data.len(),
            zero_run(data@, at as int, i as int),
        decreases 10 - i,
    {
        if data[at + i] != 0 {
            return false;
        }
        i += 1;
    }
    true
}

/// Tells whether a byte may stand in a frame id.
pub fn is_id_byte(b: u8) -> (result: bool)
    ensures
        result == id_byte(b),
{
    (0x41 <= b && b <= 0x5a) || (0x30 <= b && b <= 0x39)
}

/// Walks the frame headers of `data[..end]` from the start, reading sizes
/// with `bits` bits per byte. Returns the number of plausible frames and the
/// overshoot.
pub fn scan_frames(data: &[u8], end: usize, bits: u8) -> (result: (usize, i64))
    requires
        end <= data.len(),
        bits == 7 || bits == 8,
    ensures
        result.0 == scan(data@, end as int, bits, 0).plausible,
        result.1 == scan(data@, end as int, bits, 0).overshoot,
{
    let ghost total = scan(data@, end as int, bits, 0);
    let mut at: usize = 0;
    let mut count: usize = 0;
    loop
        invariant
            at <= end <= data.len(),
            bits == 7 || bits == 8,
            count * 10 <= at,
            total == scan(data@, end as int, bits, 0),
            total.plausible == count + scan(data@, end as int, bits, at as int).plausible,
            total.overshoot == scan(data@, end as int, bits, at as int).overshoot,
        decreases end - at,
    {
        let left: usize = end - at;
        if left < 10 {
            return (count, -(left as i64));
        }
        if is_padding(data, at) {
            return (count, -((left % 10) as i64));
        }
        let size: u32 = BitPaddedInt::decode(slice_subrange(data, at + 4, at + 8), bits);
        let plausible = is_id_byte(data[at]) && is_id_byte(data[at + 1]) && is_id_byte(
            data[at + 2],
        ) && is_id_byte(data[at + 3]);
        if plausible {
            count += 1;
        }
        let room: usize = left - 10;
        if size as u64 > room as u64 {
            return (count, (size as u64 - room as u64) as i64);
        }
        at = at + 10 + size as usize;
    }
}

/// Finds out how the frame sizes of an ID3v2.4 tag were written: 7 for
/// syncsafe sizes, 8 for plain big-endian integers.
///
/// `data` holds the frames and `frames_end` is where they end; a `frames_end`
/// past the data counts as the end of the data. There is no failure: the
/// answer is always one of the two widths.
pub fn determine_bpi(data: &[u8], frames_end: usize) -> (result: u8)
    ensures
        result == bpi_of(data@, frames_end),
        result == 7 || result == 8,
{
    let end: usize = if frames_end <= data.len() {
        frames_end
    } else {
        data.len()
    };
    let (asbpi, bpioff) = scan_frames(data, end, 7);
    let (asint, intoff) = scan_frames(data, end, 8);
    if asint > asbpi || (asint == asbpi && bpioff >= 1 && intoff <= 1) {
        8
    } else {
        7
    }
}

} // verus!
