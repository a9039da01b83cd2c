//! Guessing from a file's name and first bytes whether it is an MP4 file.

use vstd::prelude::*;
use vstd::utf8::encode_utf8;
use crate::atom::{be32, read_be32};

verus! {

/// `ftyp`: the box that an MP4 file starts with.
pub const FTYP: u32 = 0x6674_7970;

/// The lower-case form of an ASCII letter; any other byte as it is.
pub open spec fn lower(b: u8) -> u8 {
    if 0x41 <= b <= 0x5a {
        (b + 0x20) as u8
    } else {
        b
    }
}

/// Where the extension of a path starts: after its last dot, or at its
/// start where it has no dot.
pub open spec fn extension_start(path: Seq<u8>) -> int
    decreases path.len(),
{
    if path.len() == 0 {
        0
    } else if path.last() == 0x2e {
        path.len() as int
    } else {
        extension_start(path.drop_last())
    }
}

/// True when the extension of the path is the three given letters, in
/// either case.
pub open spec fn has_extension(path: Seq<u8>, a: u8, b: u8, c: u8) -> bool {
    let at = extension_start(path);
    path.len() - at == 3 && lower(path[at]) == a && lower(path[at + 1]) == b && lower(
        path[at + 2],
    ) == c
}

/// True when the extension is one of `m4a`, `m4b`, `mp4` and `m4v`.
pub open spec fn mp4_extension(path: Seq<u8>) -> bool {
    has_extension(path, 0x6d, 0x34, 0x61) || has_extension(path, 0x6d, 0x34, 0x62)
        || has_extension(path, 0x6d, 0x70, 0x34) || has_extension(path, 0x6d, 0x34, 0x76)
}

/// True when the data begins with an `ftyp` box header.
pub open spec fn starts_with_ftyp(data: Seq<u8>) -> bool {
    data.len() >= 8 && be32(data, 4) == FTYP
}

/// How much speaks for an MP4 file: two for the extension, three for the
/// `ftyp` box.
pub open spec fn score_of(path: Seq<u8>, data: Seq<u8>) -> int {
    (if mp4_extension(path) { 2int } else { 0int }) + (if starts_with_ftyp(data) { 3int } else { 0int })
}

/// Writes an ASCII letter in lower case.
fn to_lower(b: u8) -> (result: u8)
    ensures
        result == lower(b),
{
    if 0x41 <= b && b <= 0x5a {
        b + 0x20
    } else {
        b
    }
}

/// Finds where the extension of a path starts.
fn find_extension(path: &[u8]) -> (result: usize)
    ensures
        result == extension_start(path@),
        result <= path@.len(),
{
    let mut n: usize = path.len();
    assert(path@.take(n as int) =~= path@);
    while n > 0
        invariant
            n <= path.len(),
            extension_start(path@) == extension_start(path@.take(n as int)),
        decreases n,
    {
        if path[n - 1] == 0x2e {
            return n;
        }
        assert(path@.take(n as int).drop_last() =~= path@.take(n - 1));
        n -= 1;
    }
    0
}

/// Says how much speaks for `data`, found under the name `path`, being an
/// MP4 file.
pub fn score(path: &str, data: &[u8]) -> (result: u32)
    ensures
        result == score_of(encode_utf8(path@), data@),
{
    let bytes = path.as_bytes();
    let at = find_extension(bytes);
    let mut total: u32 = 0;
    if bytes.len() - at == 3 {
        let a = to_lower(bytes[at]);
        let b = to_lower(bytes[at + 1]);
        let c = to_lower(bytes[at + 2]);
        if a == 0x6d && ((b == 0x34 && (c == 0x61 || c == 0x62 || c == 0x76)) || (b == 0x70 && c
            == 0x34)) {
            total += 2;
        }
    }
    if data.len() >= 8 && read_be32(data, 4) == FTYP {
        total += 3;
    }
    total
}

} // verus!
