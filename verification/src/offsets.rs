//! Repairing chunk offset tables after the `moov` box changed its size.
//!
//! The `stco` and `co64` boxes hold absolute file offsets of media data. When
//! the boxes before the media data grow or shrink, every entry moves by the
//! same amount.

use vstd::prelude::*;
use crate::atom::{be32, box_at, read_be32, CO64, STCO};
use crate::bytes::be32_bytes;

verus! {

/// `trak`: one track.
pub const TRAK: u32 = 0x7472_616b;

/// `mdia`: the media of a track.
pub const MDIA: u32 = 0x6d64_6961;

/// `minf`: media information.
pub const MINF: u32 = 0x6d69_6e66;

/// `stbl`: the sample table.
pub const STBL: u32 = 0x7374_626c;

/// `edts`: the edit list container.
pub const EDTS: u32 = 0x6564_7473;

/// `dinf`: data information.
pub const DINF: u32 = 0x6469_6e66;

/// `traf`: a track fragment.
pub const TRAF: u32 = 0x7472_6166;

/// `moof`: a movie fragment.
pub const MOOF: u32 = 0x6d6f_6f66;

/// What the repair does with a box of a given name.
pub enum BoxKind {
    /// A table of 32-bit offsets: every entry is shifted.
    Offsets32,
    /// A table of 64-bit offsets: every entry is shifted.
    Offsets64,
    /// A box that holds boxes: the repair goes on inside.
    Container,
    /// Any other box: left as it is.
    Inert,
}

/// The one table of box names that the repair knows.
pub open spec fn kind_of(code: int) -> BoxKind {
    if code == STCO {
        BoxKind::Offsets32
    } else if code == CO64 {
        BoxKind::Offsets64
    } else if code == TRAK || code == MDIA || code == MINF || code == STBL || code == EDTS || code
        == DINF || code == TRAF || code == MOOF {
        BoxKind::Container
    } else {
        BoxKind::Inert
    }
}

/// The kind of the box with the given name.
pub fn box_kind(code: u32) -> (result: BoxKind)
    ensures
        result == kind_of(code as int),
{
    if code == STCO {
        BoxKind::Offsets32
    } else if code == CO64 {
        BoxKind::Offsets64
    } else if code == TRAK || code == MDIA || code == MINF || code == STBL || code == EDTS || code
        == DINF || code == TRAF || code == MOOF {
        BoxKind::Container
    } else {
        BoxKind::Inert
    }
}

/// The 64-bit integer written at `at`, most significant byte first.
pub open spec fn be64(data: Seq<u8>, at: int) -> int {
    be32(data, at) * 0x1_0000_0000 + be32(data, at + 4)
}

/// The eight bytes of a 64-bit integer, most significant first.
pub open spec fn be64_bytes(x: int) -> Seq<u8> {
    be32_bytes(x / 0x1_0000_0000) + be32_bytes(x % 0x1_0000_0000)
}

/// A 32-bit offset moved by `delta`: the sum, cut to 32 bits.
pub open spec fn moved32(offset: int, delta: int) -> int {
    (offset + delta) % 0x1_0000_0000
}

/// A 64-bit offset moved by `delta`: the sum, cut to 64 bits.
pub open spec fn moved64(offset: int, delta: int) -> int {
    (offset + delta) % 0x1_0000_0000_0000_0000
}

/// `buf` with the bytes from `at` on replaced by `bytes`.
pub open spec fn patched(buf: Seq<u8>, at: int, bytes: Seq<u8>) -> Seq<u8> {
    buf.subrange(0, at) + bytes + buf.subrange(at + bytes.len(), buf.len() as int)
}

/// `buf` with the entry at `at` moved by `delta`; an entry has 4 or 8 bytes.
pub open spec fn moved_entry(buf: Seq<u8>, at: int, width: int, delta: int) -> Seq<u8> {
    if width == 4 {
        patched(buf, at, be32_bytes(moved32(be32(buf, at), delta)))
    } else {
        patched(buf, at, be64_bytes(moved64(be64(buf, at), delta)))
    }
}

/// `buf` with up to `count` entries from `at` on moved by `delta`, as far as
/// whole entries lie before `end`.
pub open spec fn moved_entries(
    buf: Seq<u8>,
    at: int,
    count: nat,
    end: int,
    width: int,
    delta: int,
) -> Seq<u8>
    decreases count,
{
    if count == 0 || at + width > end {
        buf
    } else {
        moved_entries(
            moved_entry(buf, at, width, delta),
            at + width,
            (count - 1) as nat,
            end,
            width,
            delta,
        )
    }
}

/// `buf` with the entries of the offset table box at `at` moved by `delta`.
/// The content of such a box is four bytes of version and flags, the number
/// of entries in four bytes, and the entries. A box too short for the first
/// eight bytes is left alone.
pub open spec fn moved_table(buf: Seq<u8>, at: int, width: int, delta: int) -> Seq<u8> {
    if be32(buf, at) >= 16 {
        moved_entries(
            buf,
            at + 16,
            be32(buf, at + 12) as nat,
            at + be32(buf, at),
            width,
            delta,
        )
    } else {
        buf
    }
}

/// `buf` with every chunk offset in the boxes of `buf[start..end]` moved by
/// `delta`. Offset tables are searched for in the boxes of the range and
/// inside the container boxes among them, at any depth; all other bytes stay.
pub open spec fn moved_boxes(buf: Seq<u8>, start: int, end: int, delta: int) -> Seq<u8>
    decreases end - start,
{
    if box_at(buf, start, end) {
        let size = be32(buf, start);
        let inner = match kind_of(be32(buf, start + 4)) {
            BoxKind::Offsets32 => moved_table(buf, start, 4, delta),
            BoxKind::Offsets64 => moved_table(buf, start, 8, delta),
            BoxKind::Container => moved_boxes(buf, start + 8, start + size, delta),
            BoxKind::Inert => buf,
        };
        moved_boxes(inner, start + size, end, delta)
    } else {
        buf
    }
}

/// The entry of `width` bytes at `at`; an entry has 4 or 8 bytes.
pub open spec fn entry_at(buf: Seq<u8>, at: int, width: int) -> int {
    if width == 4 {
        be32(buf, at)
    } else {
        be64(buf, at)
    }
}

/// An entry of `width` bytes moved by `delta`.
pub open spec fn moved(offset: int, width: int, delta: int) -> int {
    if width == 4 {
        moved32(offset, delta)
    } else {
        moved64(offset, delta)
    }
}

/// How many of `count` entries from `at` on lie whole before `end`.
pub open spec fn whole_entries(at: int, count: nat, end: int, width: int) -> nat
    decreases count,
{
    if count == 0 || at + width > end {
        0
    } else {
        1 + whole_entries(at + width, (count - 1) as nat, end, width)
    }
}

/// Four bytes written for a 32-bit integer spell that integer.
pub proof fn lemma_be32_of_bytes(buf: Seq<u8>, at: int, x: int)
    requires
        0 <= at,
        at + 4 <= buf.len(),
        0 <= x < 0x1_0000_0000,
    ensures
        be32(patched(buf, at, be32_bytes(x)), at) == x,
{
    let p = patched(buf, at, be32_bytes(x));
    let b = be32_bytes(x);
    assert(p[at] == b[0] && p[at + 1] == b[1] && p[at + 2] == b[2] && p[at + 3] == b[3]);
    let a3 = x / 0x100_0000;
    let a2 = (x / 0x1_0000) % 0x100;
    let a1 = (x / 0x100) % 0x100;
    let a0 = x % 0x100;
    assert(a3 < 0x100);
    assert(x == a3 * 0x100_0000 + a2 * 0x1_0000 + a1 * 0x100 + a0);
}

/// Moving one entry gives that entry its new value and leaves every other
/// byte as it is.
pub proof fn lemma_moved_entry(buf: Seq<u8>, at: int, width: int, delta: int)
    requires
        width == 4 || width == 8,
        0 <= at,
        at + width <= buf.len(),
    ensures
        moved_entry(buf, at, width, delta).len() == buf.len(),
        entry_at(moved_entry(buf, at, width, delta), at, width) == moved(
            entry_at(buf, at, width),
            width,
            delta,
        ),
        forall|j: int|
            0 <= j < buf.len() && !(at <= j < at + width) ==> #[trigger] moved_entry(
                buf,
                at,
                width,
                delta,
            )[j] == buf[j],
{
    if width == 4 {
        lemma_be32_of_bytes(buf, at, moved32(be32(buf, at), delta));
    } else {
        let v = moved64(be64(buf, at), delta);
        let high = v / 0x1_0000_0000;
        let low = v % 0x1_0000_0000;
        let r = patched(buf, at, be64_bytes(v));
        let first = patched(buf, at, be32_bytes(high));
        let both = patched(first, at + 4, be32_bytes(low));
        assert(r =~= both);
        lemma_be32_of_bytes(first, at + 4, low);
        lemma_be32_of_bytes(buf, at, high);
        assert(be32(both, at) == be32(first, at));
    }
}

/// After the entries of a table were moved, each entry that lies whole in
/// the table and is counted holds its old value moved by `delta`; the bytes
/// before the entries and the length stay as they were.
pub proof fn lemma_moved_entries(
    buf: Seq<u8>,
    at: int,
    count: nat,
    end: int,
    width: int,
    delta: int,
    i: nat,
)
    requires
        width == 4 || width == 8,
        0 <= at,
        end <= buf.len(),
    ensures
        moved_entries(buf, at, count, end, width, delta).len() == buf.len(),
        forall|j: int|
            0 <= j < at ==> #[trigger] moved_entries(buf, at, count, end, width, delta)[j]
                == buf[j],
        i < whole_entries(at, count, end, width) ==> entry_at(
            moved_entries(buf, at, count, end, width, delta),
            at + i * width,
            width,
        ) == moved(entry_at(buf, at + i * width, width), width, delta),
    decreases count,
{
    if !(count == 0 || at + width > end) {
        let step = moved_entry(buf, at, width, delta);
        lemma_moved_entry(buf, at, width, delta);
        let result = moved_entries(step, at + width, (count - 1) as nat, end, width, delta);
        if i == 0 {
            lemma_moved_entries(step, at + width, (count - 1) as nat, end, width, delta, 0);
            assert(entry_at(result, at, width) == entry_at(step, at, width));
        } else {
            lemma_moved_entries(
                step,
                at + width,
                (count - 1) as nat,
                end,
                width,
                delta,
                (i - 1) as nat,
            );
            assert(at + width + (i - 1) * width == at + i * width) by (nonlinear_arith);
            if i < whole_entries(at, count, end, width) {
                lemma_whole_entries_fit(at + width, (count - 1) as nat, end, width, (i - 1) as nat);
                assert(entry_at(step, at + i * width, width) == entry_at(
                    buf,
                    at + i * width,
                    width,
                ));
            }
        }
    }
}

/// A counted entry that lies whole in the table lies after the table's
/// start and before its end.
pub proof fn lemma_whole_entries_fit(at: int, count: nat, end: int, width: int, i: nat)
    requires
        width == 4 || width == 8,
        i < whole_entries(at, count, end, width),
    ensures
        at <= at + i * width,
        at + i * width + width <= end,
    decreases count,
{
    if i > 0 {
        lemma_whole_entries_fit(at + width, (count - 1) as nat, end, width, (i - 1) as nat);
        assert(at + width + (i - 1) * width == at + i * width) by (nonlinear_arith);
    }
}

/// Overwrites the four bytes at `at` with `x`, most significant byte first.
fn put_be32(buf: &mut Vec<u8>, at: usize, x: u32)
    requires
        at + 4 <= old(buf).len(),
    ensures
        final(buf)@ == patched(old(buf)@, at as int, be32_bytes(x as int)),
        final(buf)@.len() == old(buf)@.len(),
{
    let ghost before = buf@;
    buf.set(at, (x / 0x100_0000) as u8);
    buf.set(at + 1, ((x / 0x1_0000) % 0x100) as u8);
    buf.set(at + 2, ((x / 0x100) % 0x100) as u8);
    buf.set(at + 3, (x % 0x100) as u8);
    assert(buf@ =~= patched(before, at as int, be32_bytes(x as int)));
}

/// Moves the entry of `width` bytes at `at` by `delta`.
fn move_entry(buf: &mut Vec<u8>, at: usize, width: usize, delta: i128)
    requires
        width == 4 || width == 8,
        at + width <= old(buf).len(),
        -0x1_0000_0000_0000_0000 < delta < 0x1_0000_0000_0000_0000,
    ensures
        final(buf)@ == moved_entry(old(buf)@, at as int, width as int, delta as int),
        final(buf)@.len() == old(buf)@.len(),
{
    let ghost before = buf@;
    if width == 4 {
        let offset: u32 = read_be32(buf.as_slice(), at);
        let sum: i128 = offset as i128 + delta + 0x1_0000_0000_0000_0000;
        let moved: u32 = (sum % 0x1_0000_0000) as u32;
        assert(moved == moved32(offset as int, delta as int));
        put_be32(buf, at, moved);
    } else {
        let high: u32 = read_be32(buf.as_slice(), at);
        let low: u32 = read_be32(buf.as_slice(), at + 4);
        let offset: i128 = high as i128 * 0x1_0000_0000 + low as i128;
        let sum: i128 = offset + delta + 0x1_0000_0000_0000_0000;
        let moved: i128 = sum % 0x1_0000_0000_0000_0000;
        assert(moved == moved64(offset as int, delta as int));
        let new_high: u32 = (moved / 0x1_0000_0000) as u32;
        let new_low: u32 = (moved % 0x1_0000_0000) as u32;
        put_be32(buf, at, new_high);
        put_be32(buf, at + 4, new_low);
        assert(buf@ =~= patched(before, at as int, be64_bytes(moved as int)));
    }
}

/// Moves the entries of the offset table box at `at`.
fn move_table(buf: &mut Vec<u8>, at: usize, size: usize, width: usize, delta: i128)
    requires
        width == 4 || width == 8,
        size >= 8,
        at + size <= old(buf).len(),
        size == be32(old(buf)@, at as int),
        -0x1_0000_0000_0000_0000 < delta < 0x1_0000_0000_0000_0000,
    ensures
        final(buf)@ == moved_table(old(buf)@, at as int, width as int, delta as int),
        final(buf)@.len() == old(buf)@.len(),
{
    if size < 16 {
        return ;
    }
    let count: usize = read_be32(buf.as_slice(), at + 12) as usize;
    let end: usize = at + size;
    let mut off: usize = at + 16;
    let mut left: usize = count;
    let ghost goal = moved_table(buf@, at as int, width as int, delta as int);
    loop
        invariant
            width == 4 || width == 8,
            -0x1_0000_0000_0000_0000 < delta < 0x1_0000_0000_0000_0000,
            off <= end <= buf.len(),
            buf@.len() == old(buf)@.len(),
            goal == moved_table(old(buf)@, at as int, width as int, delta as int),
            goal == moved_entries(
                buf@,
                off as int,
                left as nat,
                end as int,
                width as int,
                delta as int,
            ),
        decreases left,
    {
        if left == 0 || end - off < width {
            return ;
        }
        move_entry(buf, off, width, delta);
        off += width;
        left -= 1;
    }
}

/// Moves every chunk offset in the boxes of `buf[start..end]` by `delta`.
pub fn move_chunk_offsets(buf: &mut Vec<u8>, start: usize, end: usize, delta: i128)
    requires
        end <= old(buf).len(),
        -0x1_0000_0000_0000_0000 < delta < 0x1_0000_0000_0000_0000,
    ensures
        final(buf)@ == moved_boxes(old(buf)@, start as int, end as int, delta as int),
        final(buf)@.len() == old(buf)@.len(),
    decreases end - start,
{
    let mut pos: usize = start;
    let ghost goal = moved_boxes(buf@, start as int, end as int, delta as int);
    loop
        invariant
            start <= pos,
            end <= buf.len(),
            -0x1_0000_0000_0000_0000 < delta < 0x1_0000_0000_0000_0000,
            buf@.len() == old(buf)@.len(),
            goal == moved_boxes(old(buf)@, start as int, end as int, delta as int),
            goal == moved_boxes(buf@, pos as int, end as int, delta as int),
        decreases end - pos,
    {
        if end < 8 || pos > end - 8 {
            return ;
        }
        let size: usize = read_be32(buf.as_slice(), pos) as usize;
        if size < 8 || size > end - pos {
            return ;
        }
        let code: u32 = read_be32(buf.as_slice(), pos + 4);
        match box_kind(code) {
            BoxKind::Offsets32 => {
                move_table(buf, pos, size, 4, delta);
            },
            BoxKind::Offsets64 => {
                move_table(buf, pos, size, 8, delta);
            },
            BoxKind::Container => {
                move_chunk_offsets(buf, pos + 8, pos + size, delta);
            },
            BoxKind::Inert => {},
        }
        pos += size;
    }
}

/// Moves the chunk offsets in `buf[start..end]` by `delta`: each entry of
/// each `stco` box in 32 bits, each entry of each `co64` box in 64 bits.
pub fn fix_chunk_offsets_in(buf: &mut Vec<u8>, start: usize, end: usize, delta: i64)
    requires
        end <= old(buf).len(),
    ensures
        final(buf)@ == moved_boxes(old(buf)@, start as int, end as int, delta as int),
        final(buf)@.len() == old(buf)@.len(),
{
    move_chunk_offsets(buf, start, end, delta as i128);
}

/// Moves the chunk offsets of a whole `moov` box by `delta`. The buffer
/// starts with the eight bytes of the box header; a shorter one is left alone.
pub fn fix_chunk_offsets(moov_buf: &mut Vec<u8>, delta: i64)
    ensures
        final(moov_buf)@ == moved_boxes(
            old(moov_buf)@,
            8,
            old(moov_buf)@.len() as int,
            delta as int,
        ),
        final(moov_buf)@.len() == old(moov_buf)@.len(),
{
    if moov_buf.len() < 8 {
        return ;
    }
    let end: usize = moov_buf.len();
    fix_chunk_offsets_in(moov_buf, 8, end, delta);
}

} // verus!
