//! Walking the boxes ("atoms") of an MP4 file.
//!
//! A box starts with its total size in four bytes, most significant first,
//! then its four-byte name; its content follows. Boxes lie end to end, and a
//! box's content may again be a run of boxes.

use vstd::prelude::*;
use crate::bytes::be32_bytes;

verus! {

/// The header of one box.
#[derive(Debug, Clone, Copy)]
pub struct Atom {
    /// The four bytes of the name.
    pub name: [u8; 4],
    /// Where the box starts in the file.
    pub offset: usize,
    /// The length of the header: always 8.
    pub header_size: u8,
    /// Where the content starts.
    pub data_offset: usize,
    /// The length of the content.
    pub data_size: usize,
    /// The length of the whole box, header included.
    pub size: usize,
}

/// The 32-bit integer written at `at`, most significant byte first.
pub open spec fn be32(data: Seq<u8>, at: int) -> int {
    data[at] * 0x100_0000 + data[at + 1] * 0x1_0000 + data[at + 2] * 0x100 + data[at + 3]
}

/// The four bytes of a name as one number, first byte most significant.
pub open spec fn name_code(name: Seq<u8>) -> int {
    be32(name, 0)
}

/// The four bytes of the name with the given number.
pub open spec fn name_bytes(code: u32) -> Seq<u8> {
    be32_bytes(code as int)
}

/// `moov`: the box that holds a file's structure.
pub const MOOV: u32 = 0x6d6f_6f76;

/// `udta`: user data, inside `moov`.
pub const UDTA: u32 = 0x7564_7461;

/// `meta`: metadata, inside `udta`.
pub const META: u32 = 0x6d65_7461;

/// `ilst`: the list of tag items, inside `meta`.
pub const ILST: u32 = 0x696c_7374;

/// `hdlr`: the handler declaration of a `meta` box.
pub const HDLR: u32 = 0x6864_6c72;

/// `data`: one value of a tag item.
pub const DATA: u32 = 0x6461_7461;

/// `mean`: the namespace of a free-form item.
pub const MEAN: u32 = 0x6d65_616e;

/// `name`: the name of a free-form item.
pub const NAME: u32 = 0x6e61_6d65;

/// `----`: a free-form item.
pub const FREEFORM: u32 = 0x2d2d_2d2d;

/// `mdat`: the media data.
pub const MDAT: u32 = 0x6d64_6174;

/// `stco`: a table of 32-bit chunk offsets.
pub const STCO: u32 = 0x7374_636f;

/// `co64`: a table of 64-bit chunk offsets.
pub const CO64: u32 = 0x636f_3634;

/// True when a complete box starts at `at` and ends at or before `end`.
pub open spec fn box_at(data: Seq<u8>, at: int, end: int) -> bool {
    &&& 0 <= at
    &&& at + 8 <= end
    &&& end <= data.len()
    &&& be32(data, at) >= 8
    &&& at + be32(data, at) <= end
}

/// True when `a` is the header of the box that starts at `at`.
pub open spec fn describes(a: Atom, data: Seq<u8>, at: int) -> bool {
    &&& a.offset == at
    &&& a.size == be32(data, at)
    &&& a.header_size == 8
    &&& a.data_offset == at + 8
    &&& a.data_size == a.size - 8
    &&& a.name@ == data.subrange(at + 4, at + 8)
}

/// The offsets of the boxes that lie end to end from `at` on, up to `end`.
///
/// The run stops, quietly, where fewer than eight bytes are left, where a
/// size is below eight, or where a box would reach past `end`.
pub open spec fn box_offsets(data: Seq<u8>, at: int, end: int) -> Seq<int>
    decreases end - at,
{
    if box_at(data, at, end) {
        seq![at] + box_offsets(data, at + be32(data, at), end)
    } else {
        Seq::empty()
    }
}

/// Where the run of boxes from `at` stops.
pub open spec fn run_end(data: Seq<u8>, at: int, end: int) -> int
    decreases end - at,
{
    if box_at(data, at, end) {
        run_end(data, at + be32(data, at), end)
    } else {
        at
    }
}

/// The position of the first of `offsets` whose box has the given name, or the
/// length of `offsets` when none has.
pub open spec fn first_named(data: Seq<u8>, offsets: Seq<int>, name: Seq<u8>) -> int
    decreases offsets.len(),
{
    if offsets.len() == 0 {
        0
    } else if data.subrange(offsets[0] + 4, offsets[0] + 8) == name {
        0
    } else {
        1 + first_named(data, offsets.skip(1), name)
    }
}

/// The end of a range held to the length of the data.
pub open spec fn held(data: Seq<u8>, end: usize) -> int {
    if end <= data.len() {
        end as int
    } else {
        data.len() as int
    }
}

/// A range too short for a box header holds no box: a buffer cut off inside
/// a header yields nothing, and no failure.
pub proof fn lemma_short_range_is_empty(data: Seq<u8>, at: int, end: int)
    requires
        end - at < 8,
    ensures
        box_offsets(data, at, end).len() == 0,
{
}

/// Fewer than eight bytes after the last complete box change nothing: the
/// boxes found are those found without the trailing bytes.
pub proof fn lemma_trailing_bytes_ignored(data: Seq<u8>, at: int, end: int, longer: int)
    requires
        run_end(data, at, end) == end,
        at <= end <= longer < end + 8,
        longer <= data.len(),
    ensures
        box_offsets(data, at, longer) == box_offsets(data, at, end),
    decreases end - at,
{
    if box_at(data, at, end) {
        lemma_trailing_bytes_ignored(data, at + be32(data, at), end, longer);
    } else {
        assert(at == end);
    }
}

/// Reads the 32-bit integer at `at`, most significant byte first.
pub fn read_be32(data: &[u8], at: usize) -> (result: u32)
    requires
        at + 4 <= data.len(),
    ensures
        result == be32(data@, at as int),
{
    let a: u32 = data[at] as u32;
    let b: u32 = data[at + 1] as u32;
    let c: u32 = data[at + 2] as u32;
    let d: u32 = data[at + 3] as u32;
    a * 0x100_0000 + b * 0x1_0000 + c * 0x100 + d
}

/// Reads a name as one number, first byte most significant.
pub fn code_of(name: &[u8; 4]) -> (result: u32)
    ensures
        result == name_code(name@),
{
    let a: u32 = name[0] as u32;
    let b: u32 = name[1] as u32;
    let c: u32 = name[2] as u32;
    let d: u32 = name[3] as u32;
    a * 0x100_0000 + b * 0x1_0000 + c * 0x100 + d
}

/// The four bytes of a name given as one number.
pub fn name_of(code: u32) -> (result: [u8; 4])
    ensures
        result@ == name_bytes(code),
{
    let result: [u8; 4] = [
        (code / 0x100_0000) as u8,
        ((code / 0x1_0000) % 0x100) as u8,
        ((code / 0x100) % 0x100) as u8,
        (code % 0x100) as u8,
    ];
    assert(result@ =~= name_bytes(code));
    result
}

/// Tells whether two names are the same four bytes.
pub fn same_name(a: &[u8; 4], b: &[u8; 4]) -> (result: bool)
    ensures
        result == (a@ == b@),
{
    let result = a[0] == b[0] && a[1] == b[1] && a[2] == b[2] && a[3] == b[3];
    assert(result == (a@ =~= b@));
    result
}

/// A walk over the boxes of a byte range, one box per step.
pub struct AtomIter<'a> {
    data: &'a [u8],
    pos: usize,
    end: usize,
}

impl<'a> AtomIter<'a> {
    /// The bytes that the walk reads.
    pub closed spec fn bytes(&self) -> Seq<u8> {
        self.data@
    }

    /// Where the range ends.
    pub closed spec fn limit(&self) -> int {
        self.end as int
    }

    /// Where the next box is looked for.
    pub closed spec fn position(&self) -> int {
        self.pos as int
    }

    /// The walk never reads past its bytes.
    pub closed spec fn wf(&self) -> bool {
        self.end <= self.data@.len()
    }

    /// The offsets of the boxes still to come.
    pub open spec fn remaining(&self) -> Seq<int> {
        box_offsets(self.bytes(), self.position(), self.limit())
    }

    /// Starts a walk over `data[start..end]`. An `end` past the data counts as
    /// the end of the data.
    pub fn new(data: &'a [u8], start: usize, end: usize) -> (result: AtomIter<'a>)
        ensures
            result.wf(),
            result.bytes() == data@,
            result.position() == start,
            result.limit() == held(data@, end),
    {
        let end: usize = if end <= data.len() {
            end
        } else {
            data.len()
        };
        AtomIter { data, pos: start, end }
    }

    /// Yields the next box, or nothing when the run has ended. A malformed or
    /// cut-off box ends the run; it is no failure.
    pub fn next(&mut self) -> (result: Option<Atom>)
        requires
            old(self).wf(),
        ensures
            final(self).wf(),
            final(self).bytes() == old(self).bytes(),
            final(self).limit() == old(self).limit(),
            old(self).remaining().len() == 0 ==> result is None && final(self).remaining().len()
                == 0,
            old(self).remaining().len() > 0 ==> (result matches Some(a) && describes(
                a,
                old(self).bytes(),
                old(self).remaining()[0],
            ) && box_at(old(self).bytes(), old(self).remaining()[0], old(self).limit())
                && final(self).remaining() == old(self).remaining().skip(1)),
    {
        if self.end < 8 || self.pos > self.end - 8 {
            return None;
        }
        let size: usize = read_be32(self.data, self.pos) as usize;
        if size < 8 || size > self.end - self.pos {
            return None;
        }
        let at: usize = self.pos;
        let name: [u8; 4] = [
            self.data[at + 4],
            self.data[at + 5],
            self.data[at + 6],
            self.data[at + 7],
        ];
        assert(name@ =~= self.data@.subrange(at + 4, at + 8));
        let atom = Atom {
            name,
            offset: at,
            header_size: 8,
            data_offset: at + 8,
            data_size: size - 8,
            size,
        };
        self.pos = at + size;
        assert(old(self).remaining().skip(1) =~= self.remaining());
        Some(atom)
    }

    /// Walks on to the first box with the given name and yields it, or
    /// nothing when the run ends without one.
    pub fn find_name(&mut self, name: &[u8; 4]) -> (result: Option<Atom>)
        requires
            old(self).wf(),
        ensures
            final(self).wf(),
            final(self).bytes() == old(self).bytes(),
            final(self).limit() == old(self).limit(),
            found_in(old(self).bytes(), old(self).remaining(), old(self).limit(), name@, result),
            result is Some ==> final(self).remaining() == old(self).remaining().skip(
                first_named(old(self).bytes(), old(self).remaining(), name@) + 1,
            ),
            result is None ==> final(self).remaining().len() == 0,
    {
        let ghost all = self.remaining();
        let ghost data = self.bytes();
        let ghost k: int = 0;
        loop
            invariant
                self.wf(),
                self.bytes() == data,
                self.limit() == old(self).limit(),
                data == old(self).bytes(),
                all == old(self).remaining(),
                0 <= k <= all.len(),
                self.remaining() == all.skip(k),
                first_named(data, all, name@) == k + first_named(data, all.skip(k), name@),
            decreases all.len() - k,
        {
            let ghost here = self.remaining();
            match self.next() {
                None => {
                    return None;
                },
                Some(a) => {
                    if same_name(&a.name, name) {
                        return Some(a);
                    }
                    proof {
                        assert(all.skip(k).skip(1) =~= all.skip(k + 1));
                        k = k + 1;
                    }
                },
            }
        }
    }
}

/// What a search for a named box among `offsets` yields: the first box with
/// that name, or nothing.
pub open spec fn found_in(
    data: Seq<u8>,
    offsets: Seq<int>,
    end: int,
    name: Seq<u8>,
    result: Option<Atom>,
) -> bool {
    let k = first_named(data, offsets, name);
    if 0 <= k < offsets.len() {
        result matches Some(a) && describes(a, data, offsets[k]) && box_at(data, offsets[k], end)
            && a.name@ == name
    } else {
        result is None
    }
}

/// Collects the boxes of `data[start..end]`.
pub fn atoms(data: &[u8], start: usize, end: usize) -> (result: Vec<Atom>)
    ensures
        result@.len() == box_offsets(data@, start as int, held(data@, end)).len(),
        forall|i: int|
            0 <= i < result@.len() ==> describes(
                #[trigger] result@[i],
                data@,
                box_offsets(data@, start as int, held(data@, end))[i],
            ),
{
    let mut it = AtomIter::new(data, start, end);
    let ghost all = it.remaining();
    let mut out: Vec<Atom> = Vec::new();
    loop
        invariant
            it.wf(),
            it.bytes() == data@,
            all == box_offsets(data@, start as int, held(data@, end)),
            out@.len() <= all.len(),
            it.remaining() == all.skip(out@.len() as int),
            forall|i: int| 0 <= i < out@.len() ==> describes(#[trigger] out@[i], data@, all[i]),
        decreases all.len() - out@.len(),
    {
        match it.next() {
            None => {
                return out;
            },
            Some(a) => {
                assert(all.skip(out@.len() as int).skip(1) =~= all.skip(out@.len() as int + 1));
                out.push(a);
            },
        }
    }
}

/// Finds the first box named `name` in `data[start..end]`.
pub fn find_atom(data: &[u8], start: usize, end: usize, name: &[u8; 4]) -> (result: Option<Atom>)
    ensures
        found_in(
            data@,
            box_offsets(data@, start as int, held(data@, end)),
            held(data@, end),
            name@,
            result,
        ),
{
    let mut it = AtomIter::new(data, start, end);
    it.find_name(name)
}

} // verus!
