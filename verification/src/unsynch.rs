//! The unsynchronisation scheme of ID3v2: a reversible byte stuffing that
//! keeps tag bytes from looking like the sync pattern of an audio stream.

use vstd::prelude::*;
use crate::error::TagError;

verus! {

/// True when a byte that follows `0xFF` forces a stuffing byte in between.
pub open spec fn needs_stuffing(next: u8) -> bool {
    next >= 0xe0 || next == 0x00
}

/// The bytes with the stuffing taken out: of every pair `0xFF 0x00` only the
/// `0xFF` stays.
pub open spec fn unsynch_decoded(s: Seq<u8>) -> Seq<u8>
    decreases s.len(),
{
    if s.len() == 0 {
        Seq::empty()
    } else if s[0] == 0xff && s.len() >= 2 && s[1] == 0x00 {
        seq![0xffu8] + unsynch_decoded(s.skip(2))
    } else {
        seq![s[0]] + unsynch_decoded(s.skip(1))
    }
}

/// The bytes with stuffing put in: a zero byte after every `0xFF` that is
/// followed by a byte of `0xE0` or more, or by a zero byte.
pub open spec fn unsynch_encoded(s: Seq<u8>) -> Seq<u8>
    decreases s.len(),
{
    if s.len() == 0 {
        Seq::empty()
    } else if s[0] == 0xff && s.len() >= 2 && needs_stuffing(s[1]) {
        seq![0xffu8, 0x00u8] + unsynch_encoded(s.skip(1))
    } else {
        seq![s[0]] + unsynch_encoded(s.skip(1))
    }
}

/// An encoding starts with the byte that the input starts with.
pub proof fn lemma_encoded_first(s: Seq<u8>)
    requires
        s.len() > 0,
    ensures
        unsynch_encoded(s).len() > 0,
        unsynch_encoded(s)[0] == s[0],
{
}

/// Taking the stuffing out of stuffed bytes gives the bytes back, whatever
/// they are.
pub proof fn lemma_unsynch_round_trip(s: Seq<u8>)
    ensures
        unsynch_decoded(unsynch_encoded(s)) == s,
    decreases s.len(),
{
    if s.len() > 0 {
        let rest = s.skip(1);
        let enc_rest = unsynch_encoded(rest);
        lemma_unsynch_round_trip(rest);
        let enc = unsynch_encoded(s);
        if s[0] == 0xff && s.len() >= 2 && needs_stuffing(s[1]) {
            assert(enc.skip(2) =~= enc_rest);
            assert(seq![0xffu8] + rest =~= s);
        } else {
            assert(enc.skip(1) =~= enc_rest);
            if rest.len() > 0 {
                lemma_encoded_first(rest);
                assert(enc[1] == enc_rest[0]);
            }
            assert(seq![s[0]] + rest =~= s);
        }
    }
}

/// Reverses unsynchronisation: removes the zero byte that follows each
/// `0xFF`. Every input has a decoding, so the result is always `Ok`.
pub fn decode_unsynchronisation(data: &[u8]) -> (result: Result<Vec<u8>, TagError>)
    ensures
        result matches Ok(out) && out@ == unsynch_decoded(data@),
{
    let mut out: Vec<u8> = Vec::new();
    let mut i: usize = 0;
    assert(data@.skip(0) =~= data@);
    assert(out@ + unsynch_decoded(data@) =~= unsynch_decoded(data@));
    while i < data.len()
        invariant
            i <= data.len(),
            out@ + unsynch_decoded(data@.skip(i as int)) == unsynch_decoded(data@),
        decreases data.len() - i,
    {
        let b: u8 = data[i];
        let ghost tail = data@.skip(i as int);
        let ghost before = out@;
        out.push(b);
        if b == 0xff && i + 1 < data.len() && data[i + 1] == 0x00 {
            assert(tail.skip(2) =~= data@.skip(i + 2));
            assert(out@ + unsynch_decoded(data@.skip(i + 2)) =~= before + unsynch_decoded(tail));
            i += 2;
        } else {
            assert(tail.skip(1) =~= data@.skip(i + 1));
            assert(out@ + unsynch_decoded(data@.skip(i + 1)) =~= before + unsynch_decoded(tail));
            i += 1;
        }
    }
    assert(out@ + Seq::<u8>::empty() =~= out@);
    Ok(out)
}

/// Applies unsynchronisation: inserts a zero byte after each `0xFF` that is
/// followed by a byte of `0xE0` or more, or by a zero byte.
pub fn encode_unsynchronisation(data: &[u8]) -> (result: Vec<u8>)
    ensures
        result@ == unsynch_encoded(data@),
        unsynch_decoded(result@) == data@,
{
    let mut out: Vec<u8> = Vec::new();
    let mut i: usize = 0;
    assert(data@.skip(0) =~= data@);
    assert(out@ + unsynch_encoded(data@) =~= unsynch_encoded(data@));
    while i < data.len()
        invariant
            i <= data.len(),
            out@ + unsynch_encoded(data@.skip(i as int)) == unsynch_encoded(data@),
        decreases data.len() - i,
    {
        let b: u8 = data[i];
        let ghost tail = data@.skip(i as int);
        let ghost before = out@;
        out.push(b);
        assert(tail.skip(1) =~= data@.skip(i + 1));
        if b == 0xff && i + 1 < data.len() && (data[i + 1] >= 0xe0 || data[i + 1] == 0x00) {
            out.push(0x00);
        }
        assert(out@ + unsynch_encoded(data@.skip(i + 1)) =~= before + unsynch_encoded(tail));
        i += 1;
    }
    assert(out@ + Seq::<u8>::empty() =~= out@);
    proof {
        lemma_unsynch_round_trip(data@);
    }
    out
}

} // verus!
