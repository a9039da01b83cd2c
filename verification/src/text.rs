//! Small verified helpers on strings and byte strings.

use vstd::prelude::*;
use vstd::utf8::*;

verus! {

/// The character for a decimal digit.
pub open spec fn digit_char(d: nat) -> char {
    if d == 0 {
        '0'
    } else if d == 1 {
        '1'
    } else if d == 2 {
        '2'
    } else if d == 3 {
        '3'
    } else if d == 4 {
        '4'
    } else if d == 5 {
        '5'
    } else if d == 6 {
        '6'
    } else if d == 7 {
        '7'
    } else if d == 8 {
        '8'
    } else {
        '9'
    }
}

/// The decimal numeral of `n`, without leading zeros.
pub open spec fn decimal(n: nat) -> Seq<char>
    decreases n,
{
    if n < 10 {
        seq![digit_char(n)]
    } else {
        decimal(n / 10).push(digit_char(n % 10))
    }
}

/// The one-character text of a decimal digit.
pub fn digit_str(d: u8) -> (result: &'static str)
    requires
        d < 10,
    ensures
        result@ == seq![digit_char(d as nat)],
{
    proof {
        reveal_strlit("0");
        reveal_strlit("1");
        reveal_strlit("2");
        reveal_strlit("3");
        reveal_strlit("4");
        reveal_strlit("5");
        reveal_strlit("6");
        reveal_strlit("7");
        reveal_strlit("8");
        reveal_strlit("9");
    }
    let result = if d == 0 {
        "0"
    } else if d == 1 {
        "1"
    } else if d == 2 {
        "2"
    } else if d == 3 {
        "3"
    } else if d == 4 {
        "4"
    } else if d == 5 {
        "5"
    } else if d == 6 {
        "6"
    } else if d == 7 {
        "7"
    } else if d == 8 {
        "8"
    } else {
        "9"
    };
    assert(result@ =~= seq![digit_char(d as nat)]);
    result
}

/// Writes a byte as a decimal numeral.
pub fn decimal_u8(n: u8) -> (result: String)
    ensures
        result@ == decimal(n as nat),
{
    let mut out = String::new();
    if n >= 100 {
        out.append(digit_str(n / 100));
    }
    if n >= 10 {
        out.append(digit_str((n / 10) % 10));
    }
    out.append(digit_str(n % 10));
    proof {
        let v = n as nat;
        if v >= 100 {
            assert(decimal(v / 10) == decimal(v / 100).push(digit_char((v / 10) % 10)));
            assert(decimal(v / 100) == seq![digit_char(v / 100)]);
            assert(out@ =~= decimal(v));
        } else if v >= 10 {
            assert(decimal(v / 10) == seq![digit_char(v / 10)]);
            assert(out@ =~= decimal(v));
        } else {
            assert(out@ =~= decimal(v));
        }
    }
    out
}

/// Tells whether two byte strings hold the same bytes.
pub fn bytes_eq(a: &[u8], b: &[u8]) -> (result: bool)
    ensures
        result == (a@ == b@),
{
    if a.len() != b.len() {
        return false;
    }
    let mut i: usize = 0;
    while i < a.len()
        invariant
            i <= a.len(),
            a.len() == b.len(),
            forall|j: int| 0 <= j < i ==> a@[j] == b@[j],
        decreases a.len() - i,
    {
        if a[i] != b[i] {
            return false;
        }
        i += 1;
    }
    assert(a@ =~= b@);
    true
}

/// Tells whether two texts are equal.
pub fn str_eq(a: &str, b: &str) -> (result: bool)
    ensures
        result == (a@ == b@),
{
    let result = bytes_eq(a.as_bytes(), b.as_bytes());
    proof {
        encode_utf8_decode_utf8(a@);
        encode_utf8_decode_utf8(b@);
    }
    result
}

/// Appends `data` to `buf`.
pub fn append_bytes(buf: &mut Vec<u8>, data: &[u8])
    ensures
        final(buf)@ == old(buf)@ + data@,
{
    let ghost before = buf@;
    let mut i: usize = 0;
    while i < data.len()
        invariant
            i <= data.len(),
            buf@ == before + data@.take(i as int),
        decreases data.len() - i,
    {
        buf.push(data[i]);
        assert(data@.take(i + 1) =~= data@.take(i as int).push(data@[i as int]));
        assert(buf@ =~= before + data@.take(i + 1));
        i += 1;
    }
    assert(data@.take(data.len() as int) =~= data@);
}

/// The text that lossy UTF-8 decoding makes of `bytes`: the decoded text where
/// the bytes are valid UTF-8, and otherwise a text in which each malformed
/// part is replaced by U+FFFD.
pub uninterp spec fn utf8_lossy(bytes: Seq<u8>) -> Seq<char>;

/// The text that decoding as big-endian UTF-16 makes of `bytes`, with
/// malformed parts replaced by U+FFFD. Where the bytes start with a byte order
/// mark, the mark is left out and decides the encoding.
pub uninterp spec fn utf16be_decoded(bytes: Seq<u8>) -> Seq<char>;

/// Calls `String::from_utf8_lossy`. The result is a function of the bytes
/// alone, and for valid UTF-8 it is the text that the bytes encode; both are
/// taken from the documentation of the standard library, not proved.
#[verifier::external_body]
pub(crate) fn from_utf8_lossy(data: &[u8]) -> (result: String)
    ensures
        result@ == utf8_lossy(data@),
        valid_utf8(data@) ==> result@ == decode_utf8(data@),
{
    String::from_utf8_lossy(data).into_owned()
}

/// Calls `encoding_rs::UTF_16BE.decode`, which sniffs a byte order mark,
/// decodes, and replaces malformed sequences. The result is a function of the
/// bytes alone; nothing more is claimed of it. The length bound keeps the
/// decoder's buffer size computation from overflowing.
#[verifier::external_body]
pub(crate) fn decode_utf16be(data: &[u8]) -> (result: String)
    requires
        data@.len() <= usize::MAX / 4,
    ensures
        result@ == utf16be_decoded(data@),
{
    let (text, _, _) = encoding_rs::UTF_16BE.decode(data);
    text.into_owned()
}

/// Calls `memchr::memchr`, which searches a byte string for the first
/// occurrence of a byte. The contract is what its documentation says: the
/// index of the first occurrence, which lies in the byte string, or nothing
/// where the byte does not occur.
#[verifier::external_body]
pub(crate) fn find_byte(needle: u8, haystack: &[u8]) -> (result: Option<usize>)
    ensures
        match result {
            Some(i) => i < haystack@.len() && haystack@[i as int] == needle && forall|j: int|
                0 <= j < i ==> haystack@[j] != needle,
            None => forall|j: int| 0 <= j < haystack@.len() ==> haystack@[j] != needle,
        },
{
    memchr::memchr(needle, haystack)
}

/// Calls `std::str::from_utf8`, which accepts exactly the byte strings that
/// are valid UTF-8, and hands the text over as it is.
#[verifier::external_body]
pub(crate) fn from_utf8(data: &[u8]) -> (result: Option<String>)
    ensures
        result is Some <==> valid_utf8(data@),
        result matches Some(text) ==> text@ == decode_utf8(data@),
{
    match std::str::from_utf8(data) {
        Ok(text) => Some(text.to_owned()),
        Err(_) => None,
    }
}

/// `String::push` appends one character to a text.
pub assume_specification[ String::push ](text: &mut String, ch: char)
    ensures
        final(text)@ == old(text)@.push(ch),
;

/// The text whose characters have the bytes as their code points: the bytes
/// read as Latin-1.
pub open spec fn latin1(bytes: Seq<u8>) -> Seq<char> {
    Seq::new(bytes.len(), |i: int| bytes[i] as char)
}

/// Reads bytes as Latin-1.
pub fn decode_latin1(data: &[u8]) -> (result: String)
    ensures
        result@ == latin1(data@),
{
    let mut out = String::new();
    let mut i: usize = 0;
    while i < data.len()
        invariant
            i <= data.len(),
            out@ == latin1(data@.take(i as int)),
        decreases data.len() - i,
    {
        out.push(data[i] as char);
        assert(out@ =~= latin1(data@.take(i + 1)));
        i += 1;
    }
    assert(data@.take(i as int) =~= data@);
    out
}

} // verus!
