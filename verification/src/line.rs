//! One input line: its original bytes and its character view.
//!
//! Bytes are kept exactly as read; matching and display work on the
//! characters of the lossy UTF-8 decoding, so invalid input never gets lost.

use vstd::prelude::*;
use vstd::slice::slice_to_vec;

verus! {

/// What the lossy UTF-8 decoding of a byte sequence yields: a function of
/// the bytes alone, with invalid sequences replaced by U+FFFD.
pub uninterp spec fn decoded_chars(bytes: Seq<u8>) -> Seq<char>;

/// Abstract value of a [`Line`]: the captured bytes and their decoding.
pub struct LineV {
    pub bytes: Seq<u8>,
    pub chars: Seq<char>,
}

/// Relies on `String::from_utf8_lossy`: the result depends on the bytes
/// alone, and ASCII bytes decode to themselves.
#[verifier::external_body]
fn decode_lossy(bytes: &Vec<u8>) -> (r: String)
    ensures
        r@ == decoded_chars(bytes@),
        (forall|i: int| 0 <= i < bytes@.len() ==> bytes@[i] < 128) ==> r@ == Seq::new(
            bytes@.len(),
            |i: int| bytes@[i] as char,
        ),
{
    String::from_utf8_lossy(bytes).into_owned()
}

/// Relies on `str::chars`: the characters of the string, in order.
#[verifier::external_body]
fn chars_vec(s: &str) -> (r: Vec<char>)
    ensures
        r@ == s@,
{
    s.chars().collect()
}

/// An immutable input line, captured without its trailing newline.
pub struct Line {
    bytes: Vec<u8>,
    chars: Vec<char>,
    text: String,
}

impl View for Line {
    type V = LineV;

    closed spec fn view(&self) -> LineV {
        LineV { bytes: self.bytes@, chars: self.chars@ }
    }
}

impl Line {
    /// The stored text is exactly the decoded characters of the bytes.
    pub closed spec fn wf(self) -> bool {
        self.text@ == self.chars@
    }

    /// Capture a line from its bytes (newline already stripped).
    pub fn new(bytes: Vec<u8>) -> (l: Line)
        ensures
            l@.bytes == bytes@,
            l@.chars == decoded_chars(bytes@),
            (forall|i: int| 0 <= i < bytes@.len() ==> bytes@[i] < 128) ==> l@.chars == Seq::new(
                bytes@.len(),
                |i: int| bytes@[i] as char,
            ),
            l.wf(),
    {
        let text = decode_lossy(&bytes);
        let chars = chars_vec(text.as_str());
        Line { bytes, chars, text }
    }

    /// Capture a line from a raw read, stripping one trailing newline.
    pub fn from_raw(raw: Vec<u8>) -> (l: Line)
        ensures
            l@.bytes == (if raw@.len() > 0 && raw@.last() == 10u8 {
                raw@.drop_last()
            } else {
                raw@
            }),
            l@.chars == decoded_chars(l@.bytes),
            l.wf(),
    {
        let mut v = raw;
        if v.len() > 0 && v[v.len() - 1] == 10u8 {
            let _popped = v.pop();
        }
        Line::new(v)
    }

    /// The original bytes of the line.
    pub fn as_bytes(&self) -> (r: &[u8])
        ensures
            r@ == self@.bytes,
    {
        self.bytes.as_slice()
    }

    /// The decoded characters of the line.
    pub fn as_chars(&self) -> (r: &[char])
        ensures
            r@ == self@.chars,
    {
        self.chars.as_slice()
    }

    /// The decoded text of the line.
    pub fn as_str(&self) -> (r: &str)
        requires
            self.wf(),
        ensures
            r@ == self@.chars,
    {
        self.text.as_str()
    }
}

impl Clone for Line {
    /// A clone has the same bytes and characters.
    fn clone(&self) -> (r: Self)
        ensures
            r@ == self@,
            self.wf() ==> r.wf(),
    {
        Line {
            bytes: slice_to_vec(self.bytes.as_slice()),
            chars: slice_to_vec(self.chars.as_slice()),
            text: self.text.clone(),
        }
    }
}

} // verus!
