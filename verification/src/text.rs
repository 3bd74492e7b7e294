//! Bytes as text.

use core::fmt;

use vstd::prelude::*;

use crate::buf::Bytes;
use crate::buf_mut::BytesMut;
use crate::outside::{hands, write_text};

verus! {

/// The lower-case hexadecimal digit for a number below sixteen.
pub open spec fn hex_digit(n: int) -> char {
    if n < 10 {
        (48 + n) as char
    } else {
        (87 + n) as char
    }
}

/// A byte as it appears in a byte string literal.
pub open spec fn escaped(b: u8) -> Seq<char> {
    if b == 9 {
        seq!['\\', 't']
    } else if b == 13 {
        seq!['\\', 'r']
    } else if b == 10 {
        seq!['\\', 'n']
    } else if b == 39 || b == 34 || b == 92 {
        seq!['\\', b as char]
    } else if 32 <= b <= 126 {
        seq![b as char]
    } else {
        seq!['\\', 'x', hex_digit(b as int / 16), hex_digit(b as int % 16)]
    }
}

/// The bytes as they appear between the quotes of a byte string literal.
pub open spec fn escaped_all(bytes: Seq<u8>) -> Seq<char>
    decreases bytes.len(),
{
    if bytes.len() == 0 {
        Seq::empty()
    } else {
        escaped_all(bytes.drop_last()) + escaped(bytes.last())
    }
}

/// The byte string literal for a sequence of bytes.
pub open spec fn literal(bytes: Seq<u8>) -> Seq<char> {
    seq!['b', '"'] + escaped_all(bytes) + seq!['"']
}

/// Returns the lower-case hexadecimal digit for a number below sixteen.
fn digit(n: u8) -> (c: char)
    requires
        n < 16,
    ensures
        c == hex_digit(n as int),
{
    if n < 10 {
        (48 + n) as char
    } else {
        (87 + n) as char
    }
}

/// Puts a byte behind `text` as it appears in a byte string literal.
fn push_escaped(text: &mut String, b: u8)
    ensures
        final(text)@ == old(text)@ + escaped(b),
{
    if b == 9 {
        text.push('\\');
        text.push('t');
    } else if b == 13 {
        text.push('\\');
        text.push('r');
    } else if b == 10 {
        text.push('\\');
        text.push('n');
    } else if b == 39 || b == 34 || b == 92 {
        text.push('\\');
        text.push(b as char);
    } else if 32 <= b && b <= 126 {
        text.push(b as char);
    } else {
        text.push('\\');
        text.push('x');
        text.push(digit(b / 16));
        text.push(digit(b % 16));
    }
}

/// Returns the byte string literal for a slice of bytes.
pub fn quoted(bytes: &[u8]) -> (text: String)
    ensures
        text@ == literal(bytes@),
{
    let mut text = String::new();
    text.push('b');
    text.push('"');
    let mut i: usize = 0;
    assert(text@ =~= seq!['b', '"'] + escaped_all(bytes@.take(0)));
    while i < bytes.len()
        invariant
            i <= bytes@.len(),
            text@ == seq!['b', '"'] + escaped_all(bytes@.take(i as int)),
        decreases bytes@.len() - i,
    {
        push_escaped(&mut text, bytes[i]);
        assert(bytes@.take(i + 1).drop_last() == bytes@.take(i as int));
        i += 1;
    }
    assert(bytes@.take(i as int) == bytes@);
    text.push('"');
    text
}

impl fmt::Debug for Bytes {
    fn fmt(&self, f: &mut fmt::Formatter<'_>) -> (result: fmt::Result)
        ensures
            exists|sink: &mut fmt::Formatter<'_>, text: &str|
                {
                    &&& text@ == literal(self@)
                    &&& *sink == *old(f)
                    &&& *final(sink) == *final(f)
                    &&& #[trigger] hands(sink, text, result)
                },
    {
        let result = write_text(f, quoted(self.as_slice()).as_str());
        assert(forall|sink: &mut fmt::Formatter<'_>, text: &str| #[trigger]
            call_ensures(write_text, (sink, text), result) ==> hands(sink, text, result));
        result
    }
}

impl fmt::Debug for BytesMut {
    fn fmt(&self, f: &mut fmt::Formatter<'_>) -> (result: fmt::Result)
        ensures
            exists|sink: &mut fmt::Formatter<'_>, text: &str|
                {
                    &&& text@ == literal(self@)
                    &&& *sink == *old(f)
                    &&& *final(sink) == *final(f)
                    &&& #[trigger] hands(sink, text, result)
                },
    {
        let result = write_text(f, quoted(self.as_slice()).as_str());
        assert(forall|sink: &mut fmt::Formatter<'_>, text: &str| #[trigger]
            call_ensures(write_text, (sink, text), result) ==> hands(sink, text, result));
        result
    }
}

impl fmt::Write for BytesMut {
    /// Extends the buffer with the UTF-8 encoding of the text.
    ///
    /// Fails, and leaves the buffer as it is, where no room can be had. What follows
    /// from whether something else holds the allocation is what `try_append_given`
    /// states.
    fn write_str(&mut self, s: &str) -> (result: fmt::Result)
        ensures
            ({
                let encoded = vstd::utf8::encode_utf8(s@);
                &&& old(self).tried_to_append(encoded, result is Ok, final(self).region())
                &&& old(self).region().can_reserve(encoded.len() as int) ==> result is Ok
                &&& result is Ok ==> final(self)@ == old(self)@ + encoded
                &&& result is Err ==> *final(self) == *old(self)
            }),
    {
        if self.try_append(s.as_bytes()) {
            Ok(())
        } else {
            Err(fmt::Error)
        }
    }
}

} // verus!
