//! A text that is being read: its characters, and the byte offset of each.

use vstd::prelude::*;
use vstd::utf8::{encode_scalar, encode_utf8};
use crate::edn::grammar::{column_before, lines_before, span_of, utf8_offset};
use crate::edn::types::Span;
use crate::edn::LineCol;
use crate::text::chars_of;

verus! {

/// The number of bytes that a character takes in UTF-8.
pub open spec fn utf8_width(c: char) -> nat {
    encode_scalar(c as u32).len()
}

/// The encoding of two texts in a row is the encodings in a row.
pub proof fn lemma_encode_concat(a: Seq<char>, b: Seq<char>)
    ensures
        encode_utf8(a + b) == encode_utf8(a) + encode_utf8(b),
    decreases a.len(),
{
    if a.len() == 0 {
        assert(a + b =~= b);
        assert(encode_utf8(a) + encode_utf8(b) =~= encode_utf8(b));
    } else {
        lemma_encode_concat(a.drop_first(), b);
        assert((a + b).drop_first() =~= a.drop_first() + b);
        assert(encode_utf8(a + b) =~= encode_utf8(a) + encode_utf8(b));
    }
}

/// The offset of a position is that of the one before it and the width of
/// the character between them, and no offset is beyond the length of the
/// text in bytes.
pub proof fn lemma_offset_step(s: Seq<char>, pos: int)
    requires
        0 <= pos < s.len(),
    ensures
        utf8_offset(s, pos + 1) == utf8_offset(s, pos) + utf8_width(s[pos]),
        utf8_offset(s, pos + 1) <= encode_utf8(s).len(),
{
    let one = seq![s[pos]];
    assert(s.take(pos + 1) =~= s.take(pos) + one);
    lemma_encode_concat(s.take(pos), one);
    assert(one.drop_first() =~= Seq::<char>::empty());
    assert(encode_utf8(one.drop_first()) =~= Seq::<u8>::empty());
    assert(encode_utf8(one) =~= encode_scalar(one[0] as u32) + encode_utf8(one.drop_first()));
    assert(encode_utf8(one) =~= encode_scalar(s[pos] as u32));
    assert(s =~= s.take(pos + 1) + s.skip(pos + 1));
    lemma_encode_concat(s.take(pos + 1), s.skip(pos + 1));
}

/// A text with the byte offset of each of its characters.
pub struct Source {
    chars: Vec<char>,
    offsets: Vec<usize>,
}

impl View for Source {
    type V = Seq<char>;

    closed spec fn view(&self) -> Seq<char> {
        self.chars@
    }
}

impl Source {
    /// The offsets are those of the characters.
    pub closed spec fn well_formed(&self) -> bool {
        &&& self.chars@.len() < usize::MAX
        &&& self.offsets@.len() == self.chars@.len() + 1
        &&& forall|i: int|
            0 <= i <= self.chars@.len() ==> #[trigger] self.offsets@[i] == utf8_offset(
                self.chars@,
                i,
            )
    }

    /// The text, ready to be read.
    pub fn new(input: &str) -> (r: Source)
        ensures
            r.well_formed(),
            r@ == input@,
    {
        let chars = chars_of(input);
        let total = input.as_bytes().len();
        let mut offsets: Vec<usize> = Vec::new();
        offsets.push(0);
        proof {
            assert(chars@.take(0) =~= Seq::<char>::empty());
        }
        let mut i: usize = 0;
        while i < chars.len()
            invariant
                i <= chars.len(),
                chars@ == input@,
                total == encode_utf8(chars@).len(),
                offsets@.len() == i + 1,
                forall|j: int| 0 <= j <= i ==> #[trigger] offsets@[j] == utf8_offset(chars@, j),
            decreases chars.len() - i,
        {
            let c = chars[i];
            let code = c as u32;
            let width: usize = if code <= 0x7f {
                1
            } else if code <= 0x7ff {
                2
            } else if code <= 0xffff {
                3
            } else {
                4
            };
            proof {
                lemma_offset_step(chars@, i as int);
                vstd::utf8::char_is_scalar(c);
                assert(vstd::utf8::is_scalar(code));
                assert(width == utf8_width(c));
            }
            let next = offsets[i] + width;
            offsets.push(next);
            i += 1;
        }
        let count = offsets.len();
        assert(chars@.len() + 1 == count);
        Source { chars, offsets }
    }

    /// A text is shorter than the largest number of the machine.
    pub proof fn lemma_bounded(&self)
        requires
            self.well_formed(),
        ensures
            self@.len() < usize::MAX,
    {
    }

    /// The characters of the text.
    pub fn chars(&self) -> (r: &Vec<char>)
        ensures
            r@ == self@,
    {
        &self.chars
    }

    /// The number of characters.
    pub fn len(&self) -> (r: usize)
        ensures
            r == self@.len(),
    {
        self.chars.len()
    }

    /// The stretch between two positions, in bytes.
    pub fn span(&self, start: usize, end: usize) -> (r: Span)
        requires
            self.well_formed(),
            start <= self@.len(),
            end <= self@.len(),
        ensures
            r == span_of(self@, start as int, end as int),
    {
        Span { start: self.offsets[start], end: self.offsets[end] }
    }

    /// The place of a position: its line, its column and its offset in
    /// bytes.
    pub fn location(&self, pos: usize) -> (r: LineCol)
        requires
            self.well_formed(),
            pos <= self@.len(),
        ensures
            r == location_at(self@, pos as int),
    {
        proof {
            self.lemma_bounded();
        }
        let mut line: usize = 1;
        let mut column: usize = 1;
        let mut i: usize = 0;
        while i < pos
            invariant
                i <= pos <= self.chars@.len(),
                line == 1 + lines_before(self.chars@, i as int),
                column == 1 + column_before(self.chars@, i as int),
                line <= i + 1,
                column <= i + 1,
                self.chars@.len() < usize::MAX,
            decreases pos - i,
        {
            if self.chars[i] == '\n' {
                line += 1;
                column = 1;
            } else {
                column += 1;
            }
            i += 1;
        }
        LineCol { line, column, offset: self.offsets[pos] }
    }
}

/// The place of a position in a text: lines and columns count from one,
/// columns in characters; the offset counts bytes.
pub open spec fn location_at(s: Seq<char>, pos: int) -> LineCol {
    LineCol {
        line: (1 + lines_before(s, pos)) as usize,
        column: (1 + column_before(s, pos)) as usize,
        offset: utf8_offset(s, pos) as usize,
    }
}

} // verus!
