//! A cursor over an immutable byte buffer: position tracking, byte
//! lookahead, whitespace and digit runs, and byte-offset to character-offset
//! translation.

use vstd::prelude::*;
use vstd::slice::slice_subrange;
use vstd::slice::slice_to_vec;
use vstd::string::StringSliceAdditionalSpecFns;

use crate::error::Error;

verus! {

/// Whitespace accepted between tokens: space, tab, line feed, carriage return.
pub open spec fn is_space(b: u8) -> bool {
    b == 32 || b == 9 || b == 10 || b == 13
}

/// An ASCII decimal digit.
pub open spec fn is_digit(b: u8) -> bool {
    48 <= b && b <= 57
}

/// An ASCII plus or minus sign.
pub open spec fn is_sign(b: u8) -> bool {
    b == 43 || b == 45
}

/// A UTF-8 continuation byte (`10xxxxxx`); every other byte starts a character.
pub open spec fn is_continuation(b: u8) -> bool {
    b & 0xc0 == 0x80
}

/// The end of the maximal whitespace run that starts at `i`.
pub open spec fn space_run_end(s: Seq<u8>, i: int) -> int
    decreases s.len() - i,
{
    if 0 <= i < s.len() && is_space(s[i]) {
        space_run_end(s, i + 1)
    } else {
        i
    }
}

/// The end of the maximal digit run that starts at `i`.
pub open spec fn digit_run_end(s: Seq<u8>, i: int) -> int
    decreases s.len() - i,
{
    if 0 <= i < s.len() && is_digit(s[i]) {
        digit_run_end(s, i + 1)
    } else {
        i
    }
}

/// How many characters start strictly before byte offset `end`, counted as
/// the non-continuation bytes among the first `end` bytes.
pub open spec fn char_count(s: Seq<u8>, end: int) -> int
    decreases end,
{
    if end <= 0 {
        0
    } else {
        char_count(s, end - 1) + if end - 1 < s.len() && !is_continuation(s[end - 1]) {
            1int
        } else {
            0int
        }
    }
}

/// The 1-based character position of byte offset `off`, saturating at
/// `usize::MAX` on a buffer of maximal length.
pub open spec fn char_pos(s: Seq<u8>, off: int) -> usize {
    if char_count(s, off) < usize::MAX {
        (char_count(s, off) + 1) as usize
    } else {
        usize::MAX
    }
}

/// A whitespace run never moves backwards and never passes the end.
pub proof fn lemma_space_run_end_bounds(s: Seq<u8>, i: int)
    requires
        0 <= i <= s.len(),
    ensures
        i <= space_run_end(s, i) <= s.len(),
    decreases s.len() - i,
{
    if i < s.len() && is_space(s[i]) {
        lemma_space_run_end_bounds(s, i + 1);
    }
}

/// A digit run never moves backwards and never passes the end.
pub proof fn lemma_digit_run_end_bounds(s: Seq<u8>, i: int)
    requires
        0 <= i <= s.len(),
    ensures
        i <= digit_run_end(s, i) <= s.len(),
    decreases s.len() - i,
{
    if i < s.len() && is_digit(s[i]) {
        lemma_digit_run_end_bounds(s, i + 1);
    }
}

/// There are at most as many characters as bytes before any offset.
pub proof fn lemma_char_count_bounds(s: Seq<u8>, end: int)
    ensures
        0 <= char_count(s, end),
        end >= 0 ==> char_count(s, end) <= end,
    decreases end,
{
    if end > 0 {
        lemma_char_count_bounds(s, end - 1);
    }
}

/// Whether the byte is whitespace (space, tab, line feed, carriage return).
pub fn is_space_byte(b: u8) -> (r: bool)
    ensures
        r == is_space(b),
{
    b == 32 || b == 9 || b == 10 || b == 13
}

/// Whether the byte is an ASCII decimal digit.
pub fn is_digit_byte(b: u8) -> (r: bool)
    ensures
        r == is_digit(b),
{
    48 <= b && b <= 57
}

/// Whether the byte is an ASCII plus or minus sign.
pub fn is_sign_byte(b: u8) -> (r: bool)
    ensures
        r == is_sign(b),
{
    b == 43 || b == 45
}

/// A mutable position over an immutable byte buffer. Scanning operations
/// advance the position; the buffer itself never changes.
pub struct Stream {
    text: Vec<u8>,
    pos: usize,
}

impl Stream {
    /// The bytes of the underlying buffer.
    pub closed spec fn bytes(&self) -> Seq<u8> {
        self.text@
    }

    /// The current byte offset into the buffer.
    pub closed spec fn offset(&self) -> int {
        self.pos as int
    }

    /// The position never passes the end of the buffer.
    pub open spec fn wf(&self) -> bool {
        0 <= self.offset() <= self.bytes().len()
    }

    /// A cursor at the start of the UTF-8 bytes of `text`.
    pub fn from(text: &str) -> (r: Stream)
        ensures
            r.wf(),
            r.bytes() == text.spec_bytes(),
            r.offset() == 0,
    {
        Stream { text: slice_to_vec(text.as_bytes()), pos: 0 }
    }

    /// Whether the whole buffer has been consumed.
    pub fn at_end(&self) -> (r: bool)
        requires
            self.wf(),
        ensures
            r == (self.offset() == self.bytes().len()),
    {
        self.pos == self.text.len()
    }

    /// The current byte offset.
    pub fn pos(&self) -> (r: usize)
        ensures
            r == self.offset(),
    {
        self.pos
    }

    /// The byte under the cursor, without consuming it.
    pub fn curr_byte(&self) -> (r: Result<u8, Error>)
        requires
            self.wf(),
        ensures
            r == if self.offset() < self.bytes().len() {
                Ok::<u8, Error>(self.bytes()[self.offset()])
            } else {
                Err::<u8, Error>(Error::UnexpectedEndOfStream)
            },
    {
        if self.pos < self.text.len() {
            Ok(self.text[self.pos])
        } else {
            Err(Error::UnexpectedEndOfStream)
        }
    }

    /// The byte after the current one, without consuming anything
    /// (one further byte of lookahead).
    pub fn next_byte(&self) -> (r: Result<u8, Error>)
        requires
            self.wf(),
        ensures
            r == if self.offset() + 1 < self.bytes().len() {
                Ok::<u8, Error>(self.bytes()[self.offset() + 1])
            } else {
                Err::<u8, Error>(Error::UnexpectedEndOfStream)
            },
    {
        if self.text.len() - self.pos >= 2 {
            Ok(self.text[self.pos + 1])
        } else {
            Err(Error::UnexpectedEndOfStream)
        }
    }

    /// Moves the cursor forward by `n` bytes. The caller must stay inside
    /// the buffer; scanning code only advances over bytes it has seen.
    pub fn advance(&mut self, n: usize)
        requires
            old(self).wf(),
            old(self).offset() + n <= old(self).bytes().len(),
        ensures
            final(self).wf(),
            final(self).bytes() == old(self).bytes(),
            final(self).offset() == old(self).offset() + n,
    {
        proof {
            vstd::std_specs::vec::axiom_spec_len(&self.text);
        }
        self.pos = self.pos + n;
    }

    /// Consumes the whitespace run under the cursor.
    pub fn skip_spaces(&mut self)
        requires
            old(self).wf(),
        ensures
            final(self).wf(),
            final(self).bytes() == old(self).bytes(),
            final(self).offset() == space_run_end(old(self).bytes(), old(self).offset()),
            old(self).offset() <= final(self).offset(),
    {
        let ghost s = self.text@;
        let ghost p0 = self.pos as int;
        while self.pos < self.text.len() && is_space_byte(self.text[self.pos])
            invariant
                self.text@ == s,
                0 <= p0 <= self.pos as int <= s.len(),
                space_run_end(s, p0) == space_run_end(s, self.pos as int),
            decreases s.len() - self.pos,
        {
            proof {
                assert(space_run_end(s, self.pos as int) == space_run_end(s, self.pos + 1));
            }
            self.pos = self.pos + 1;
        }
    }

    /// Consumes the digit run under the cursor.
    pub fn skip_digits(&mut self)
        requires
            old(self).wf(),
        ensures
            final(self).wf(),
            final(self).bytes() == old(self).bytes(),
            final(self).offset() == digit_run_end(old(self).bytes(), old(self).offset()),
            old(self).offset() <= final(self).offset(),
    {
        let ghost s = self.text@;
        let ghost p0 = self.pos as int;
        while self.pos < self.text.len() && is_digit_byte(self.text[self.pos])
            invariant
                self.text@ == s,
                0 <= p0 <= self.pos as int <= s.len(),
                digit_run_end(s, p0) == digit_run_end(s, self.pos as int),
            decreases s.len() - self.pos,
        {
            proof {
                assert(digit_run_end(s, self.pos as int) == digit_run_end(s, self.pos + 1));
            }
            self.pos = self.pos + 1;
        }
    }

    /// A copy of the bytes from `start` up to the cursor: the slice of the
    /// lexeme whose scan began at `start`.
    pub fn slice_back(&self, start: usize) -> (r: Vec<u8>)
        requires
            self.wf(),
            start <= self.offset(),
        ensures
            r@ == self.bytes().subrange(start as int, self.offset()),
    {
        slice_to_vec(slice_subrange(self.text.as_slice(), start, self.pos))
    }

    /// Moves the cursor to the end of the buffer.
    pub fn jump_to_end(&mut self)
        requires
            old(self).wf(),
        ensures
            final(self).wf(),
            final(self).bytes() == old(self).bytes(),
            final(self).offset() == old(self).bytes().len(),
    {
        self.pos = self.text.len();
    }

    /// The 1-based character position of byte offset `byte_pos`, counting
    /// every byte that starts a character (characters may span several bytes).
    pub fn calc_char_pos_at(&self, byte_pos: usize) -> (r: usize)
        ensures
            r == char_pos(self.bytes(), byte_pos as int),
    {
        let ghost s = self.text@;
        let mut count: usize = 0;
        let mut i: usize = 0;
        let end = if byte_pos < self.text.len() {
            byte_pos
        } else {
            self.text.len()
        };
        proof {
            lemma_char_count_trailing(s, byte_pos as int, end as int);
        }
        while i < end
            invariant
                self.text@ == s,
                0 <= i <= end <= s.len(),
                count == char_count(s, i as int),
                count <= i,
            decreases end - i,
        {
            proof {
                lemma_char_count_bounds(s, i + 1);
            }
            if (self.text[i] & 0xc0) != 0x80 {
                count = count + 1;
            }
            i = i + 1;
        }
        if count < usize::MAX {
            count + 1
        } else {
            count
        }
    }

    /// The 1-based character position of the cursor itself.
    pub fn calc_char_pos(&self) -> (r: usize)
        requires
            self.wf(),
        ensures
            r == char_pos(self.bytes(), self.offset()),
    {
        self.calc_char_pos_at(self.pos)
    }
}

/// Bytes at or past the end of the buffer start no character: counting up to
/// any offset past the end counts the same characters as counting to the end.
proof fn lemma_char_count_trailing(s: Seq<u8>, end: int, cap: int)
    requires
        cap == if end < s.len() {
            end
        } else {
            s.len() as int
        },
    ensures
        char_count(s, end) == char_count(s, cap),
    decreases end,
{
    if end > cap {
        lemma_char_count_trailing(s, end - 1, cap);
    }
}

} // verus!
