//! The SVG number grammar: a single-number scanner, a whole-string parser,
//! and a pull-based parser for `<list-of-numbers>`.

use vstd::prelude::*;
use vstd::string::StringSliceAdditionalSpecFns;

use rustc_apfloat::ieee::Double;
use rustc_apfloat::Float;

use crate::error::Error;
use crate::stream::char_pos;
use crate::stream::digit_run_end;
use crate::stream::is_digit;
use crate::stream::is_digit_byte;
use crate::stream::is_sign;
use crate::stream::is_sign_byte;
use crate::stream::is_space;
use crate::stream::lemma_digit_run_end_bounds;
use crate::stream::lemma_space_run_end_bounds;
use crate::stream::space_run_end;
use crate::stream::Stream;

verus! {

/// What the standard decimal-to-double conversion returns on the given bytes
/// (decoded as UTF-8): `Some` of the IEEE-754 binary64 bit pattern of the
/// value, rounded to nearest, or `None` when the text does not parse.
pub uninterp spec fn double_bits_of(b: Seq<u8>) -> Option<u64>;

/// Relies on `rustc_apfloat::ieee::Double`: its `FromStr` parses decimal
/// text to an IEEE-754 binary64 value rounded to nearest (ties to even), and
/// `to_bits` returns that value's bit pattern, which fits in 64 bits. The
/// result is a pure function of the input bytes; `core::str::from_utf8`
/// only rejects non-UTF-8 input.
#[verifier::external_body]
fn parse_double_bits(b: &[u8]) -> (r: Option<u64>)
    ensures
        r == double_bits_of(b@),
{
    match core::str::from_utf8(b) {
        Ok(s) => match s.parse::<Double>() {
            Ok(d) => Some(d.to_bits() as u64),
            Err(_) => None,
        },
        Err(_) => None,
    }
}

/// The ASCII dot that leads a fraction part.
pub const DOT: u8 = 46;

/// The ASCII comma that separates list entries.
pub const COMMA: u8 = 44;

/// The lower-case exponent marker `e`.
pub const EXP_LOWER: u8 = 101;

/// The upper-case exponent marker `E`.
pub const EXP_UPPER: u8 = 69;

/// The `m` that makes an `e` the start of an `em` unit suffix.
pub const UNIT_M: u8 = 109;

/// The `x` that makes an `e` the start of an `ex` unit suffix.
pub const UNIT_X: u8 = 120;

/// An IEEE-754 binary64 bit pattern holds a finite value (neither NaN nor
/// an infinity) exactly when its eleven exponent bits are not all ones.
pub open spec fn finite_bits(bits: u64) -> bool {
    (bits >> 52) & 0x7ff != 0x7ff
}

/// Where the cursor stops after the exponent part that starts at `i`: the
/// flag says whether the grammar matched. An `e`/`E` followed by `m`/`x`
/// belongs to an `em`/`ex` unit suffix and ends the number before the
/// marker; otherwise the marker, an optional sign, and at least one digit
/// are required.
pub open spec fn scan_exponent(s: Seq<u8>, i: int) -> (bool, int) {
    if i < s.len() && (s[i] == EXP_LOWER || s[i] == EXP_UPPER) {
        if i + 1 >= s.len() {
            (false, i)
        } else if s[i + 1] == UNIT_M || s[i + 1] == UNIT_X {
            (true, i)
        } else if is_sign(s[i + 1]) {
            if i + 2 < s.len() && is_digit(s[i + 2]) {
                (true, digit_run_end(s, i + 2))
            } else {
                (false, i + 2)
            }
        } else if is_digit(s[i + 1]) {
            (true, digit_run_end(s, i + 1))
        } else {
            (false, i + 1)
        }
    } else {
        (true, i)
    }
}

/// Where the cursor stops after the optional fraction part that starts at
/// `i` (a dot and a possibly empty digit run) and the exponent after it.
pub open spec fn scan_fraction(s: Seq<u8>, i: int) -> (bool, int) {
    if i < s.len() && s[i] == DOT {
        scan_exponent(s, digit_run_end(s, i + 1))
    } else {
        scan_exponent(s, i)
    }
}

/// Result of scanning a number lexeme at `start`: the flag says whether the
/// grammar matched, and the offset is where the cursor stops — on a match,
/// the end of the lexeme. The grammar is an optional sign, then either a
/// digit run or a fraction led by a dot, then the optional fraction and
/// exponent parts.
pub open spec fn scan_number(s: Seq<u8>, start: int) -> (bool, int) {
    if start >= s.len() {
        (false, start)
    } else {
        let i = if is_sign(s[start]) {
            start + 1
        } else {
            start
        };
        if i >= s.len() {
            (false, i)
        } else if is_digit(s[i]) {
            scan_fraction(s, digit_run_end(s, i))
        } else if s[i] == DOT {
            scan_fraction(s, i)
        } else {
            (false, i)
        }
    }
}

/// The value of the lexeme that starts at `start`, if it has one: the scan
/// must match, the text must convert, and the value must be finite.
pub open spec fn lexeme_value(s: Seq<u8>, start: int) -> Option<u64> {
    if scan_number(s, start).0 {
        match double_bits_of(s.subrange(start, scan_number(s, start).1)) {
            Some(b) => if finite_bits(b) {
                Some(b)
            } else {
                None
            },
            None => None,
        }
    } else {
        None
    }
}

/// Where the number token read by a parse that begins at `p` starts: at the
/// end of the leading whitespace run. Errors are reported at this offset.
pub open spec fn token_start(s: Seq<u8>, p: int) -> int {
    space_run_end(s, p)
}

/// The value read by a number parse that begins at `p`, if any.
pub open spec fn number_value(s: Seq<u8>, p: int) -> Option<u64> {
    if token_start(s, p) >= s.len() {
        None
    } else {
        lexeme_value(s, token_start(s, p))
    }
}

/// The cursor offset after a number parse that begins at `p`, whether the
/// parse succeeded or failed.
pub open spec fn number_end(s: Seq<u8>, p: int) -> int {
    if token_start(s, p) >= s.len() {
        token_start(s, p)
    } else {
        scan_number(s, token_start(s, p)).1
    }
}

impl Stream {
    /// Scans one number lexeme and converts it: the grammar pass, then the
    /// standard decimal conversion, rejecting non-finite values. On failure
    /// the cursor is left wherever the scan stopped.
    fn parse_number_impl(&mut self) -> (r: Result<Number, Error>)
        requires
            old(self).wf(),
            old(self).offset() < old(self).bytes().len(),
        ensures
            final(self).wf(),
            final(self).bytes() == old(self).bytes(),
            final(self).offset() == scan_number(old(self).bytes(), old(self).offset()).1,
            match r {
                Ok(n) => lexeme_value(old(self).bytes(), old(self).offset()) == Some(n.spec_bits()),
                Err(_) => lexeme_value(old(self).bytes(), old(self).offset()) is None,
            },
    {
        let start = self.pos();

        let mut c = match self.curr_byte() {
            Ok(b) => b,
            Err(e) => {
                return Err(e);
            },
        };

        // Consume the sign.
        if is_sign_byte(c) {
            self.advance(1);
            c = match self.curr_byte() {
                Ok(b) => b,
                Err(e) => {
                    return Err(e);
                },
            };
        }

        // Consume the integer part; a number without one must lead with a dot.
        if is_digit_byte(c) {
            self.skip_digits();
        } else if c == DOT {
            // the fraction part below consumes the dot
        } else {
            return Err(Error::InvalidNumber(0));
        }

        // Consume the fraction part.
        match self.curr_byte() {
            Ok(b) => {
                if b == DOT {
                    self.advance(1);
                    self.skip_digits();
                }
            },
            Err(_) => {},
        }

        // Consume the exponent part.
        match self.curr_byte() {
            Ok(b) => {
                if b == EXP_LOWER || b == EXP_UPPER {
                    let c2 = match self.next_byte() {
                        Ok(b2) => b2,
                        Err(e) => {
                            return Err(e);
                        },
                    };
                    // An `e` before `m` or `x` starts an `em`/`ex` unit
                    // suffix and is not part of the number.
                    if c2 != UNIT_M && c2 != UNIT_X {
                        self.advance(1);
                        if is_sign_byte(c2) {
                            self.advance(1);
                            let c3 = match self.curr_byte() {
                                Ok(b3) => b3,
                                Err(e) => {
                                    return Err(e);
                                },
                            };
                            if is_digit_byte(c3) {
                                self.skip_digits();
                            } else {
                                return Err(Error::InvalidNumber(0));
                            }
                        } else if is_digit_byte(c2) {
                            self.skip_digits();
                        } else {
                            return Err(Error::InvalidNumber(0));
                        }
                    }
                }
            },
            Err(_) => {},
        }

        // Slice the lexeme and convert it with the standard decimal parser.
        let lexeme = self.slice_back(start);
        match parse_double_bits(lexeme.as_slice()) {
            Some(bits) => {
                if (bits >> 52) & 0x7ff != 0x7ff {
                    Ok(Number { bits })
                } else {
                    // Infinities (from overflow) and NaN are an error.
                    Err(Error::InvalidNumber(0))
                }
            },
            None => Err(Error::InvalidNumber(0)),
        }
    }

    /// Parses a number from the stream: leading whitespace, then the lexeme.
    ///
    /// Every failure is reported as `InvalidNumber` at the position where
    /// the token was expected (after the leading whitespace), however far
    /// the scan itself had come.
    pub fn parse_number(&mut self) -> (r: Result<Number, Error>)
        requires
            old(self).wf(),
        ensures
            final(self).wf(),
            final(self).bytes() == old(self).bytes(),
            final(self).offset() == number_end(old(self).bytes(), old(self).offset()),
            match r {
                Ok(n) => number_value(old(self).bytes(), old(self).offset()) == Some(
                    n.spec_bits(),
                ),
                Err(e) => number_value(old(self).bytes(), old(self).offset()) is None && e
                    == Error::InvalidNumber(
                    char_pos(
                        old(self).bytes(),
                        token_start(old(self).bytes(), old(self).offset()),
                    ),
                ),
            },
    {
        // Strip off leading whitespace.
        self.skip_spaces();

        let start = self.pos();

        if self.at_end() {
            return Err(Error::InvalidNumber(self.calc_char_pos_at(start)));
        }

        match self.parse_number_impl() {
            Ok(n) => Ok(n),
            Err(_) => Err(Error::InvalidNumber(self.calc_char_pos_at(start))),
        }
    }
}

/// An [SVG number](https://www.w3.org/TR/SVG2/types.html#InterfaceSVGNumber):
/// a finite IEEE-754 binary64 value, held as its bit pattern. NaN and the
/// infinities are never representable.
#[derive(Clone, Copy, PartialEq, Eq, Debug, Structural)]
pub struct Number {
    bits: u64,
}

impl Number {
    /// The IEEE-754 binary64 bit pattern of the value.
    pub closed spec fn spec_bits(&self) -> u64 {
        self.bits
    }

    /// Every `Number` holds a finite value.
    pub open spec fn is_finite(&self) -> bool {
        finite_bits(self.spec_bits())
    }

    /// The IEEE-754 binary64 bit pattern of the value.
    pub fn bits(&self) -> (r: u64)
        ensures
            r == self.spec_bits(),
    {
        self.bits
    }

    /// Wraps a bit pattern; `None` when it is NaN or an infinity.
    pub fn from_bits(bits: u64) -> (r: Option<Number>)
        ensures
            match r {
                Some(n) => finite_bits(bits) && n.spec_bits() == bits,
                None => !finite_bits(bits),
            },
    {
        if (bits >> 52) & 0x7ff != 0x7ff {
            Some(Number { bits })
        } else {
            None
        }
    }

    /// Parses the whole of `text`, allowing surrounding whitespace, as
    /// exactly one number. Any non-whitespace remainder is `UnexpectedData`
    /// at its first character.
    pub fn from_str(text: &str) -> (r: Result<Number, Error>)
        ensures
            ({
                let s = text.spec_bytes();
                match r {
                    Ok(n) => number_value(s, 0) == Some(n.spec_bits()) && space_run_end(
                        s,
                        number_end(s, 0),
                    ) == s.len(),
                    Err(e) => match e {
                        Error::InvalidNumber(p) => number_value(s, 0) is None && p == char_pos(
                            s,
                            token_start(s, 0),
                        ),
                        Error::UnexpectedData(p) => number_value(s, 0) is Some && space_run_end(
                            s,
                            number_end(s, 0),
                        ) < s.len() && p == char_pos(s, space_run_end(s, number_end(s, 0))),
                        Error::UnexpectedEndOfStream => false,
                    },
                }
            }),
    {
        let mut s = Stream::from(text);
        let n = match s.parse_number() {
            Ok(n) => n,
            Err(e) => {
                return Err(e);
            },
        };
        s.skip_spaces();
        if !s.at_end() {
            return Err(Error::UnexpectedData(s.calc_char_pos()));
        }
        Ok(n)
    }
}

/// Law: for every lexeme the grammar accepts whose standard decimal value
/// is finite, a parse that starts anywhere in the whitespace before the
/// lexeme returns exactly that value.
pub proof fn lemma_parse_is_standard_value(s: Seq<u8>, p: int, b: u64)
    requires
        token_start(s, p) < s.len(),
        scan_number(s, token_start(s, p)).0,
        double_bits_of(s.subrange(token_start(s, p), scan_number(s, token_start(s, p)).1))
            == Some(b),
        finite_bits(b),
    ensures
        number_value(s, p) == Some(b),
{
}

/// Skipping a whitespace run leaves nothing more to skip.
proof fn lemma_space_run_end_idempotent(s: Seq<u8>, i: int)
    ensures
        space_run_end(s, space_run_end(s, i)) == space_run_end(s, i),
    decreases s.len() - i,
{
    if 0 <= i < s.len() && is_space(s[i]) {
        lemma_space_run_end_idempotent(s, i + 1);
    }
}

/// Law: whitespace before a number is ignored — a parse that begins
/// anywhere in the leading whitespace run reads the same value as one that
/// begins at the token itself.
pub proof fn lemma_leading_whitespace_ignored(s: Seq<u8>, p: int)
    ensures
        number_value(s, p) == number_value(s, token_start(s, p)),
{
    lemma_space_run_end_idempotent(s, p);
}

/// Law: a parsed number is always finite — a lexeme whose value overflows
/// is rejected as invalid, never returned as an infinity or NaN.
pub proof fn lemma_parsed_value_finite(s: Seq<u8>, p: int)
    ensures
        number_value(s, p) matches Some(b) ==> finite_bits(b),
{
}

/// A matched exponent part never moves the cursor backwards and never
/// passes the end of the buffer.
proof fn lemma_scan_exponent_bounds(s: Seq<u8>, i: int)
    requires
        0 <= i <= s.len(),
    ensures
        scan_exponent(s, i).0 ==> i <= scan_exponent(s, i).1 <= s.len(),
{
    if i < s.len() && (s[i] == EXP_LOWER || s[i] == EXP_UPPER) && i + 1 < s.len() {
        if is_sign(s[i + 1]) {
            if i + 2 < s.len() && is_digit(s[i + 2]) {
                lemma_digit_run_end_bounds(s, i + 2);
            }
        } else if is_digit(s[i + 1]) {
            lemma_digit_run_end_bounds(s, i + 1);
        }
    }
}

/// A matched fraction-and-exponent part never moves the cursor backwards
/// and never passes the end of the buffer.
proof fn lemma_scan_fraction_bounds(s: Seq<u8>, i: int)
    requires
        0 <= i <= s.len(),
    ensures
        scan_fraction(s, i).0 ==> i <= scan_fraction(s, i).1 <= s.len(),
{
    if i < s.len() && s[i] == DOT {
        lemma_digit_run_end_bounds(s, i + 1);
        lemma_scan_exponent_bounds(s, digit_run_end(s, i + 1));
    } else {
        lemma_scan_exponent_bounds(s, i);
    }
}

/// A matched lexeme is never empty: the scan consumes at least one byte and
/// never passes the end of the buffer.
proof fn lemma_scan_number_progress(s: Seq<u8>, start: int)
    requires
        0 <= start < s.len(),
    ensures
        scan_number(s, start).0 ==> start < scan_number(s, start).1 <= s.len(),
{
    let i = if is_sign(s[start]) {
        start + 1
    } else {
        start
    };
    if i < s.len() {
        if is_digit(s[i]) {
            lemma_digit_run_end_bounds(s, i + 1);
            lemma_scan_fraction_bounds(s, digit_run_end(s, i));
        } else if s[i] == DOT {
            lemma_digit_run_end_bounds(s, i + 1);
            lemma_scan_exponent_bounds(s, digit_run_end(s, i + 1));
        }
    }
}

/// Law: a list step that reads a number consumes at least one byte, so a
/// caller that pulls items one after another always reaches the end of the
/// buffer: the lazy sequence terminates.
pub proof fn lemma_list_step_progress(s: Seq<u8>, p: int)
    requires
        0 <= p <= s.len(),
        number_value(s, p) is Some,
    ensures
        p < list_number_end(s, p) <= s.len(),
{
    lemma_space_run_end_bounds(s, p);
    let w = token_start(s, p);
    lemma_scan_number_progress(s, w);
    lemma_space_run_end_bounds(s, scan_number(s, w).1);
}

/// Where the cursor stops after the optional list separator at `i`: one
/// comma is consumed if it is there.
pub open spec fn sep_end(s: Seq<u8>, i: int) -> int {
    if i < s.len() && s[i] == COMMA {
        i + 1
    } else {
        i
    }
}

/// The cursor offset after a whole list-item parse that begins at `p`: the
/// number, the whitespace after it, and the optional comma.
pub open spec fn list_number_end(s: Seq<u8>, p: int) -> int {
    sep_end(s, space_run_end(s, number_end(s, p)))
}

impl Stream {
    /// Consumes the optional single comma that separates list entries.
    /// Never fails; a malformed or absent next item is detected by the next
    /// number parse.
    pub fn parse_list_separator(&mut self)
        requires
            old(self).wf(),
        ensures
            final(self).wf(),
            final(self).bytes() == old(self).bytes(),
            final(self).offset() == sep_end(old(self).bytes(), old(self).offset()),
    {
        match self.curr_byte() {
            Ok(b) => {
                if b == COMMA {
                    self.advance(1);
                }
            },
            Err(_) => {},
        }
    }

    /// Parses a number in list context: the number itself, then the
    /// whitespace and the optional comma that separate it from the next one.
    pub fn parse_list_number(&mut self) -> (r: Result<Number, Error>)
        requires
            old(self).wf(),
        ensures
            final(self).wf(),
            final(self).bytes() == old(self).bytes(),
            ({
                let s = old(self).bytes();
                let p = old(self).offset();
                if p == s.len() {
                    r == Err::<Number, Error>(Error::UnexpectedEndOfStream) && final(self).offset()
                        == p
                } else {
                    match r {
                        Ok(n) => number_value(s, p) == Some(n.spec_bits()) && final(self).offset()
                            == list_number_end(s, p),
                        Err(e) => number_value(s, p) is None && e == Error::InvalidNumber(
                            char_pos(s, token_start(s, p)),
                        ) && final(self).offset() == number_end(s, p),
                    }
                }
            }),
    {
        if self.at_end() {
            return Err(Error::UnexpectedEndOfStream);
        }

        let n = match self.parse_number() {
            Ok(n) => n,
            Err(e) => {
                return Err(e);
            },
        };
        self.skip_spaces();
        self.parse_list_separator();
        Ok(n)
    }
}

/// A pull-based parser for an [SVG `<list-of-numbers>`]: a lazy, single-pass,
/// non-restartable sequence of numbers separated by whitespace and commas.
///
/// The sequence yields at most one error, always as its final item: an error
/// forces the cursor to the end of the buffer, and at the end of the buffer
/// `next` yields nothing, forever.
///
/// [SVG `<list-of-numbers>`]: https://www.w3.org/TR/SVG2/types.html#InterfaceSVGNumberList
pub struct NumberListParser {
    stream: Stream,
}

impl NumberListParser {
    /// The bytes of the buffer being parsed.
    pub closed spec fn bytes(&self) -> Seq<u8> {
        self.stream.bytes()
    }

    /// The current byte offset into the buffer.
    pub closed spec fn offset(&self) -> int {
        self.stream.offset()
    }

    /// The position never passes the end of the buffer.
    pub open spec fn wf(&self) -> bool {
        0 <= self.offset() <= self.bytes().len()
    }

    /// A list parser at the start of `text`.
    pub fn from(text: &str) -> (r: NumberListParser)
        ensures
            r.wf(),
            r.bytes() == text.spec_bytes(),
            r.offset() == 0,
    {
        NumberListParser { stream: Stream::from(text) }
    }

    /// Yields the next number of the list, an error, or `None` when the
    /// sequence has terminated.
    ///
    /// At the end of the buffer nothing is yielded and the state no longer
    /// changes; an error moves the cursor to the end of the buffer, so the
    /// sequence yields at most one error, always as its final item, and
    /// nothing after it.
    pub fn next(&mut self) -> (r: Option<Result<Number, Error>>)
        requires
            old(self).wf(),
        ensures
            final(self).wf(),
            final(self).bytes() == old(self).bytes(),
            ({
                let s = old(self).bytes();
                let p = old(self).offset();
                if p == s.len() {
                    r is None && final(self).offset() == p
                } else {
                    match r {
                        Some(item) => match item {
                            Ok(n) => number_value(s, p) == Some(n.spec_bits())
                                && final(self).offset() == list_number_end(s, p)
                                && p < final(self).offset(),
                            Err(e) => number_value(s, p) is None && e == Error::InvalidNumber(
                                char_pos(s, token_start(s, p)),
                            ) && final(self).offset() == s.len(),
                        },
                        None => false,
                    }
                }
            }),
    {
        let ghost s = self.bytes();
        let ghost p = self.offset();
        if self.stream.at_end() {
            None
        } else {
            match self.stream.parse_list_number() {
                Ok(n) => {
                    proof {
                        lemma_list_step_progress(s, p);
                    }
                    Some(Ok(n))
                },
                Err(e) => {
                    // One error terminates the sequence for good.
                    self.stream.jump_to_end();
                    Some(Err(e))
                },
            }
        }
    }
}

} // verus!
