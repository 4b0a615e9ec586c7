//! Lexical analyzer for the SVG "number" micro-syntax: a single-number
//! scanner over a byte cursor, a whole-string parser, and a pull-based
//! parser for comma/whitespace-separated number lists.

mod error;
mod number;
mod stream;

pub use error::Error;
pub use number::double_bits_of;
pub use number::finite_bits;
pub use number::lemma_leading_whitespace_ignored;
pub use number::lemma_list_step_progress;
pub use number::lemma_parse_is_standard_value;
pub use number::lemma_parsed_value_finite;
pub use number::lexeme_value;
pub use number::list_number_end;
pub use number::number_end;
pub use number::number_value;
pub use number::scan_exponent;
pub use number::scan_fraction;
pub use number::scan_number;
pub use number::sep_end;
pub use number::token_start;
pub use number::Number;
pub use number::NumberListParser;
pub use stream::char_count;
pub use stream::char_pos;
pub use stream::digit_run_end;
pub use stream::lemma_digit_run_end_bounds;
pub use stream::lemma_space_run_end_bounds;
pub use stream::is_continuation;
pub use stream::is_digit;
pub use stream::is_sign;
pub use stream::is_space;
pub use stream::space_run_end;
pub use stream::Stream;
