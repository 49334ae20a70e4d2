//! The record parser.
//!
//! [`read_fields`] consumes exactly one logical record from a byte buffer,
//! splitting it into a [`Row`].  A record normally ends at a line feed, but
//! a line feed inside a quoted field is data, so one record may span several
//! physical lines.  The whole state machine is written down as the spec
//! function [`record_from`], and `read_fields` is proved to compute exactly
//! what that function says.
//!
//! Quote handling follows the explicit tagged-state rule: only a quote in
//! leading position opens a quoted field; inside a quoted field a doubled
//! quote stands for one literal quote character and a single quote closes
//! the field.  A quote in the middle of an unquoted field is literal data.

use crate::errors::CsvError;
use crate::row::CR_BYTE;
use crate::row::DEFAULT_DELIM;
use crate::row::LF_BYTE;
use crate::row::QUOTE_BYTE;
use crate::row::Row;
use vstd::prelude::*;

verus! {

/// The parser's position within one field.
#[derive(Clone, Copy, Debug, PartialEq, Eq)]
pub enum ParseState {
    /// At the start of a field: nothing of the field has been read yet.
    FieldStart,
    /// Inside an unquoted field.
    Unquoted,
    /// Inside a quoted field: the opening quote has been read.
    Quoted,
    /// Inside a quoted field, just after a quote that either closes the
    /// field or is the first half of a doubled (escaped) quote.
    QuotedQuote,
}

/// What scanning `input` from position `i` in state `st` produces, given
/// the bytes `field` of the field read so far and the fields `acc` already
/// completed: the record's fields and the position just past the record, or
/// `None` when the input ends inside an open quote.
///
/// At the end of the input the pending field is flushed when it is
/// non-empty or when the very last byte was the separator (a trailing
/// separator yields one trailing empty field).
pub open spec fn record_from(
    input: Seq<u8>,
    i: int,
    st: ParseState,
    field: Seq<u8>,
    acc: Seq<Seq<u8>>,
    delim: u8,
) -> Option<(Seq<Seq<u8>>, int)>
    decreases input.len() - i,
{
    if i < 0 || i >= input.len() {
        if st is Quoted {
            None
        } else if field.len() > 0 || (input.len() > 0 && input[input.len() - 1] == delim) {
            Some((acc.push(field), input.len() as int))
        } else {
            Some((acc, input.len() as int))
        }
    } else {
        let b = input[i];
        match st {
            ParseState::FieldStart => if b == QUOTE_BYTE {
                record_from(input, i + 1, ParseState::Quoted, field, acc, delim)
            } else if b == delim {
                record_from(input, i + 1, ParseState::FieldStart, Seq::empty(), acc.push(field), delim)
            } else if b == LF_BYTE {
                Some((acc.push(field), i + 1))
            } else if b == CR_BYTE {
                record_from(input, i + 1, ParseState::FieldStart, field, acc, delim)
            } else {
                record_from(input, i + 1, ParseState::Unquoted, field.push(b), acc, delim)
            },
            ParseState::Unquoted => if b == delim {
                record_from(input, i + 1, ParseState::FieldStart, Seq::empty(), acc.push(field), delim)
            } else if b == LF_BYTE {
                Some((acc.push(field), i + 1))
            } else if b == CR_BYTE {
                record_from(input, i + 1, ParseState::Unquoted, field, acc, delim)
            } else {
                record_from(input, i + 1, ParseState::Unquoted, field.push(b), acc, delim)
            },
            ParseState::Quoted => if b == QUOTE_BYTE {
                record_from(input, i + 1, ParseState::QuotedQuote, field, acc, delim)
            } else {
                record_from(input, i + 1, ParseState::Quoted, field.push(b), acc, delim)
            },
            ParseState::QuotedQuote => if b == QUOTE_BYTE {
                record_from(input, i + 1, ParseState::Quoted, field.push(QUOTE_BYTE), acc, delim)
            } else if b == delim {
                record_from(input, i + 1, ParseState::FieldStart, Seq::empty(), acc.push(field), delim)
            } else if b == LF_BYTE {
                Some((acc.push(field), i + 1))
            } else if b == CR_BYTE {
                record_from(input, i + 1, ParseState::Unquoted, field, acc, delim)
            } else {
                record_from(input, i + 1, ParseState::Unquoted, field.push(b), acc, delim)
            },
        }
    }
}

/// What parsing one record of `input` from position `pos` produces.
pub open spec fn spec_parse_record(input: Seq<u8>, pos: int, delim: u8) -> Option<
    (Seq<Seq<u8>>, int),
> {
    record_from(input, pos, ParseState::FieldStart, Seq::empty(), Seq::empty(), delim)
}

/// Consumes exactly one record from `input`, starting at byte `pos`, with
/// the given field separator.  Returns the parsed row (whose own rendering
/// separator is the default one) and the position just past the record.
///
/// Fails with `RecordError` exactly when no record can be read: either
/// `pos` is already at the end of the input, or the input ends inside an
/// open quoted field.
pub fn read_fields(input: &Vec<u8>, pos: usize, delim: u8) -> (r: Result<
    (Row, usize),
    CsvError,
>)
    ensures
        match r {
            Ok((row, new_pos)) => {
                &&& spec_parse_record(input@, pos as int, delim) == Some(
                    (row@, new_pos as int),
                )
                &&& row.spec_delim() == DEFAULT_DELIM
                &&& pos < new_pos <= input@.len()
            },
            Err(e) => {
                &&& e is RecordError
                &&& (pos >= input@.len() || spec_parse_record(input@, pos as int, delim) is None)
            },
        },
{
    if pos >= input.len() {
        return Err(CsvError::RecordError("end of input".to_owned()));
    }
    let ghost input_s = input@;
    let mut row = Row::new();
    let mut field: Vec<u8> = Vec::new();
    let mut st = ParseState::FieldStart;
    let mut i: usize = pos;
    while i < input.len()
        invariant
            pos <= i <= input_s.len(),
            input_s == input@,
            row.spec_delim() == DEFAULT_DELIM,
            spec_parse_record(input_s, pos as int, delim) == record_from(
                input_s,
                i as int,
                st,
                field@,
                row@,
                delim,
            ),
        decreases input_s.len() - i,
    {
        let ghost old_i = i as int;
        let ghost old_st = st;
        let ghost old_field = field@;
        let ghost old_row = row@;
        let b = input[i];
        match st {
            ParseState::FieldStart => {
                if b == QUOTE_BYTE {
                    st = ParseState::Quoted;
                } else if b == delim {
                    row.add_bytes(field.as_slice());
                    field.clear();
                } else if b == LF_BYTE {
                    row.add_bytes(field.as_slice());
                    return Ok((row, i + 1));
                } else if b == CR_BYTE {
                } else {
                    field.push(b);
                    st = ParseState::Unquoted;
                }
            },
            ParseState::Unquoted => {
                if b == delim {
                    row.add_bytes(field.as_slice());
                    field.clear();
                    st = ParseState::FieldStart;
                } else if b == LF_BYTE {
                    row.add_bytes(field.as_slice());
                    return Ok((row, i + 1));
                } else if b == CR_BYTE {
                } else {
                    field.push(b);
                }
            },
            ParseState::Quoted => {
                if b == QUOTE_BYTE {
                    st = ParseState::QuotedQuote;
                } else {
                    field.push(b);
                }
            },
            ParseState::QuotedQuote => {
                if b == QUOTE_BYTE {
                    field.push(QUOTE_BYTE);
                    st = ParseState::Quoted;
                } else if b == delim {
                    row.add_bytes(field.as_slice());
                    field.clear();
                    st = ParseState::FieldStart;
                } else if b == LF_BYTE {
                    row.add_bytes(field.as_slice());
                    return Ok((row, i + 1));
                } else if b == CR_BYTE {
                    st = ParseState::Unquoted;
                } else {
                    field.push(b);
                    st = ParseState::Unquoted;
                }
            },
        }
        proof {
            assert(record_from(input_s, old_i, old_st, old_field, old_row, delim) == record_from(
                input_s,
                old_i + 1,
                st,
                field@,
                row@,
                delim,
            ));
        }
        i += 1;
    }
    match st {
        ParseState::Quoted => Err(CsvError::RecordError("unterminated quoted field".to_owned())),
        _ => {
            if field.len() > 0 || (input.len() > 0 && input[input.len() - 1] == delim) {
                row.add_bytes(field.as_slice());
            }
            Ok((row, i))
        },
    }
}

} // verus!
