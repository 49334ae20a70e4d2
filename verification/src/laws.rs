//! Library-wide laws.
//!
//! The public proof functions here state the relationships the library
//! promises between its parser, its writer and a row's own rendering:
//! writing a row and parsing the result gives the row's fields back, and
//! the writer's byte output is the row's text rendering plus the line
//! terminator.

use crate::escape::double_quotes;
use crate::escape::escape_field;
use crate::escape::is_special;
use crate::escape::needs_quoting;
use crate::escape::render_record;
use crate::escape::write_record;
use crate::doc::row_views;
use crate::parser::ParseState;
use crate::parser::record_from;
use crate::parser::spec_parse_record;
use crate::reader::spec_entries;
use crate::row::CR_BYTE;
use crate::row::LF_BYTE;
use crate::row::QUOTE_BYTE;
use crate::row::Row;
use crate::writer::effective_delim;
use crate::writer::write_rows;
use vstd::prelude::*;

verus! {

/// Scanning a run of ordinary bytes (no quote, separator or line break)
/// outside quotes appends them to the pending field.
proof fn lemma_scan_plain(
    input: Seq<u8>,
    i: int,
    j: int,
    st: ParseState,
    field: Seq<u8>,
    acc: Seq<Seq<u8>>,
    delim: u8,
)
    requires
        0 <= i <= j <= input.len(),
        forall|k: int| i <= k < j ==> !is_special(#[trigger] input[k], delim),
        st == ParseState::FieldStart || st == ParseState::Unquoted,
    ensures
        record_from(input, i, st, field, acc, delim) == record_from(
            input,
            j,
            if i == j {
                st
            } else {
                ParseState::Unquoted
            },
            field + input.subrange(i, j),
            acc,
            delim,
        ),
    decreases j - i,
{
    if i == j {
        assert(field + input.subrange(i, j) =~= field);
    } else {
        let b = input[i];
        assert(!is_special(b, delim));
        lemma_scan_plain(input, i + 1, j, ParseState::Unquoted, field.push(b), acc, delim);
        assert(field.push(b) + input.subrange(i + 1, j) =~= field + input.subrange(i, j));
    }
}

/// Scanning the quote-doubled image of `f` inside a quoted field appends
/// exactly `f` to the pending field and stays inside the quotes.
proof fn lemma_scan_quoted(
    input: Seq<u8>,
    i: int,
    f: Seq<u8>,
    field: Seq<u8>,
    acc: Seq<Seq<u8>>,
    delim: u8,
)
    requires
        0 <= i,
        i + double_quotes(f).len() <= input.len(),
        forall|k: int|
            i <= k < i + double_quotes(f).len() ==> #[trigger] input[k] == double_quotes(f)[k - i],
    ensures
        record_from(input, i, ParseState::Quoted, field, acc, delim) == record_from(
            input,
            i + double_quotes(f).len(),
            ParseState::Quoted,
            field + f,
            acc,
            delim,
        ),
    decreases f.len(),
{
    let dq = double_quotes(f);
    if f.len() == 0 {
        assert(field + f =~= field);
    } else if f[0] == QUOTE_BYTE {
        let rest = double_quotes(f.skip(1));
        assert(dq == seq![QUOTE_BYTE, QUOTE_BYTE] + rest);
        assert(input[i] == dq[0]);
        assert(dq[0] == QUOTE_BYTE);
        assert(input[i + 1] == dq[1]);
        assert(dq[1] == QUOTE_BYTE);
        assert forall|k: int| i + 2 <= k < i + 2 + rest.len() implies #[trigger] input[k] == rest[k
            - (i + 2)] by {
            assert(input[k] == dq[k - i]);
            assert(dq[k - i] == rest[k - i - 2]);
        }
        assert(record_from(input, i, ParseState::Quoted, field, acc, delim) == record_from(
            input,
            i + 1,
            ParseState::QuotedQuote,
            field,
            acc,
            delim,
        ));
        assert(record_from(input, i + 1, ParseState::QuotedQuote, field, acc, delim)
            == record_from(input, i + 2, ParseState::Quoted, field.push(QUOTE_BYTE), acc, delim));
        lemma_scan_quoted(input, i + 2, f.skip(1), field.push(QUOTE_BYTE), acc, delim);
        assert(field.push(QUOTE_BYTE) + f.skip(1) =~= field + f);
        assert(i + dq.len() == (i + 2) + rest.len());
    } else {
        let rest = double_quotes(f.skip(1));
        assert(dq == seq![f[0]] + rest);
        assert(input[i] == dq[0]);
        assert(dq[0] == f[0]);
        assert forall|k: int| i + 1 <= k < i + 1 + rest.len() implies #[trigger] input[k] == rest[k
            - (i + 1)] by {
            assert(input[k] == dq[k - i]);
            assert(dq[k - i] == rest[k - i - 1]);
        }
        assert(record_from(input, i, ParseState::Quoted, field, acc, delim) == record_from(
            input,
            i + 1,
            ParseState::Quoted,
            field.push(f[0]),
            acc,
            delim,
        ));
        lemma_scan_quoted(input, i + 1, f.skip(1), field.push(f[0]), acc, delim);
        assert(field.push(f[0]) + f.skip(1) =~= field + f);
        assert(i + dq.len() == (i + 1) + rest.len());
    }
}

/// Scanning the rendering of `fields` followed by a line terminator, from
/// the start of a field, completes the record with exactly those fields.
proof fn lemma_scan_record(
    input: Seq<u8>,
    i: int,
    fields: Seq<Seq<u8>>,
    acc: Seq<Seq<u8>>,
    delim: u8,
)
    requires
        fields.len() >= 1,
        delim != QUOTE_BYTE,
        delim != CR_BYTE,
        delim != LF_BYTE,
        0 <= i,
        i + render_record(fields, delim).len() + 2 <= input.len(),
        forall|k: int|
            i <= k < i + render_record(fields, delim).len() + 2 ==> #[trigger] input[k] == (
            render_record(fields, delim) + seq![CR_BYTE, LF_BYTE])[k - i],
    ensures
        record_from(input, i, ParseState::FieldStart, Seq::empty(), acc, delim) == Some(
            (acc + fields, i + render_record(fields, delim).len() + 2),
        ),
    decreases fields.len(),
{
    let f0 = fields[0];
    let e = escape_field(f0, delim);
    let r = render_record(fields, delim);
    let x = r + seq![CR_BYTE, LF_BYTE];
    let e_len = e.len() as int;
    if fields.len() > 1 {
        assert(r == e + seq![delim] + render_record(fields.skip(1), delim));
    } else {
        assert(r == e);
    }
    assert forall|k: int| 0 <= k < e_len implies r[k] == e[k] by {
        if fields.len() > 1 {
            assert(r[k] == (e + seq![delim])[k]);
        }
    }
    assert forall|k: int| i <= k < i + e_len implies #[trigger] input[k] == e[k - i] by {
        assert(input[k] == x[k - i]);
        assert(x[k - i] == r[k - i]);
    }
    if needs_quoting(f0, delim) {
        let dq = double_quotes(f0);
        let len_q = dq.len() as int;
        assert(e == seq![QUOTE_BYTE] + dq + seq![QUOTE_BYTE]);
        assert(e.len() == len_q + 2);
        assert(e[0] == QUOTE_BYTE);
        assert(input[i] == e[0]);
        assert(record_from(input, i, ParseState::FieldStart, Seq::empty(), acc, delim)
            == record_from(input, i + 1, ParseState::Quoted, Seq::empty(), acc, delim));
        assert forall|k: int|
            i + 1 <= k < i + 1 + double_quotes(f0).len() implies #[trigger] input[k]
            == double_quotes(f0)[k - (i + 1)] by {
            assert(input[k] == e[k - i]);
            assert(e[k - i] == (seq![QUOTE_BYTE] + dq)[k - i]);
            assert((seq![QUOTE_BYTE] + dq)[k - i] == dq[k - i - 1]);
        }
        lemma_scan_quoted(input, i + 1, f0, Seq::empty(), acc, delim);
        assert(Seq::<u8>::empty() + f0 =~= f0);
        assert(record_from(input, i + 1, ParseState::Quoted, Seq::empty(), acc, delim)
            == record_from(input, i + 1 + len_q, ParseState::Quoted, f0, acc, delim));
        assert(e[1 + len_q] == QUOTE_BYTE);
        assert(input[i + 1 + len_q] == e[1 + len_q]);
        assert(record_from(input, i + 1 + len_q, ParseState::Quoted, f0, acc, delim)
            == record_from(input, i + 2 + len_q, ParseState::QuotedQuote, f0, acc, delim));
        if fields.len() == 1 {
            assert(input[i + e_len] == x[e_len]);
            assert(x[e_len] == CR_BYTE);
            assert(record_from(input, i + 2 + len_q, ParseState::QuotedQuote, f0, acc, delim)
                == record_from(input, i + 3 + len_q, ParseState::Unquoted, f0, acc, delim));
            assert(input[i + e_len + 1] == x[e_len + 1]);
            assert(x[e_len + 1] == LF_BYTE);
            assert(record_from(input, i + 3 + len_q, ParseState::Unquoted, f0, acc, delim) == Some(
                (acc.push(f0), i + 4 + len_q),
            ));
            assert(acc.push(f0) =~= acc + fields);
            assert(i + 4 + len_q == i + r.len() + 2);
        } else {
            let rest = fields.skip(1);
            let rr = render_record(rest, delim);
            assert(input[i + e_len] == x[e_len]);
            assert(x[e_len] == r[e_len]);
            assert(r[e_len] == (e + seq![delim])[e_len]);
            assert(r[e_len] == delim);
            assert(record_from(input, i + 2 + len_q, ParseState::QuotedQuote, f0, acc, delim)
                == record_from(
                input,
                i + 3 + len_q,
                ParseState::FieldStart,
                Seq::empty(),
                acc.push(f0),
                delim,
            ));
            let j = i + e_len + 1;
            assert forall|k: int| j <= k < j + rr.len() + 2 implies #[trigger] input[k] == (rr
                + seq![CR_BYTE, LF_BYTE])[k - j] by {
                assert(input[k] == x[k - i]);
                if k - j < rr.len() {
                    assert(x[k - i] == r[k - i]);
                    assert(r[k - i] == ((e + seq![delim]) + rr)[k - i]);
                    assert(((e + seq![delim]) + rr)[k - i] == rr[k - i - (e_len + 1)]);
                    assert((rr + seq![CR_BYTE, LF_BYTE])[k - j] == rr[k - j]);
                } else {
                    assert(x[k - i] == seq![CR_BYTE, LF_BYTE][k - i - r.len()]);
                    assert((rr + seq![CR_BYTE, LF_BYTE])[k - j] == seq![CR_BYTE, LF_BYTE][k - j
                        - rr.len()]);
                }
            }
            lemma_scan_record(input, j, rest, acc.push(f0), delim);
            assert(acc.push(f0) + rest =~= acc + fields);
        }
    } else {
        assert(e == f0);
        let j = i + f0.len() as int;
        assert forall|k: int| i <= k < j implies !is_special(#[trigger] input[k], delim) by {
            assert(input[k] == e[k - i]);
            assert(!is_special(f0[k - i], delim));
        }
        lemma_scan_plain(input, i, j, ParseState::FieldStart, Seq::empty(), acc, delim);
        assert(Seq::<u8>::empty() + input.subrange(i, j) =~= input.subrange(i, j));
        assert(input.subrange(i, j) =~= f0) by {
            assert forall|k: int| 0 <= k < f0.len() implies input.subrange(i, j)[k] == f0[k] by {
                assert(input[i + k] == e[i + k - i]);
            }
        }
        let st1 = if i == j {
            ParseState::FieldStart
        } else {
            ParseState::Unquoted
        };
        assert(record_from(input, i, ParseState::FieldStart, Seq::empty(), acc, delim)
            == record_from(input, j, st1, f0, acc, delim));
        if fields.len() == 1 {
            assert(input[i + e_len] == x[e_len]);
            assert(x[e_len] == CR_BYTE);
            assert(record_from(input, j, st1, f0, acc, delim) == record_from(
                input,
                j + 1,
                st1,
                f0,
                acc,
                delim,
            ));
            assert(input[i + e_len + 1] == x[e_len + 1]);
            assert(x[e_len + 1] == LF_BYTE);
            assert(record_from(input, j + 1, st1, f0, acc, delim) == Some((acc.push(f0), j + 2)));
            assert(acc.push(f0) =~= acc + fields);
            assert(j + 2 == i + r.len() + 2);
        } else {
            let rest = fields.skip(1);
            let rr = render_record(rest, delim);
            assert(input[i + e_len] == x[e_len]);
            assert(x[e_len] == r[e_len]);
            assert(r[e_len] == (e + seq![delim])[e_len]);
            assert(r[e_len] == delim);
            assert(record_from(input, j, st1, f0, acc, delim) == record_from(
                input,
                j + 1,
                ParseState::FieldStart,
                Seq::empty(),
                acc.push(f0),
                delim,
            ));
            let j1 = j + 1;
            assert forall|k: int| j1 <= k < j1 + rr.len() + 2 implies #[trigger] input[k] == (rr
                + seq![CR_BYTE, LF_BYTE])[k - j1] by {
                assert(input[k] == x[k - i]);
                if k - j1 < rr.len() {
                    assert(x[k - i] == r[k - i]);
                    assert(r[k - i] == ((e + seq![delim]) + rr)[k - i]);
                    assert(((e + seq![delim]) + rr)[k - i] == rr[k - i - (e_len + 1)]);
                    assert((rr + seq![CR_BYTE, LF_BYTE])[k - j1] == rr[k - j1]);
                } else {
                    assert(x[k - i] == seq![CR_BYTE, LF_BYTE][k - i - r.len()]);
                    assert((rr + seq![CR_BYTE, LF_BYTE])[k - j1] == seq![CR_BYTE, LF_BYTE][k - j1
                        - rr.len()]);
                }
            }
            lemma_scan_record(input, j1, rest, acc.push(f0), delim);
            assert(acc.push(f0) + rest =~= acc + fields);
        }
    }
}

/// Round trip: a row of at least one field, written out with a separator
/// that is not the quote or a line-break byte, parses back to exactly the
/// fields it was built from, consuming the whole written record.
pub proof fn lemma_round_trip(fields: Seq<Seq<u8>>, delim: u8)
    requires
        fields.len() >= 1,
        delim != QUOTE_BYTE,
        delim != CR_BYTE,
        delim != LF_BYTE,
    ensures
        spec_parse_record(write_record(fields, delim), 0, delim) == Some(
            (fields, write_record(fields, delim).len() as int),
        ),
{
    let input = write_record(fields, delim);
    lemma_scan_record(input, 0, fields, Seq::empty(), delim);
    assert(Seq::<Seq<u8>>::empty() + fields =~= fields);
}

/// The bytes of each record of `rows` written out one after another.
pub open spec fn write_stream(rows: Seq<Seq<Seq<u8>>>, delim: u8) -> Seq<u8>
    decreases rows.len(),
{
    if rows.len() == 0 {
        Seq::empty()
    } else {
        write_record(rows[0], delim) + write_stream(rows.skip(1), delim)
    }
}

/// Repeated parsing of a written stream of records, from position `i`,
/// yields exactly those records.
proof fn lemma_entries_from(input: Seq<u8>, i: int, rows: Seq<Seq<Seq<u8>>>, delim: u8)
    requires
        forall|j: int| 0 <= j < rows.len() ==> (#[trigger] rows[j]).len() >= 1,
        delim != QUOTE_BYTE,
        delim != CR_BYTE,
        delim != LF_BYTE,
        0 <= i <= input.len(),
        input.len() - i == write_stream(rows, delim).len(),
        forall|k: int|
            i <= k < input.len() ==> #[trigger] input[k] == write_stream(rows, delim)[k - i],
    ensures
        spec_entries(input, i, delim) == rows,
    decreases rows.len(),
{
    let ws = write_stream(rows, delim);
    if rows.len() == 0 {
        assert(spec_entries(input, i, delim) =~= rows);
    } else {
        let f0 = rows[0];
        let w0 = write_record(f0, delim);
        let r0 = render_record(f0, delim);
        let rest = write_stream(rows.skip(1), delim);
        assert(ws == w0 + rest);
        assert(w0 == r0 + seq![CR_BYTE, LF_BYTE]);
        assert forall|k: int|
            i <= k < i + r0.len() + 2 implies #[trigger] input[k] == (r0 + seq![
            CR_BYTE,
            LF_BYTE,
        ])[k - i] by {
            assert(input[k] == ws[k - i]);
            assert(ws[k - i] == w0[k - i]);
        }
        lemma_scan_record(input, i, f0, Seq::empty(), delim);
        assert(Seq::<Seq<u8>>::empty() + f0 =~= f0);
        let j = i + r0.len() + 2;
        assert(spec_parse_record(input, i, delim) == Some((f0, j)));
        assert forall|k: int| j <= k < input.len() implies #[trigger] input[k] == rest[k - j] by {
            assert(input[k] == ws[k - i]);
            assert(ws[k - i] == rest[k - i - w0.len()]);
        }
        lemma_entries_from(input, j, rows.skip(1), delim);
        assert(spec_entries(input, i, delim) == seq![f0] + spec_entries(input, j, delim));
        assert(seq![f0] + rows.skip(1) =~= rows);
    }
}

/// Stream round trip: any sequence of records, each with at least one
/// field, written out one after another with a separator that is not the
/// quote or a line-break byte, parses back to exactly those records.
pub proof fn lemma_stream_round_trip(rows: Seq<Seq<Seq<u8>>>, delim: u8)
    requires
        forall|j: int| 0 <= j < rows.len() ==> (#[trigger] rows[j]).len() >= 1,
        delim != QUOTE_BYTE,
        delim != CR_BYTE,
        delim != LF_BYTE,
    ensures
        spec_entries(write_stream(rows, delim), 0, delim) == rows,
{
    lemma_entries_from(write_stream(rows, delim), 0, rows, delim);
}

/// What `write_all` appends is the written stream of the rows' fields,
/// whenever every row is written with the separator `delim` (the writer's
/// override, or each row's own separator).
pub proof fn lemma_write_all_stream(rows: Seq<Row>, opt: Option<u8>, delim: u8)
    requires
        forall|j: int| 0 <= j < rows.len() ==> effective_delim(opt, #[trigger] rows[j]) == delim,
    ensures
        write_rows(rows, opt) == write_stream(row_views(rows), delim),
    decreases rows.len(),
{
    if rows.len() == 0 {
        assert(write_rows(rows, opt) =~= write_stream(row_views(rows), delim));
    } else {
        assert(row_views(rows)[0] == rows[0]@);
        assert(row_views(rows.skip(1)) =~= row_views(rows).skip(1));
        lemma_write_all_stream(rows.skip(1), opt, delim);
        assert(write_rows(rows, opt) == write_record(rows[0]@, delim) + write_rows(
            rows.skip(1),
            opt,
        ));
        assert(write_stream(row_views(rows), delim) == write_record(rows[0]@, delim)
            + write_stream(row_views(rows).skip(1), delim));
    }
}

/// Escaping consistency: what the writer appends for a row is exactly the
/// row's own text rendering followed by the carriage-return/line-feed
/// terminator, so the two code paths escape identically.
pub proof fn lemma_escaping_consistency(fields: Seq<Seq<u8>>, delim: u8)
    ensures
        write_record(fields, delim) == render_record(fields, delim) + seq![CR_BYTE, LF_BYTE],
{
}

} // verus!
