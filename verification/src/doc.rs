//! The in-memory document.
//!
//! A [`Document`] keeps an optional header row and a table of data rows in
//! memory, and offers lookups by column name, edits, and filtering.  Column
//! names are resolved against the header row's fields, decoded tolerantly;
//! when two columns carry the same name, the rightmost one wins.

use crate::errors::CsvError;
use crate::escape::write_record;
use crate::reader::Reader;
use crate::reader::spec_entries;
use crate::row::DEFAULT_DELIM;
use crate::row::FromRow;
use crate::row::Row;
use crate::text::lossy_of;
use crate::writer::Writer;
use crate::writer::write_rows;
use vstd::prelude::*;
use vstd::std_specs::vec::vec_index_mut;
use vstd::utf8::encode_utf8;

verus! {

/// The abstract content of a row: its fields and its separator.
pub open spec fn row_model(r: Row) -> (Seq<Seq<u8>>, u8) {
    (r@, r.spec_delim())
}

/// The abstract content of each row in a sequence.
pub open spec fn row_models(rows: Seq<Row>) -> Seq<(Seq<Seq<u8>>, u8)> {
    rows.map(|i: int, r: Row| row_model(r))
}

/// The fields of each row in a sequence.
pub open spec fn row_views(rows: Seq<Row>) -> Seq<Seq<Seq<u8>>> {
    rows.map(|i: int, r: Row| r@)
}

/// The index of the rightmost field of `fields` whose tolerantly decoded
/// text is `name`, if any.
pub open spec fn spec_col_of(fields: Seq<Seq<u8>>, name: Seq<char>) -> Option<int>
    decreases fields.len(),
{
    if fields.len() == 0 {
        None
    } else if lossy_of(fields.last()) == name {
        Some(fields.len() - 1)
    } else {
        spec_col_of(fields.drop_last(), name)
    }
}

/// Whether a row's field in column `col` reads, as text, exactly `value`.
pub open spec fn spec_matches(r: Row, col: int, value: Seq<char>) -> bool {
    0 <= col < r@.len() && lossy_of(r@[col]) == value
}

/// The abstract content of the rows of `rows` whose field in column `col`
/// does not read as `value`, in order.
pub open spec fn keep_not_matching(rows: Seq<Row>, col: int, value: Seq<char>) -> Seq<
    (Seq<Seq<u8>>, u8),
>
    decreases rows.len(),
{
    if rows.len() == 0 {
        Seq::empty()
    } else {
        let rest = keep_not_matching(rows.drop_last(), col, value);
        if spec_matches(rows.last(), col, value) {
            rest
        } else {
            rest.push(row_model(rows.last()))
        }
    }
}

/// The abstract content of the rows of `rows` whose field in column `col`
/// reads as `value`, in order.
pub open spec fn keep_matching(rows: Seq<Row>, col: int, value: Seq<char>) -> Seq<
    (Seq<Seq<u8>>, u8),
>
    decreases rows.len(),
{
    if rows.len() == 0 {
        Seq::empty()
    } else {
        let rest = keep_matching(rows.drop_last(), col, value);
        if spec_matches(rows.last(), col, value) {
            rest.push(row_model(rows.last()))
        } else {
            rest
        }
    }
}

/// A row's abstract content with the field in column `col` replaced by the
/// encoding of `value`; unchanged when no such field exists.
pub open spec fn spec_set_field(m: (Seq<Seq<u8>>, u8), col: int, value: Seq<char>) -> (
    Seq<Seq<u8>>,
    u8,
) {
    if 0 <= col < m.0.len() {
        (m.0.update(col, encode_utf8(value)), m.1)
    } else {
        m
    }
}

/// The abstract content of an optional row.
pub open spec fn opt_row_model(o: Option<Row>) -> Option<(Seq<Seq<u8>>, u8)> {
    match o {
        Some(r) => Some(row_model(r)),
        None => None,
    }
}

/// The column index that `name` resolves to against an optional header row.
pub open spec fn spec_find_column(headers: Option<Row>, name: Seq<char>) -> Option<int> {
    match headers {
        Some(h) => spec_col_of(h@, name),
        None => None,
    }
}

/// Resolves a column name against an optional header row.
fn find_column(headers: &Option<Row>, col_name: &str) -> (r: Option<usize>)
    ensures
        match r {
            Some(ix) => spec_find_column(*headers, col_name@) == Some(ix as int),
            None => spec_find_column(*headers, col_name@) is None,
        },
{
    let target: String = col_name.to_owned();
    match headers {
        Some(h) => {
            proof {
                assert(spec_find_column(*headers, col_name@) == spec_col_of(h@, col_name@));
            }
            let mut k = h.count();
            proof {
                assert(h@.subrange(0, h@.len() as int) =~= h@);
            }
            while k > 0
                invariant
                    k <= h@.len(),
                    target@ == col_name@,
                    spec_find_column(*headers, col_name@) == spec_col_of(h@, col_name@),
                    spec_col_of(h@, col_name@) == spec_col_of(
                        h@.subrange(0, k as int),
                        col_name@,
                    ),
                decreases k,
            {
                let i = k - 1;
                match h.get_value(i) {
                    Some(s) => {
                        if s == target {
                            proof {
                                assert(h@.subrange(0, k as int).last() == h@[i as int]);
                                assert(lossy_of(h@.subrange(0, k as int).last()) == col_name@);
                                assert(spec_col_of(h@.subrange(0, k as int), col_name@) == Some(
                                    i as int,
                                ));
                                assert(spec_col_of(h@, col_name@) == Some(i as int));
                            }
                            return Some(i);
                        } else {
                            proof {
                                assert(h@.subrange(0, k as int).drop_last() =~= h@.subrange(
                                    0,
                                    i as int,
                                ));
                                assert(h@.subrange(0, k as int).last() == h@[i as int]);
                            }
                        }
                    },
                    None => {
                        proof {
                            assert(false);
                        }
                    },
                }
                k = i;
            }
            proof {
                assert(h@.subrange(0, 0) =~= Seq::<Seq<u8>>::empty());
            }
            None
        },
        None => None,
    }
}

/// An in-memory table: an optional header row plus data rows.
#[derive(Debug, PartialEq)]
pub struct Document {
    headers: Option<Row>,
    rows: Vec<Row>,
}

impl Document {
    /// The document's header row, if it has one.
    pub closed spec fn spec_headers(&self) -> Option<Row> {
        self.headers
    }

    /// The document's data rows.
    pub closed spec fn spec_rows(&self) -> Seq<Row> {
        self.rows@
    }

    /// The column index a name resolves to in this document.
    pub open spec fn spec_col_index(&self, name: Seq<char>) -> Option<int> {
        spec_find_column(self.spec_headers(), name)
    }

    /// A new document with the given column names and no rows.
    pub fn with_headers(headers: &[&str]) -> (r: Self)
        ensures
            r.spec_headers() matches Some(h) && h@ == Seq::new(
                headers@.len(),
                |i: int| encode_utf8(headers@[i]@),
            ),
            r.spec_rows().len() == 0,
    {
        let mut h = Row::new();
        let n = headers.len();
        let mut j: usize = 0;
        while j < n
            invariant
                j <= n,
                n == headers@.len(),
                h@ == Seq::new(j as nat, |i: int| encode_utf8(headers@[i]@)),
            decreases n - j,
        {
            h.add(headers[j]);
            proof {
                assert(h@ =~= Seq::new((j + 1) as nat, |i: int| encode_utf8(headers@[i]@)));
            }
            j += 1;
        }
        Document { headers: Some(h), rows: Vec::new() }
    }

    /// An empty document: no headers, no rows.
    pub fn empty() -> (r: Self)
        ensures
            r.spec_headers() is None,
            r.spec_rows().len() == 0,
    {
        Document { headers: None, rows: Vec::new() }
    }

    /// Appends one row at the end of the document.
    pub fn insert(&mut self, row: Row)
        ensures
            final(self).spec_headers() == old(self).spec_headers(),
            final(self).spec_rows() == old(self).spec_rows().push(row),
    {
        self.rows.push(row);
    }

    /// Appends copies of the given rows at the end of the document.
    pub fn insert_all(&mut self, rows: &[Row])
        ensures
            final(self).spec_headers() == old(self).spec_headers(),
            row_models(final(self).spec_rows()) == row_models(old(self).spec_rows() + rows@),
    {
        let n = rows.len();
        let mut j: usize = 0;
        while j < n
            invariant
                j <= n,
                n == rows@.len(),
                self.headers == old(self).headers,
                row_models(self.rows@) == row_models(
                    old(self).rows@ + rows@.subrange(0, j as int),
                ),
            decreases n - j,
        {
            let ghost prev = self.rows@;
            let ghost base = old(self).rows@ + rows@.subrange(0, j as int);
            let c = rows[j].clone();
            proof {
                assert(row_model(c) == row_model(rows@[j as int]));
            }
            self.rows.push(c);
            proof {
                assert(old(self).rows@ + rows@.subrange(0, j as int + 1) =~= base.push(
                    rows@[j as int],
                ));
                assert(row_models(prev.push(c)) =~= row_models(prev).push(row_model(c)));
                assert(row_models(base.push(rows@[j as int])) =~= row_models(base).push(
                    row_model(rows@[j as int]),
                ));
                assert(row_models(self.rows@) == row_models(
                    old(self).rows@ + rows@.subrange(0, j as int + 1),
                ));
            }
            j += 1;
        }
        proof {
            assert(old(self).rows@ + rows@.subrange(0, n as int) =~= old(self).rows@ + rows@);
        }
    }

    /// Appends copies of another document's rows at the end of this one.
    pub fn append(&mut self, doc: &Document)
        ensures
            final(self).spec_headers() == old(self).spec_headers(),
            row_models(final(self).spec_rows()) == row_models(
                old(self).spec_rows() + doc.spec_rows(),
            ),
    {
        self.insert_all(doc.rows.as_slice());
    }

    /// Removes the row at the given index; does nothing when no such row
    /// exists.
    pub fn remove_row(&mut self, row: usize)
        ensures
            final(self).spec_headers() == old(self).spec_headers(),
            final(self).spec_rows() == if row < old(self).spec_rows().len() {
                old(self).spec_rows().remove(row as int)
            } else {
                old(self).spec_rows()
            },
    {
        if row < self.rows.len() {
            let _ = self.rows.remove(row);
        }
    }

    /// The number of data rows in the document.
    pub fn count(&self) -> (r: usize)
        ensures
            r == self.spec_rows().len(),
    {
        self.rows.len()
    }

    /// Whether a row with the given index exists.
    pub fn is_valid_row_index(&self, row: usize) -> (r: bool)
        ensures
            r == (row < self.spec_rows().len()),
    {
        row < self.rows.len()
    }

    /// Whether a column with the given index exists in the header row.
    pub fn is_valid_column_index(&self, column: usize) -> (r: bool)
        ensures
            r == match self.spec_headers() {
                Some(h) => column < h@.len(),
                None => false,
            },
    {
        match &self.headers {
            Some(h) => column < h.count(),
            None => false,
        }
    }

    /// Whether a column with the given name exists in the header row.
    pub fn is_valid_column(&self, column: &str) -> (r: bool)
        ensures
            r == (self.spec_col_index(column@) is Some),
    {
        match find_column(&self.headers, column) {
            Some(_) => true,
            None => false,
        }
    }

    /// Every value of the given column, parsed into `T`; fails on the first
    /// row whose field cannot be parsed or is missing.
    pub fn get_column_by_index<T: core::str::FromStr>(&self, column: usize) -> (r: Result<
        Vec<T>,
        CsvError,
    >)
        ensures
            match r {
                Ok(v) => v@.len() == self.spec_rows().len(),
                Err(e) => e is ConversionError || e is NotAField,
            },
    {
        let mut out: Vec<T> = Vec::new();
        let n = self.rows.len();
        let mut j: usize = 0;
        while j < n
            invariant
                j <= n,
                n == self.rows@.len(),
                out@.len() == j,
            decreases n - j,
        {
            match self.rows[j].get::<T>(column) {
                Ok(v) => {
                    out.push(v);
                },
                Err(e) => {
                    return Err(e);
                },
            }
            j += 1;
        }
        Ok(out)
    }

    /// Every value of the named column, parsed into `T`; fails with
    /// `InvalidColumn` exactly when no column carries that name.
    pub fn get_column<T: core::str::FromStr>(&self, col_name: &str) -> (r: Result<
        Vec<T>,
        CsvError,
    >)
        ensures
            match r {
                Ok(v) => self.spec_col_index(col_name@) is Some && v@.len()
                    == self.spec_rows().len(),
                Err(e) => match e {
                    CsvError::InvalidColumn(c) => c@ == col_name@ && self.spec_col_index(
                        col_name@,
                    ) is None,
                    CsvError::ConversionError(_, _, _) => self.spec_col_index(col_name@) is Some,
                    CsvError::NotAField(_) => self.spec_col_index(col_name@) is Some,
                    _ => false,
                },
            },
    {
        match find_column(&self.headers, col_name) {
            Some(ix) => self.get_column_by_index::<T>(ix),
            None => Err(CsvError::InvalidColumn(col_name.to_owned())),
        }
    }

    /// The value at the given row and column, parsed into `T`.
    ///
    /// A row index past the row count fails with `InvalidRow`; a column
    /// index past that row's field count fails with `NotAField`; a parse
    /// failure carries the column index and the field's decoded text.
    pub fn get_indexed<T: core::str::FromStr>(&self, row: usize, column: usize) -> (r: Result<
        T,
        CsvError,
    >)
        ensures
            match r {
                Ok(_) => row < self.spec_rows().len() && column < self.spec_rows()[row as int]@.len(),
                Err(e) => match e {
                    CsvError::InvalidRow(i) => i == row && row >= self.spec_rows().len(),
                    CsvError::NotAField(i) => i == column && row < self.spec_rows().len() && column
                        >= self.spec_rows()[row as int]@.len(),
                    CsvError::ConversionError(i, value, _) => i == column && row
                        < self.spec_rows().len() && column < self.spec_rows()[row as int]@.len()
                        && value@ == lossy_of(self.spec_rows()[row as int]@[column as int]),
                    _ => false,
                },
            },
    {
        if row < self.rows.len() {
            self.rows[row].get::<T>(column)
        } else {
            Err(CsvError::InvalidRow(row))
        }
    }

    /// The value at the given row and named column, parsed into `T`; fails
    /// with `InvalidColumn` exactly when no column carries that name.
    pub fn get<T: core::str::FromStr>(&self, row: usize, col_name: &str) -> (r: Result<
        T,
        CsvError,
    >)
        ensures
            match r {
                Ok(_) => self.spec_col_index(col_name@) is Some && row < self.spec_rows().len(),
                Err(e) => match e {
                    CsvError::InvalidColumn(c) => c@ == col_name@ && self.spec_col_index(
                        col_name@,
                    ) is None,
                    CsvError::InvalidRow(i) => i == row && row >= self.spec_rows().len()
                        && self.spec_col_index(col_name@) is Some,
                    CsvError::NotAField(_) => self.spec_col_index(col_name@) is Some && row
                        < self.spec_rows().len(),
                    CsvError::ConversionError(_, _, _) => self.spec_col_index(col_name@) is Some
                        && row < self.spec_rows().len(),
                    _ => false,
                },
            },
    {
        match find_column(&self.headers, col_name) {
            Some(ix) => self.get_indexed::<T>(row, ix),
            None => Err(CsvError::InvalidColumn(col_name.to_owned())),
        }
    }

    /// Removes every row whose field in the named column reads, as text,
    /// exactly `value`; does nothing when no column carries that name.
    pub fn remove_where(&mut self, col_name: &str, value: &str)
        ensures
            final(self).spec_headers() == old(self).spec_headers(),
            match spec_find_column(old(self).spec_headers(), col_name@) {
                Some(col) => row_models(final(self).spec_rows()) == keep_not_matching(
                    old(self).spec_rows(),
                    col,
                    value@,
                ),
                None => row_models(final(self).spec_rows()) == row_models(old(self).spec_rows()),
            },
    {
        let col = match find_column(&self.headers, col_name) {
            Some(ix) => ix,
            None => {
                return ;
            },
        };
        let target: String = value.to_owned();
        let mut kept: Vec<Row> = Vec::new();
        let n = self.rows.len();
        let mut j: usize = 0;
        while j < n
            invariant
                j <= n,
                n == self.rows@.len(),
                self.headers == old(self).headers,
                self.rows@ == old(self).rows@,
                target@ == value@,
                row_models(kept@) == keep_not_matching(
                    self.rows@.subrange(0, j as int),
                    col as int,
                    value@,
                ),
            decreases n - j,
        {
            let matched = match self.rows[j].get_value(col) {
                Some(s) => s == target,
                None => false,
            };
            let ghost prevk = kept@;
            if !matched {
                let c = self.rows[j].clone();
                proof {
                    assert(row_model(c) == row_model(self.rows@[j as int]));
                }
                kept.push(c);
                proof {
                    assert(row_models(prevk.push(c)) =~= row_models(prevk).push(row_model(c)));
                }
            }
            proof {
                assert(self.rows@.subrange(0, j as int + 1).drop_last() =~= self.rows@.subrange(
                    0,
                    j as int,
                ));
                assert(self.rows@.subrange(0, j as int + 1).last() == self.rows@[j as int]);
            }
            j += 1;
        }
        proof {
            assert(self.rows@.subrange(0, n as int) =~= self.rows@);
        }
        self.rows = kept;
    }

    /// Replaces the field at the given row and column with a new text
    /// value; does nothing when the row or the column does not exist.
    pub fn set_indexed(&mut self, row: usize, column: usize, value: &str)
        ensures
            final(self).spec_headers() == old(self).spec_headers(),
            row < old(self).spec_rows().len() ==> row_models(final(self).spec_rows())
                == row_models(old(self).spec_rows()).update(
                row as int,
                spec_set_field(row_model(old(self).spec_rows()[row as int]), column as int, value@),
            ),
            row >= old(self).spec_rows().len() ==> final(self).spec_rows() == old(
                self,
            ).spec_rows(),
    {
        if row < self.rows.len() {
            let r = vec_index_mut(&mut self.rows, row);
            r.replace(column, value);
            proof {
                assert(row_models(self.rows@) =~= row_models(old(self).rows@).update(
                    row as int,
                    spec_set_field(
                        row_model(old(self).rows@[row as int]),
                        column as int,
                        value@,
                    ),
                ));
            }
        }
    }

    /// Replaces the field at the given row and named column with a new text
    /// value; does nothing when the name or the row does not exist.
    pub fn set(&mut self, row: usize, col_name: &str, value: &str)
        ensures
            final(self).spec_headers() == old(self).spec_headers(),
            match spec_find_column(old(self).spec_headers(), col_name@) {
                Some(col) => {
                    &&& row < old(self).spec_rows().len() ==> row_models(final(self).spec_rows())
                        == row_models(old(self).spec_rows()).update(
                        row as int,
                        spec_set_field(row_model(old(self).spec_rows()[row as int]), col, value@),
                    )
                    &&& row >= old(self).spec_rows().len() ==> final(self).spec_rows() == old(
                        self,
                    ).spec_rows()
                },
                None => final(self).spec_rows() == old(self).spec_rows(),
            },
    {
        match find_column(&self.headers, col_name) {
            Some(ix) => self.set_indexed(row, ix, value),
            None => {},
        }
    }

    /// A reference to the document's header row, if it has one.
    pub fn get_header_row(&self) -> (r: &Option<Row>)
        ensures
            *r == self.spec_headers(),
    {
        &self.headers
    }

    /// The header names as text, decoded tolerantly, or `None` when the
    /// document has no header row.
    pub fn get_header_names(&self) -> (r: Option<Vec<String>>)
        ensures
            match (r, self.spec_headers()) {
                (Some(names), Some(h)) => names@.len() == h@.len() && (forall|k: int|
                    0 <= k < names@.len() ==> (#[trigger] names@[k])@ == lossy_of(h@[k])),
                (None, None) => true,
                _ => false,
            },
    {
        match &self.headers {
            Some(h) => Some(row_texts(h)),
            None => None,
        }
    }
}

/// A copy of an optional header row with the same abstract content.
fn clone_headers(h: &Option<Row>) -> (r: Option<Row>)
    ensures
        opt_row_model(r) == opt_row_model(*h),
{
    match h {
        Some(row) => Some(row.clone()),
        None => None,
    }
}

/// One row of a document together with the document's header row, so that
/// fields can be looked up by column name.  An entry owns copies of both.
pub struct DocEntry {
    headers: Option<Row>,
    row: Row,
}

impl DocEntry {
    /// The header row the entry resolves column names against.
    pub closed spec fn spec_headers(&self) -> Option<Row> {
        self.headers
    }

    /// The entry's row.
    pub closed spec fn spec_row(&self) -> Row {
        self.row
    }

    /// The column index a name resolves to for this entry.
    pub open spec fn spec_col_index(&self, name: Seq<char>) -> Option<int> {
        spec_find_column(self.spec_headers(), name)
    }

    /// The value of the named column in this entry's row, parsed into `T`;
    /// fails with `InvalidColumn` exactly when no column carries that name.
    pub fn get<T: core::str::FromStr>(&self, col_name: &str) -> (r: Result<T, CsvError>)
        ensures
            match r {
                Ok(_) => self.spec_col_index(col_name@) matches Some(c) && c
                    < self.spec_row()@.len(),
                Err(e) => match e {
                    CsvError::InvalidColumn(c) => c@ == col_name@ && self.spec_col_index(
                        col_name@,
                    ) is None,
                    CsvError::NotAField(i) => self.spec_col_index(col_name@) == Some(i as int) && i
                        >= self.spec_row()@.len(),
                    CsvError::ConversionError(i, value, _) => self.spec_col_index(col_name@)
                        == Some(i as int) && i < self.spec_row()@.len() && value@ == lossy_of(
                        self.spec_row()@[i as int],
                    ),
                    _ => false,
                },
            },
    {
        match find_column(&self.headers, col_name) {
            Some(ix) => self.row.get::<T>(ix),
            None => Err(CsvError::InvalidColumn(col_name.to_owned())),
        }
    }

    /// The raw text of the named column in this entry's row, or `None` when
    /// the name does not resolve or the row is too short.
    pub fn get_value(&self, col_name: &str) -> (r: Option<String>)
        ensures
            match r {
                Some(s) => self.spec_col_index(col_name@) matches Some(c) && c
                    < self.spec_row()@.len() && s@ == lossy_of(self.spec_row()@[c]),
                None => match self.spec_col_index(col_name@) {
                    Some(c) => c >= self.spec_row()@.len(),
                    None => true,
                },
            },
    {
        match find_column(&self.headers, col_name) {
            Some(ix) => self.row.get_value(ix),
            None => None,
        }
    }

    /// The names of the entry's columns, decoded tolerantly; empty when the
    /// entry has no header row.
    pub fn columns(&self) -> (r: Vec<String>)
        ensures
            match self.spec_headers() {
                Some(h) => r@.len() == h@.len() && (forall|k: int|
                    0 <= k < r@.len() ==> (#[trigger] r@[k])@ == lossy_of(h@[k])),
                None => r@.len() == 0,
            },
    {
        match &self.headers {
            Some(h) => row_texts(h),
            None => Vec::new(),
        }
    }
}

/// Iterates over a document's rows, yielding an owned [`DocEntry`] for
/// each.
pub struct DocIter<'a> {
    doc: &'a Document,
    index: usize,
}

impl<'a> DocIter<'a> {
    /// The document being iterated.
    pub closed spec fn spec_doc(&self) -> Document {
        *self.doc
    }

    /// How many rows have been yielded so far.
    pub closed spec fn pos(&self) -> int {
        self.index as int
    }

    /// The next entry, or `None` once every row has been yielded.
    pub fn next(&mut self) -> (r: Option<DocEntry>)
        ensures
            final(self).spec_doc() == old(self).spec_doc(),
            match r {
                Some(e) => {
                    &&& old(self).pos() < old(self).spec_doc().spec_rows().len()
                    &&& final(self).pos() == old(self).pos() + 1
                    &&& row_model(e.spec_row()) == row_model(
                        old(self).spec_doc().spec_rows()[old(self).pos()],
                    )
                    &&& opt_row_model(e.spec_headers()) == opt_row_model(
                        old(self).spec_doc().spec_headers(),
                    )
                },
                None => {
                    &&& old(self).pos() >= old(self).spec_doc().spec_rows().len()
                    &&& final(self).pos() == old(self).pos()
                },
            },
    {
        let n = self.doc.rows.len();
        if self.index < n {
            let entry = DocEntry {
                headers: clone_headers(&self.doc.headers),
                row: self.doc.rows[self.index].clone(),
            };
            self.index = self.index + 1;
            Some(entry)
        } else {
            None
        }
    }
}

impl Document {
    /// An iterator over the document's rows.
    pub fn rows(&self) -> (r: DocIter<'_>)
        ensures
            r.spec_doc() == *self,
            r.pos() == 0,
    {
        DocIter { doc: self, index: 0 }
    }

    /// Each row decoded into `T` through its [`FromRow`] implementation, in
    /// order; failures stay in place as errors.
    pub fn rows_decoded<T: FromRow>(&self) -> (r: Vec<Result<T, CsvError>>)
        ensures
            r@.len() == self.spec_rows().len(),
    {
        let mut out: Vec<Result<T, CsvError>> = Vec::new();
        let n = self.rows.len();
        let mut j: usize = 0;
        while j < n
            invariant
                j <= n,
                n == self.rows@.len(),
                out@.len() == j,
            decreases n - j,
        {
            out.push(T::from(&self.rows[j]));
            j += 1;
        }
        out
    }

    /// Every row whose field in the given column reads, as text, exactly
    /// `value`, each wrapped as an entry of this document.
    pub fn get_rows_where_indexed(&self, column: usize, value: &str) -> (r: Vec<DocEntry>)
        ensures
            entry_row_models(r@) == keep_matching(self.spec_rows(), column as int, value@),
            forall|k: int|
                0 <= k < r@.len() ==> opt_row_model(#[trigger] r@[k].spec_headers())
                    == opt_row_model(self.spec_headers()),
    {
        let target: String = value.to_owned();
        let mut out: Vec<DocEntry> = Vec::new();
        let n = self.rows.len();
        let mut j: usize = 0;
        while j < n
            invariant
                j <= n,
                n == self.rows@.len(),
                target@ == value@,
                entry_row_models(out@) == keep_matching(
                    self.spec_rows().subrange(0, j as int),
                    column as int,
                    value@,
                ),
                forall|k: int|
                    0 <= k < out@.len() ==> opt_row_model(#[trigger] out@[k].spec_headers())
                        == opt_row_model(self.spec_headers()),
            decreases n - j,
        {
            let matched = match self.rows[j].get_value(column) {
                Some(s) => s == target,
                None => false,
            };
            let ghost prev = out@;
            if matched {
                let entry = DocEntry {
                    headers: clone_headers(&self.headers),
                    row: self.rows[j].clone(),
                };
                proof {
                    assert(row_model(entry.spec_row()) == row_model(self.rows@[j as int]));
                }
                out.push(entry);
                proof {
                    assert(entry_row_models(prev.push(entry)) =~= entry_row_models(prev).push(
                        row_model(entry.spec_row()),
                    ));
                }
            }
            proof {
                assert(self.spec_rows().subrange(0, j as int + 1).drop_last()
                    =~= self.spec_rows().subrange(0, j as int));
                assert(self.spec_rows().subrange(0, j as int + 1).last() == self.spec_rows()[j as int]);
            }
            j += 1;
        }
        proof {
            assert(self.spec_rows().subrange(0, n as int) =~= self.spec_rows());
        }
        out
    }

    /// Every row whose field in the named column reads, as text, exactly
    /// `value`; empty when no column carries that name.
    pub fn get_rows_where(&self, col_name: &str, value: &str) -> (r: Vec<DocEntry>)
        ensures
            match self.spec_col_index(col_name@) {
                Some(col) => entry_row_models(r@) == keep_matching(self.spec_rows(), col, value@)
                    && (forall|k: int|
                    0 <= k < r@.len() ==> opt_row_model(#[trigger] r@[k].spec_headers())
                        == opt_row_model(self.spec_headers())),
                None => r@.len() == 0,
            },
    {
        match find_column(&self.headers, col_name) {
            Some(ix) => self.get_rows_where_indexed(ix, value),
            None => Vec::new(),
        }
    }

    /// Keeps exactly the rows for which the predicate, given the row as an
    /// entry of this document, returns true; every kept row was already in
    /// the document, in order.
    pub fn retain<F: Fn(DocEntry) -> bool>(&mut self, predicate: F)
        requires
            forall|e: DocEntry| #[trigger] call_requires(predicate, (e,)),
        ensures
            final(self).spec_headers() == old(self).spec_headers(),
            final(self).spec_rows().len() <= old(self).spec_rows().len(),
            forall|k: int|
                0 <= k < final(self).spec_rows().len() ==> row_models(
                    old(self).spec_rows(),
                ).contains(row_model(#[trigger] final(self).spec_rows()[k])),
    {
        let mut kept: Vec<Row> = Vec::new();
        let n = self.rows.len();
        let mut j: usize = 0;
        while j < n
            invariant
                j <= n,
                n == self.rows@.len(),
                self.headers == old(self).headers,
                self.rows@ == old(self).rows@,
                kept@.len() <= j,
                forall|e: DocEntry| #[trigger] call_requires(predicate, (e,)),
                forall|k: int|
                    0 <= k < kept@.len() ==> row_models(self.rows@).contains(
                        row_model(#[trigger] kept@[k]),
                    ),
            decreases n - j,
        {
            let entry = DocEntry {
                headers: clone_headers(&self.headers),
                row: self.rows[j].clone(),
            };
            if predicate(entry) {
                let c = self.rows[j].clone();
                proof {
                    assert(row_models(self.rows@)[j as int] == row_model(c));
                }
                kept.push(c);
            }
            j += 1;
        }
        self.rows = kept;
    }
}

impl Document {
    /// Reads every remaining row of the reader into a document, taking the
    /// reader's cached header row along.
    pub fn from_reader(reader: Reader) -> (r: Document)
        ensures
            opt_row_model(r.spec_headers()) == opt_row_model(reader.spec_header()),
            row_views(r.spec_rows()) == spec_entries(
                reader.spec_input(),
                reader.spec_pos(),
                reader.spec_delimiter(),
            ),
            forall|k: int|
                0 <= k < r.spec_rows().len() ==> (#[trigger] r.spec_rows()[k]).spec_delim()
                    == DEFAULT_DELIM,
    {
        let headers = reader.headers();
        let ghost input0 = reader.spec_input();
        let ghost pos0 = reader.spec_pos();
        let ghost d0 = reader.spec_delimiter();
        let mut entries = reader.entries();
        let mut rows: Vec<Row> = Vec::new();
        proof {
            assert(row_views(rows@) =~= Seq::<Seq<Seq<u8>>>::empty());
            assert(Seq::<Seq<Seq<u8>>>::empty() + spec_entries(input0, pos0, d0) =~= spec_entries(
                input0,
                pos0,
                d0,
            ));
        }
        loop
            invariant
                entries.spec_input() == input0,
                entries.spec_delimiter() == d0,
                0 <= entries.spec_pos() <= input0.len(),
                row_views(rows@) + spec_entries(input0, entries.spec_pos(), d0) == spec_entries(
                    input0,
                    pos0,
                    d0,
                ),
                forall|k: int|
                    0 <= k < rows@.len() ==> (#[trigger] rows@[k]).spec_delim() == DEFAULT_DELIM,
            ensures
                row_views(rows@) == spec_entries(input0, pos0, d0),
                forall|k: int|
                    0 <= k < rows@.len() ==> (#[trigger] rows@[k]).spec_delim() == DEFAULT_DELIM,
            decreases input0.len() - entries.spec_pos(),
        {
            let ghost cur = entries.spec_pos();
            let ghost prev = rows@;
            match entries.next() {
                Some(row) => {
                    proof {
                        assert(0 <= cur < input0.len());
                        assert(crate::parser::spec_parse_record(input0, cur, d0) == Some(
                            (row@, entries.spec_pos()),
                        ));
                        assert(cur < entries.spec_pos() <= input0.len());
                        assert(spec_entries(input0, cur, d0) == seq![row@] + spec_entries(
                            input0,
                            entries.spec_pos(),
                            d0,
                        ));
                    }
                    rows.push(row);
                    proof {
                        assert(row_views(prev.push(row)) =~= row_views(prev).push(row@));
                        assert(row_views(prev) + (seq![row@] + spec_entries(
                            input0,
                            entries.spec_pos(),
                            d0,
                        )) =~= row_views(prev).push(row@) + spec_entries(
                            input0,
                            entries.spec_pos(),
                            d0,
                        ));
                    }
                },
                None => {
                    proof {
                        assert(spec_entries(input0, cur, d0) =~= Seq::<Seq<Seq<u8>>>::empty());
                        assert(row_views(rows@) + Seq::<Seq<Seq<u8>>>::empty() =~= row_views(
                            rows@,
                        ));
                    }
                    break ;
                },
            }
        }
        Document { headers, rows }
    }

    /// Reads every remaining row of the reader, keeping exactly those for
    /// which the predicate, given the row as an entry, returns true.
    pub fn from_reader_filtered<F: Fn(DocEntry) -> bool>(reader: Reader, filter: F) -> (r:
        Document)
        requires
            forall|e: DocEntry| #[trigger] call_requires(filter, (e,)),
        ensures
            opt_row_model(r.spec_headers()) == opt_row_model(reader.spec_header()),
            forall|k: int|
                0 <= k < r.spec_rows().len() ==> spec_entries(
                    reader.spec_input(),
                    reader.spec_pos(),
                    reader.spec_delimiter(),
                ).contains((#[trigger] r.spec_rows()[k])@),
    {
        let headers = reader.headers();
        let ghost input0 = reader.spec_input();
        let ghost pos0 = reader.spec_pos();
        let ghost d0 = reader.spec_delimiter();
        let ghost total = spec_entries(input0, pos0, d0);
        let mut entries = reader.entries();
        let mut rows: Vec<Row> = Vec::new();
        let ghost mut seen: Seq<Seq<Seq<u8>>> = Seq::empty();
        proof {
            assert(seen + total =~= total);
        }
        loop
            invariant
                entries.spec_input() == input0,
                entries.spec_delimiter() == d0,
                0 <= entries.spec_pos() <= input0.len(),
                seen + spec_entries(input0, entries.spec_pos(), d0) == total,
                forall|e: DocEntry| #[trigger] call_requires(filter, (e,)),
                forall|k: int| 0 <= k < rows@.len() ==> total.contains((#[trigger] rows@[k])@),
            ensures
                forall|k: int| 0 <= k < rows@.len() ==> total.contains((#[trigger] rows@[k])@),
            decreases input0.len() - entries.spec_pos(),
        {
            let ghost cur = entries.spec_pos();
            match entries.next() {
                Some(row) => {
                    proof {
                        assert(spec_entries(input0, cur, d0) == seq![row@] + spec_entries(
                            input0,
                            entries.spec_pos(),
                            d0,
                        ));
                        assert((seen + (seq![row@] + spec_entries(input0, entries.spec_pos(), d0)))[
                            seen.len() as int] == row@);
                        assert(total.contains(row@));
                        assert((seen + (seq![row@] + spec_entries(input0, entries.spec_pos(), d0)))
                            =~= (seen.push(row@) + spec_entries(input0, entries.spec_pos(), d0)));
                        seen = seen.push(row@);
                    }
                    let c = row.clone();
                    let entry = DocEntry { headers: clone_headers(&headers), row };
                    if filter(entry) {
                        rows.push(c);
                    }
                },
                None => {
                    break ;
                },
            }
        }
        Document { headers, rows }
    }

    /// The whole document as CSV bytes: the header row first when there is
    /// one, then every data row, each escaped and terminated as the writer
    /// does it.
    pub fn to_bytes(&self) -> (r: Vec<u8>)
        ensures
            r@ == (match self.spec_headers() {
                Some(h) => write_record(h@, h.spec_delim()),
                None => Seq::<u8>::empty(),
            }) + write_rows(self.spec_rows(), None::<u8>),
    {
        let mut w = Writer::new();
        match &self.headers {
            Some(h) => {
                let _ = w.write(h);
            },
            None => {},
        }
        let _ = w.write_all(self.rows.as_slice());
        w.into_bytes()
    }
}

/// The header content of the first entry of `entries` that carries one.
pub open spec fn spec_first_headers(entries: Seq<DocEntry>) -> Option<(Seq<Seq<u8>>, u8)>
    decreases entries.len(),
{
    if entries.len() == 0 {
        None
    } else {
        match opt_row_model(entries[0].spec_headers()) {
            Some(m) => Some(m),
            None => spec_first_headers(entries.skip(1)),
        }
    }
}

impl Document {
    /// Collects entries into a document: the rows are the entries' rows in
    /// order, and the header row is taken from the first entry that has
    /// one.
    pub fn from_entries(entries: Vec<DocEntry>) -> (r: Document)
        ensures
            opt_row_model(r.spec_headers()) == spec_first_headers(entries@),
            r.spec_rows().len() == entries@.len(),
            forall|k: int|
                0 <= k < entries@.len() ==> row_model(#[trigger] r.spec_rows()[k]) == row_model(
                    entries@[k].spec_row(),
                ),
    {
        let n = entries.len();
        let mut headers: Option<Row> = None;
        let mut j: usize = 0;
        proof {
            assert(entries@.skip(0) =~= entries@);
        }
        while j < n
            invariant
                j <= n,
                n == entries@.len(),
                match headers {
                    Some(_) => opt_row_model(headers) == spec_first_headers(entries@),
                    None => spec_first_headers(entries@.skip(j as int)) == spec_first_headers(
                        entries@,
                    ),
                },
            decreases n - j,
        {
            if headers.is_none() {
                proof {
                    assert(entries@.skip(j as int)[0] == entries@[j as int]);
                    assert(entries@.skip(j as int).skip(1) =~= entries@.skip(j as int + 1));
                }
                match &entries[j].headers {
                    Some(h) => {
                        headers = Some(h.clone());
                    },
                    None => {},
                }
            }
            j += 1;
        }
        proof {
            if headers is None {
                assert(entries@.skip(n as int) =~= Seq::<DocEntry>::empty());
            }
        }
        let mut rows: Vec<Row> = Vec::new();
        let mut k: usize = 0;
        while k < n
            invariant
                k <= n,
                n == entries@.len(),
                rows@.len() == k,
                forall|i: int|
                    0 <= i < k ==> row_model(#[trigger] rows@[i]) == row_model(
                        entries@[i].spec_row(),
                    ),
            decreases n - k,
        {
            let c = entries[k].row.clone();
            rows.push(c);
            k += 1;
        }
        Document { headers, rows }
    }
}

/// The abstract content of each entry's row.
pub open spec fn entry_row_models(entries: Seq<DocEntry>) -> Seq<(Seq<Seq<u8>>, u8)> {
    entries.map(|i: int, e: DocEntry| row_model(e.spec_row()))
}

/// The text of each field of a row, decoded tolerantly.
fn row_texts(row: &Row) -> (r: Vec<String>)
    ensures
        r@.len() == row@.len(),
        forall|k: int| 0 <= k < r@.len() ==> (#[trigger] r@[k])@ == lossy_of(row@[k]),
{
    let n = row.count();
    let mut out: Vec<String> = Vec::new();
    let mut j: usize = 0;
    while j < n
        invariant
            j <= n,
            n == row@.len(),
            out@.len() == j,
            forall|k: int| 0 <= k < j ==> (#[trigger] out@[k])@ == lossy_of(row@[k]),
        decreases n - j,
    {
        match row.get_value(j) {
            Some(s) => {
                out.push(s);
            },
            None => {
                proof {
                    assert(false);
                }
            },
        }
        j += 1;
    }
    out
}

} // verus!
