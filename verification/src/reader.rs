//! The reader.
//!
//! A [`Reader`] owns an in-memory buffer of CSV text and a cursor into it.
//! It is configured through a [`ReaderBuilder`]; when a header line is
//! configured, the first record is parsed once at build time and cached, and
//! is never re-read from the buffer afterwards.  [`Entries`] then yields the
//! data rows one at a time, moving the cursor forward only.

use crate::errors::CsvError;
use crate::parser::read_fields;
use crate::parser::spec_parse_record;
use crate::row::DEFAULT_DELIM;
use crate::row::Row;
use vstd::prelude::*;

verus! {

/// Every record that repeated parsing yields from `pos` on: the fields of
/// each record in order, ending where the input runs out or a record cannot
/// be parsed.
pub open spec fn spec_entries(input: Seq<u8>, pos: int, delim: u8) -> Seq<Seq<Seq<u8>>>
    decreases input.len() - pos,
{
    if pos < 0 || pos >= input.len() {
        Seq::empty()
    } else {
        match spec_parse_record(input, pos, delim) {
            Some((fields, end)) => if pos < end <= input.len() {
                seq![fields] + spec_entries(input, end, delim)
            } else {
                Seq::empty()
            },
            None => Seq::empty(),
        }
    }
}

/// Reads rows out of an in-memory buffer of CSV text.
#[derive(Debug)]
pub struct Reader {
    input: Vec<u8>,
    pos: usize,
    header: Option<Row>,
    has_header: bool,
    delimiter: Option<u8>,
}

impl Reader {
    /// The cursor never lies past the end of the input.
    #[verifier::type_invariant]
    spec fn wf(&self) -> bool {
        self.pos <= self.input@.len()
    }

    /// The whole input buffer.
    pub closed spec fn spec_input(&self) -> Seq<u8> {
        self.input@
    }

    /// The cursor: how many input bytes have been consumed.
    pub closed spec fn spec_pos(&self) -> int {
        self.pos as int
    }

    /// The cached header row, if one was configured and parsed.
    pub closed spec fn spec_header(&self) -> Option<Row> {
        self.header
    }

    /// The configured separator override, if any.
    pub closed spec fn spec_delimiter_opt(&self) -> Option<u8> {
        self.delimiter
    }

    /// The separator the reader parses with.
    pub open spec fn spec_delimiter(&self) -> u8 {
        match self.spec_delimiter_opt() {
            Some(d) => d,
            None => DEFAULT_DELIM,
        }
    }

    /// A builder to configure and construct a reader.
    pub fn builder() -> (r: ReaderBuilder)
        ensures
            r.spec_input() is None,
            !r.spec_has_header(),
            r.spec_delimiter_opt() is None,
    {
        ReaderBuilder::new()
    }

    /// The cached header row.  Calling this never consumes input: it hands
    /// out a copy of the row parsed at build time, so repeated calls return
    /// the same content.
    pub fn headers(&self) -> (r: Option<Row>)
        ensures
            match (r, self.spec_header()) {
                (Some(h), Some(c)) => h@ == c@ && h.spec_delim() == c.spec_delim(),
                (None, None) => true,
                _ => false,
            },
    {
        match &self.header {
            Some(h) => Some(h.clone()),
            None => None,
        }
    }

    /// Consumes the reader, handing out an iterator over its data rows.
    pub fn entries(self) -> (r: Entries)
        ensures
            r.spec_input() == self.spec_input(),
            r.spec_pos() == self.spec_pos(),
            r.spec_delimiter() == self.spec_delimiter(),
            0 <= r.spec_pos() <= r.spec_input().len(),
    {
        Entries::new(self)
    }
}

/// Configuration collected before a [`Reader`] is built: the input buffer,
/// whether a header line is present, and an optional separator override.
pub struct ReaderBuilder {
    input: Option<Vec<u8>>,
    has_header: bool,
    delimiter: Option<u8>,
}

impl ReaderBuilder {
    /// The configured input buffer, if one was supplied.
    pub closed spec fn spec_input(&self) -> Option<Vec<u8>> {
        self.input
    }

    /// Whether the input's first record is a header line.
    pub closed spec fn spec_has_header(&self) -> bool {
        self.has_header
    }

    /// The configured separator override, if any.
    pub closed spec fn spec_delimiter_opt(&self) -> Option<u8> {
        self.delimiter
    }

    /// The separator the built reader will parse with.
    pub open spec fn spec_delimiter(&self) -> u8 {
        match self.spec_delimiter_opt() {
            Some(d) => d,
            None => DEFAULT_DELIM,
        }
    }

    /// An empty builder: no input, no header, default separator.
    pub fn new() -> (r: Self)
        ensures
            r.spec_input() is None,
            !r.spec_has_header(),
            r.spec_delimiter_opt() is None,
    {
        ReaderBuilder { input: None, has_header: false, delimiter: None }
    }

    /// Sets the separator to parse with.
    pub fn with_delimiter(self, delim: u8) -> (r: Self)
        ensures
            r.spec_input() == self.spec_input(),
            r.spec_has_header() == self.spec_has_header(),
            r.spec_delimiter_opt() == Some(delim),
    {
        ReaderBuilder { delimiter: Some(delim), ..self }
    }

    /// Sets whether the input starts with a header line.
    pub fn with_header(self, has_header: bool) -> (r: Self)
        ensures
            r.spec_input() == self.spec_input(),
            r.spec_has_header() == has_header,
            r.spec_delimiter_opt() == self.spec_delimiter_opt(),
    {
        ReaderBuilder { has_header, ..self }
    }

    /// Sets the bytes of CSV text to read from.
    pub fn with_reader(self, input: Vec<u8>) -> (r: Self)
        ensures
            r.spec_input() == Some(input),
            r.spec_has_header() == self.spec_has_header(),
            r.spec_delimiter_opt() == self.spec_delimiter_opt(),
    {
        ReaderBuilder { input: Some(input), ..self }
    }

    /// Builds the reader.  Fails with `ReadError` when no input was
    /// supplied; when a header line is configured, parses and caches the
    /// first record, failing with `RecordError` when the input is empty or
    /// its first record ends inside an open quote.
    pub fn build(self) -> (r: Result<Reader, CsvError>)
        ensures
            match r {
                Ok(reader) => {
                    &&& self.spec_input() is Some
                    &&& reader.spec_input() == self.spec_input().unwrap()@
                    &&& reader.spec_delimiter_opt() == self.spec_delimiter_opt()
                    &&& if self.spec_has_header() {
                        match spec_parse_record(reader.spec_input(), 0, self.spec_delimiter()) {
                            Some((fields, end)) => {
                                &&& reader.spec_header() matches Some(h) && h@ == fields
                                &&& reader.spec_pos() == end
                            },
                            None => false,
                        }
                    } else {
                        reader.spec_header() is None && reader.spec_pos() == 0
                    }
                },
                Err(e) => match self.spec_input() {
                    None => e is ReadError,
                    Some(input) => {
                        &&& e is RecordError
                        &&& self.spec_has_header()
                        &&& (input@.len() == 0 || spec_parse_record(
                            input@,
                            0,
                            self.spec_delimiter(),
                        ) is None)
                    },
                },
            },
    {
        match self.input {
            Some(input) => {
                let delim = match self.delimiter {
                    Some(d) => d,
                    None => DEFAULT_DELIM,
                };
                if self.has_header {
                    match read_fields(&input, 0, delim) {
                        Ok((header, end)) => Ok(
                            Reader {
                                input,
                                pos: end,
                                header: Some(header),
                                has_header: true,
                                delimiter: self.delimiter,
                            },
                        ),
                        Err(e) => Err(e),
                    }
                } else {
                    Ok(
                        Reader {
                            input,
                            pos: 0,
                            header: None,
                            has_header: false,
                            delimiter: self.delimiter,
                        },
                    )
                }
            },
            None => Err(CsvError::ReadError("no input was supplied".to_owned())),
        }
    }
}

/// Yields the data rows of a reader, one per call, until the input is
/// exhausted or a record cannot be parsed.
pub struct Entries {
    owner: Reader,
}

impl Entries {
    /// The whole input buffer.
    pub closed spec fn spec_input(&self) -> Seq<u8> {
        self.owner.spec_input()
    }

    /// The cursor: how many input bytes have been consumed.
    pub closed spec fn spec_pos(&self) -> int {
        self.owner.spec_pos()
    }

    /// The separator records are parsed with.
    pub closed spec fn spec_delimiter(&self) -> u8 {
        self.owner.spec_delimiter()
    }

    /// Wraps a reader for iteration.
    pub fn new(owner: Reader) -> (r: Self)
        ensures
            r.spec_input() == owner.spec_input(),
            r.spec_pos() == owner.spec_pos(),
            r.spec_delimiter() == owner.spec_delimiter(),
            0 <= r.spec_pos() <= r.spec_input().len(),
    {
        proof {
            use_type_invariant(&owner);
        }
        Entries { owner }
    }

    /// Parses and returns the next row, advancing the cursor past it, or
    /// returns `None`, leaving the cursor in place, exactly when the input
    /// is exhausted or ends inside an open quote.
    pub fn next(&mut self) -> (r: Option<Row>)
        ensures
            final(self).spec_input() == old(self).spec_input(),
            final(self).spec_delimiter() == old(self).spec_delimiter(),
            match r {
                Some(row) => {
                    &&& spec_parse_record(
                        old(self).spec_input(),
                        old(self).spec_pos(),
                        old(self).spec_delimiter(),
                    ) == Some((row@, final(self).spec_pos()))
                    &&& row.spec_delim() == DEFAULT_DELIM
                    &&& old(self).spec_pos() < final(self).spec_pos() <= old(
                        self,
                    ).spec_input().len()
                },
                None => {
                    &&& final(self).spec_pos() == old(self).spec_pos()
                    &&& (old(self).spec_pos() >= old(self).spec_input().len() || spec_parse_record(
                        old(self).spec_input(),
                        old(self).spec_pos(),
                        old(self).spec_delimiter(),
                    ) is None)
                },
            },
    {
        let delim = match self.owner.delimiter {
            Some(d) => d,
            None => DEFAULT_DELIM,
        };
        match read_fields(&self.owner.input, self.owner.pos, delim) {
            Ok((row, end)) => {
                self.owner.pos = end;
                Some(row)
            },
            Err(_) => None,
        }
    }
}

} // verus!
