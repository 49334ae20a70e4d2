//! Rows and fields.
//!
//! A [`Row`] stores the raw bytes of all of its fields in one contiguous
//! buffer, together with a list of half-open byte ranges marking where each
//! field begins and ends.  This avoids a separate heap allocation per field
//! while parsing.  A [`Field`] is one cell's bytes, owned independently.

use crate::errors::CsvError;
use crate::escape::lemma_render_snoc;
use crate::escape::push_escaped;
use crate::escape::render_record;
use crate::text::lossy_of;
use crate::text::lossy_string;
use crate::text::parse_text;
use crate::text::strict_string;
use crate::text::target_name_string;
use vstd::prelude::*;
use vstd::string::StringSliceAdditionalSpecFns;
use vstd::utf8::encode_utf8;

verus! {

/// Default field separator: the comma.
pub const DEFAULT_DELIM: u8 = 44;

/// The double-quote byte used for escaping.
pub const QUOTE_BYTE: u8 = 34;

/// Carriage return.
pub const CR_BYTE: u8 = 13;

/// Line feed.
pub const LF_BYTE: u8 = 10;

/// One cell's raw bytes, owned.
#[derive(Debug, PartialEq)]
pub struct Field {
    inner: Vec<u8>,
}

impl View for Field {
    type V = Seq<u8>;

    closed spec fn view(&self) -> Seq<u8> {
        self.inner@
    }
}

impl Field {
    /// Creates a new field holding a copy of the given bytes.
    pub fn new(inner: &[u8]) -> (r: Self)
        ensures
            r@ == inner@,
    {
        let mut v: Vec<u8> = Vec::new();
        let mut j: usize = 0;
        while j < inner.len()
            invariant
                j <= inner.len(),
                v@ == inner@.subrange(0, j as int),
            decreases inner.len() - j,
        {
            v.push(inner[j]);
            j += 1;
        }
        proof {
            assert(inner@.subrange(0, inner@.len() as int) =~= inner@);
        }
        Field { inner: v }
    }

    /// A reference to the field's bytes.
    pub fn as_bytes(&self) -> (r: &Vec<u8>)
        ensures
            r@ == self@,
    {
        &self.inner
    }

    /// The field's bytes decoded as text, tolerating malformed UTF-8.
    pub fn to_text(&self) -> (r: String)
        ensures
            r@ == lossy_of(self@),
    {
        lossy_string(self.inner.as_slice())
    }

    /// Decodes the field's bytes as UTF-8 text, failing with
    /// `InvalidString` exactly when they are not valid UTF-8, then parses
    /// the text into `T`.  Whether the parse succeeds is decided by `T`'s
    /// own parsing; a parse failure carries the decoded text and the target
    /// type's name.
    pub fn cast<T: core::str::FromStr>(&self) -> (r: Result<T, CsvError>)
        ensures
            match r {
                Ok(_) => vstd::utf8::valid_utf8(self@),
                Err(e) => match e {
                    CsvError::InvalidString => !vstd::utf8::valid_utf8(self@),
                    CsvError::FieldParseError(value, _) => vstd::utf8::valid_utf8(self@) && value@
                        == vstd::utf8::decode_utf8(self@),
                    _ => false,
                },
            },
    {
        match strict_string(self.inner.as_slice()) {
            Some(text) => match parse_text::<T>(text.as_str()) {
                Some(v) => Ok(v),
                None => Err(CsvError::FieldParseError(text, target_name_string::<T>())),
            },
            None => Err(CsvError::InvalidString),
        }
    }
}

impl Clone for Field {
    /// A clone holds the same bytes.
    fn clone(&self) -> (r: Self)
        ensures
            r@ == self@,
    {
        Field::new(self.inner.as_slice())
    }
}

/// An ordered sequence of fields backed by one contiguous byte buffer.
///
/// The view of a row is the sequence of its fields' byte sequences.  The
/// internal range table always partitions the buffer: ranges are adjacent,
/// start at zero and end at the buffer's length.
#[derive(Debug, PartialEq)]
pub struct Row {
    inner: Vec<u8>,
    ranges: Vec<(usize, usize)>,
    delim: u8,
}

impl View for Row {
    type V = Seq<Seq<u8>>;

    closed spec fn view(&self) -> Seq<Seq<u8>> {
        Seq::new(
            self.ranges@.len(),
            |k: int|
                self.inner@.subrange(self.ranges@[k].0 as int, self.ranges@[k].1 as int),
        )
    }
}

impl Row {
    /// The ranges partition the byte buffer: each is well ordered and in
    /// bounds, the first starts at zero, each further one starts where the
    /// previous ended, and the last ends at the buffer's length.
    #[verifier::type_invariant]
    spec fn wf(&self) -> bool {
        &&& forall|k: int|
            0 <= k < self.ranges@.len() ==> ((#[trigger] self.ranges@[k]).0 <= self.ranges@[k].1
                && self.ranges@[k].1 <= self.inner@.len())
        &&& (self.ranges@.len() == 0 ==> self.inner@.len() == 0)
        &&& (self.ranges@.len() > 0 ==> self.ranges@[0].0 == 0 && self.ranges@[self.ranges@.len()
            - 1].1 == self.inner@.len())
        &&& forall|k: int|
            0 <= k < self.ranges@.len() - 1 ==> (#[trigger] self.ranges@[k]).1 == self.ranges@[k
                + 1].0
    }

    /// The row's field separator, used when the row renders itself to text.
    pub closed spec fn spec_delim(&self) -> u8 {
        self.delim
    }

    /// Constructs an empty row with the default separator.
    pub fn new() -> (r: Self)
        ensures
            r@ == Seq::<Seq<u8>>::empty(),
            r.spec_delim() == DEFAULT_DELIM,
    {
        let r = Row { inner: Vec::new(), ranges: Vec::new(), delim: DEFAULT_DELIM };
        proof {
            assert(r@ =~= Seq::<Seq<u8>>::empty());
        }
        r
    }

    /// Constructs an empty row whose byte buffer has the given capacity
    /// reserved in advance.
    pub fn with_capacity(size: usize) -> (r: Self)
        ensures
            r@ == Seq::<Seq<u8>>::empty(),
            r.spec_delim() == DEFAULT_DELIM,
    {
        let r = Row { inner: Vec::with_capacity(size), ranges: Vec::new(), delim: DEFAULT_DELIM };
        proof {
            assert(r@ =~= Seq::<Seq<u8>>::empty());
        }
        r
    }

    /// Sets the separator the row uses when rendering itself.
    pub fn delimiter(&mut self, delim: u8)
        ensures
            final(self)@ == old(self)@,
            final(self).spec_delim() == delim,
    {
        proof {
            use_type_invariant(&*self);
        }
        self.delim = delim;
    }

    /// The separator the row currently renders itself with.
    pub fn delimiter_byte(&self) -> (r: u8)
        ensures
            r == self.spec_delim(),
    {
        self.delim
    }

    /// The number of fields in the row.
    pub fn count(&self) -> (r: usize)
        ensures
            r == self@.len(),
    {
        self.ranges.len()
    }

    /// Appends one field, given as raw bytes, at the end of the row.
    pub fn add_bytes(&mut self, field: &[u8])
        ensures
            final(self)@ == old(self)@.push(field@),
            final(self).spec_delim() == old(self).spec_delim(),
    {
        proof {
            use_type_invariant(&*self);
        }
        let mut tmp = Row { inner: Vec::new(), ranges: Vec::new(), delim: self.delim };
        core::mem::swap(self, &mut tmp);
        let Row { mut inner, mut ranges, delim } = tmp;
        let ghost old_inner = inner@;
        let ghost old_ranges = ranges@;
        let start = inner.len();
        let mut j: usize = 0;
        while j < field.len()
            invariant
                j <= field.len(),
                inner@ == old_inner + field@.subrange(0, j as int),
            decreases field.len() - j,
        {
            inner.push(field[j]);
            proof {
                assert(old_inner + field@.subrange(0, j as int) + seq![field@[j as int]]
                    =~= old_inner + field@.subrange(0, j as int + 1));
            }
            j += 1;
        }
        let end = inner.len();
        ranges.push((start, end));
        let r = Row { inner, ranges, delim };
        proof {
            assert(field@.subrange(0, field@.len() as int) =~= field@);
            assert(r@ =~= old(self)@.push(field@)) by {
                assert forall|k: int| 0 <= k < old_ranges.len() implies r@[k] == old(self)@[k] by {
                    assert(r.inner@.subrange(old_ranges[k].0 as int, old_ranges[k].1 as int)
                        =~= old_inner.subrange(old_ranges[k].0 as int, old_ranges[k].1 as int));
                }
                assert(r.inner@.subrange(start as int, end as int) =~= field@);
            }
        }
        *self = r;
    }

    /// Appends one field, given as text, at the end of the row.
    pub fn add(&mut self, field: &str)
        ensures
            final(self)@ == old(self)@.push(encode_utf8(field@)),
            final(self).spec_delim() == old(self).spec_delim(),
    {
        self.add_bytes(field.as_bytes());
    }

    /// A borrowed view of the bytes of the field at `index`, or `None` when
    /// no such field exists.
    pub fn get_range(&self, index: usize) -> (r: Option<&[u8]>)
        ensures
            match r {
                Some(b) => index < self@.len() && b@ == self@[index as int],
                None => index >= self@.len(),
            },
    {
        proof {
            use_type_invariant(&*self);
        }
        if index < self.ranges.len() {
            let start = self.ranges[index].0;
            let end = self.ranges[index].1;
            Some(&self.inner[start..end])
        } else {
            None
        }
    }

    /// The text of the field at `index`, decoded tolerating malformed
    /// UTF-8, or `None` when no such field exists.
    pub fn get_value(&self, index: usize) -> (r: Option<String>)
        ensures
            match r {
                Some(s) => index < self@.len() && s@ == lossy_of(self@[index as int]),
                None => index >= self@.len(),
            },
    {
        match self.get_range(index) {
            Some(b) => Some(lossy_string(b)),
            None => None,
        }
    }

    /// Decodes the field at `index` as text and parses it into `T`.
    ///
    /// An index at or past the field count fails with `NotAField`; in range,
    /// whether the parse succeeds is decided by `T`'s own parsing, and a
    /// failure carries the index and the decoded text.
    pub fn get<T: core::str::FromStr>(&self, index: usize) -> (r: Result<T, CsvError>)
        ensures
            match r {
                Ok(_) => index < self@.len(),
                Err(e) => match e {
                    CsvError::NotAField(i) => i == index && index >= self@.len(),
                    CsvError::ConversionError(i, value, _) => i == index && index < self@.len()
                        && value@ == lossy_of(self@[index as int]),
                    _ => false,
                },
            },
    {
        match self.get_value(index) {
            Some(text) => match parse_text::<T>(text.as_str()) {
                Some(v) => Ok(v),
                None => Err(CsvError::ConversionError(index, text, target_name_string::<T>())),
            },
            None => Err(CsvError::NotAField(index)),
        }
    }

    /// Removes the field at `index`, keeping every other field in order;
    /// does nothing when no such field exists.
    pub fn remove(&mut self, index: usize)
        ensures
            final(self)@ == if index < old(self)@.len() {
                old(self)@.remove(index as int)
            } else {
                old(self)@
            },
            final(self).spec_delim() == old(self).spec_delim(),
    {
        proof {
            use_type_invariant(&*self);
        }
        if index >= self.count() {
            return ;
        }
        let mut row = Row::new();
        row.delimiter(self.delim);
        let n = self.count();
        let mut i: usize = 0;
        while i < n
            invariant
                n == self@.len(),
                i <= n,
                index < n,
                row.spec_delim() == self.spec_delim(),
                row@ == if i <= index {
                    self@.subrange(0, i as int)
                } else {
                    self@.subrange(0, i as int).remove(index as int)
                },
            decreases n - i,
        {
            if i != index {
                match self.get_range(i) {
                    Some(b) => {
                        row.add_bytes(b);
                    },
                    None => {
                        proof {
                            assert(false);
                        }
                    },
                }
                proof {
                    if i < index {
                        assert(self@.subrange(0, i as int).push(self@[i as int]) =~= self@.subrange(
                            0,
                            i as int + 1,
                        ));
                    } else {
                        assert(self@.subrange(0, i as int).remove(index as int).push(
                            self@[i as int],
                        ) =~= self@.subrange(0, i as int + 1).remove(index as int));
                    }
                }
            } else {
                proof {
                    assert(self@.subrange(0, i as int + 1).remove(index as int) =~= self@.subrange(
                        0,
                        i as int,
                    ));
                }
            }
            i += 1;
        }
        proof {
            assert(self@.subrange(0, n as int) =~= self@);
        }
        *self = row;
    }

    /// Replaces the field at `index` with a new text value, rebuilding the
    /// row's buffer; does nothing when no such field exists.
    pub fn replace(&mut self, index: usize, field: &str)
        ensures
            final(self)@ == if index < old(self)@.len() {
                old(self)@.update(index as int, encode_utf8(field@))
            } else {
                old(self)@
            },
            final(self).spec_delim() == old(self).spec_delim(),
    {
        proof {
            use_type_invariant(&*self);
        }
        if index >= self.count() {
            return ;
        }
        let mut row = Row::new();
        row.delimiter(self.delim);
        let n = self.count();
        let mut i: usize = 0;
        while i < n
            invariant
                n == self@.len(),
                i <= n,
                index < n,
                row.spec_delim() == self.spec_delim(),
                row@ == if i <= index {
                    self@.subrange(0, i as int)
                } else {
                    self@.subrange(0, i as int).update(index as int, encode_utf8(field@))
                },
            decreases n - i,
        {
            if i == index {
                row.add(field);
                proof {
                    assert(self@.subrange(0, i as int).push(encode_utf8(field@)) =~= self@.subrange(
                        0,
                        i as int + 1,
                    ).update(index as int, encode_utf8(field@)));
                }
            } else {
                match self.get_range(i) {
                    Some(b) => {
                        row.add_bytes(b);
                    },
                    None => {
                        proof {
                            assert(false);
                        }
                    },
                }
                proof {
                    if i < index {
                        assert(self@.subrange(0, i as int).push(self@[i as int]) =~= self@.subrange(
                            0,
                            i as int + 1,
                        ));
                    } else {
                        assert(self@.subrange(0, i as int).update(
                            index as int,
                            encode_utf8(field@),
                        ).push(self@[i as int]) =~= self@.subrange(0, i as int + 1).update(
                            index as int,
                            encode_utf8(field@),
                        ));
                    }
                }
            }
            i += 1;
        }
        proof {
            assert(self@.subrange(0, n as int) =~= self@);
            assert(self@.subrange(0, n as int).update(index as int, encode_utf8(field@))
                =~= self@.update(index as int, encode_utf8(field@)));
        }
        *self = row;
    }

    /// The row rendered as bytes: each field escaped, fields joined by the
    /// row's own separator, without a line terminator.
    pub fn render_bytes(&self) -> (r: Vec<u8>)
        ensures
            r@ == render_record(self@, self.spec_delim()),
    {
        let d = self.delim;
        let mut out: Vec<u8> = Vec::new();
        let n = self.count();
        let mut k: usize = 0;
        proof {
            assert(self@.subrange(0, 0) =~= Seq::<Seq<u8>>::empty());
        }
        while k < n
            invariant
                k <= n,
                n == self@.len(),
                d == self.spec_delim(),
                out@ == render_record(self@.subrange(0, k as int), d),
            decreases n - k,
        {
            if k > 0 {
                out.push(d);
            }
            match self.get_range(k) {
                Some(b) => {
                    push_escaped(&mut out, b, d);
                },
                None => {
                    proof {
                        assert(false);
                    }
                },
            }
            proof {
                assert(self@.subrange(0, k as int + 1) =~= self@.subrange(0, k as int).push(
                    self@[k as int],
                ));
                lemma_render_snoc(self@.subrange(0, k as int), self@[k as int], d);
                assert(out@ =~= render_record(self@.subrange(0, k as int + 1), d));
            }
            k += 1;
        }
        proof {
            assert(self@.subrange(0, n as int) =~= self@);
        }
        out
    }

    /// The row rendered as text, decoded tolerantly: the row's display
    /// form.  It escapes exactly as the writer does.
    pub fn to_text(&self) -> (r: String)
        ensures
            r@ == lossy_of(render_record(self@, self.spec_delim())),
    {
        let b = self.render_bytes();
        lossy_string(b.as_slice())
    }

    /// An iterator over the row's fields.
    pub fn iter(&self) -> (r: FieldsIter<'_>)
        ensures
            r.row_view() == self@,
            r.pos() == 0,
    {
        FieldsIter { row: self, index: 0 }
    }
}

impl Clone for Row {
    /// A clone holds the same fields and the same separator.
    fn clone(&self) -> (r: Self)
        ensures
            r@ == self@,
            r.spec_delim() == self.spec_delim(),
    {
        proof {
            use_type_invariant(&*self);
        }
        let mut row = Row::new();
        row.delimiter(self.delim);
        let n = self.count();
        let mut i: usize = 0;
        while i < n
            invariant
                n == self@.len(),
                i <= n,
                row.spec_delim() == self.spec_delim(),
                row@ == self@.subrange(0, i as int),
            decreases n - i,
        {
            match self.get_range(i) {
                Some(b) => {
                    row.add_bytes(b);
                },
                None => {
                    proof {
                        assert(false);
                    }
                },
            }
            proof {
                assert(self@.subrange(0, i as int).push(self@[i as int]) =~= self@.subrange(
                    0,
                    i as int + 1,
                ));
            }
            i += 1;
        }
        proof {
            assert(self@.subrange(0, n as int) =~= self@);
        }
        row
    }
}

/// Types that can be built from one CSV row.
pub trait FromRow: Sized {
    /// Builds a value of the implementing type from the given row.
    fn from(row: &Row) -> Result<Self, CsvError>;
}

/// Iterates over the fields of a row, yielding an owned [`Field`] for each.
pub struct FieldsIter<'a> {
    row: &'a Row,
    index: usize,
}

impl<'a> FieldsIter<'a> {
    /// The fields of the row being iterated.
    pub closed spec fn row_view(&self) -> Seq<Seq<u8>> {
        self.row@
    }

    /// How many fields have been yielded so far.
    pub closed spec fn pos(&self) -> int {
        self.index as int
    }

    /// The next field, or `None` once every field has been yielded.
    pub fn next(&mut self) -> (r: Option<Field>)
        ensures
            final(self).row_view() == old(self).row_view(),
            match r {
                Some(f) => old(self).pos() < old(self).row_view().len() && f@
                    == old(self).row_view()[old(self).pos()] && final(self).pos() == old(
                    self,
                ).pos() + 1,
                None => old(self).pos() >= old(self).row_view().len() && final(self).pos() == old(
                    self,
                ).pos(),
            },
    {
        let n = self.row.count();
        if self.index < n {
            match self.row.get_range(self.index) {
                Some(b) => {
                    let f = Field::new(b);
                    self.index = self.index + 1;
                    Some(f)
                },
                None => None,
            }
        } else {
            None
        }
    }
}

} // verus!
