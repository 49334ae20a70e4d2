//! The writer.
//!
//! A [`Writer`] serializes rows into an in-memory byte sink, one record per
//! call, each terminated by a carriage return and line feed.  The escaping
//! applied to each field is the one written down in [`crate::escape`]; the
//! caller takes the accumulated bytes out of the writer and sends them
//! wherever they should go.

use crate::errors::CsvError;
use crate::escape::lemma_render_snoc;
use crate::escape::push_escaped;
use crate::escape::render_record;
use crate::escape::write_record;
use crate::row::CR_BYTE;
use crate::row::LF_BYTE;
use crate::row::Row;
use vstd::prelude::*;

verus! {

/// The separator a writer uses for a row: the writer's own override when
/// one was set, else the row's.
pub open spec fn effective_delim(opt: Option<u8>, row: Row) -> u8 {
    match opt {
        Some(d) => d,
        None => row.spec_delim(),
    }
}

/// The bytes that writing each of `rows` in order appends to the sink.
pub open spec fn write_rows(rows: Seq<Row>, opt: Option<u8>) -> Seq<u8>
    decreases rows.len(),
{
    if rows.len() == 0 {
        Seq::empty()
    } else {
        write_record(rows[0]@, effective_delim(opt, rows[0])) + write_rows(rows.skip(1), opt)
    }
}

/// Serializes rows into an owned byte buffer.
#[derive(Debug)]
pub struct Writer {
    out: Vec<u8>,
    delimiter: Option<u8>,
}

impl Writer {
    /// The bytes written so far.
    pub closed spec fn spec_out(&self) -> Seq<u8> {
        self.out@
    }

    /// The writer's separator override, if one was set.
    pub closed spec fn spec_delimiter(&self) -> Option<u8> {
        self.delimiter
    }

    /// A new writer with an empty sink and no separator override.
    pub fn new() -> (r: Self)
        ensures
            r.spec_out() == Seq::<u8>::empty(),
            r.spec_delimiter() is None,
    {
        Writer { out: Vec::new(), delimiter: None }
    }

    /// Sets the separator this writer uses for every row it writes.
    pub fn with_delimiter(self, delim: u8) -> (r: Self)
        ensures
            r.spec_out() == self.spec_out(),
            r.spec_delimiter() == Some(delim),
    {
        Writer { out: self.out, delimiter: Some(delim) }
    }

    /// A reference to the bytes written so far.
    pub fn as_bytes(&self) -> (r: &Vec<u8>)
        ensures
            r@ == self.spec_out(),
    {
        &self.out
    }

    /// Consumes the writer, handing out the bytes written.
    pub fn into_bytes(self) -> (r: Vec<u8>)
        ensures
            r@ == self.spec_out(),
    {
        self.out
    }

    /// Writes one row: its fields escaped and joined by the separator,
    /// followed by a carriage return and line feed.
    pub fn write(&mut self, row: &Row) -> (r: Result<(), CsvError>)
        ensures
            r is Ok,
            final(self).spec_delimiter() == old(self).spec_delimiter(),
            final(self).spec_out() == old(self).spec_out() + write_record(
                row@,
                effective_delim(old(self).spec_delimiter(), *row),
            ),
    {
        let d = match self.delimiter {
            Some(x) => x,
            None => row.delimiter_byte(),
        };
        let ghost out0 = self.out@;
        let ghost opt0 = self.delimiter;
        let n = row.count();
        let mut k: usize = 0;
        while k < n
            invariant
                k <= n,
                n == row@.len(),
                self.delimiter == opt0,
                d == effective_delim(opt0, *row),
                self.out@ == out0 + render_record(row@.subrange(0, k as int), d),
            decreases n - k,
        {
            if k > 0 {
                self.out.push(d);
            }
            match row.get_range(k) {
                Some(b) => {
                    push_escaped(&mut self.out, b, d);
                },
                None => {
                    proof {
                        assert(false);
                    }
                },
            }
            proof {
                assert(row@.subrange(0, k as int + 1) =~= row@.subrange(0, k as int).push(
                    row@[k as int],
                ));
                lemma_render_snoc(row@.subrange(0, k as int), row@[k as int], d);
                assert(self.out@ =~= out0 + render_record(row@.subrange(0, k as int + 1), d));
            }
            k += 1;
        }
        self.out.push(CR_BYTE);
        self.out.push(LF_BYTE);
        proof {
            assert(row@.subrange(0, n as int) =~= row@);
            assert(self.out@ =~= out0 + write_record(row@, d));
        }
        Ok(())
    }

    /// Writes each of the given rows in order.
    pub fn write_all(&mut self, rows: &[Row]) -> (r: Result<(), CsvError>)
        ensures
            r is Ok,
            final(self).spec_delimiter() == old(self).spec_delimiter(),
            final(self).spec_out() == old(self).spec_out() + write_rows(
                rows@,
                old(self).spec_delimiter(),
            ),
    {
        let ghost out0 = self.out@;
        let ghost opt0 = self.delimiter;
        let n = rows.len();
        let mut k: usize = 0;
        proof {
            assert(rows@.skip(0) =~= rows@);
        }
        while k < n
            invariant
                k <= n,
                n == rows@.len(),
                self.delimiter == opt0,
                out0 + write_rows(rows@, opt0) == self.out@ + write_rows(
                    rows@.skip(k as int),
                    opt0,
                ),
            decreases n - k,
        {
            let ghost pre = self.out@;
            let _ = self.write(&rows[k]);
            proof {
                let rest = rows@.skip(k as int);
                assert(rest[0] == rows@[k as int]);
                assert(rest.skip(1) =~= rows@.skip(k as int + 1));
                let w = write_record(rows@[k as int]@, effective_delim(opt0, rows@[k as int]));
                assert(write_rows(rest, opt0) == w + write_rows(rows@.skip(k as int + 1), opt0));
                assert(pre + (w + write_rows(rows@.skip(k as int + 1), opt0)) =~= (pre + w)
                    + write_rows(rows@.skip(k as int + 1), opt0));
            }
            k += 1;
        }
        proof {
            assert(rows@.skip(n as int) =~= Seq::<Row>::empty());
            assert(write_rows(Seq::<Row>::empty(), opt0) == Seq::<u8>::empty());
            assert(self.out@ + Seq::<u8>::empty() =~= self.out@);
        }
        Ok(())
    }
}

} // verus!
