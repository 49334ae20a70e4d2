//! Field escaping.
//!
//! A field whose bytes contain a double quote, the separator, or a line
//! break is wrapped in double quotes, with every inner double quote doubled.
//! Any other field is written verbatim.  Both the writer and the row's own
//! text rendering go through [`push_escaped`], so the two stay consistent
//! by construction.

use crate::row::CR_BYTE;
use crate::row::LF_BYTE;
use crate::row::QUOTE_BYTE;
use vstd::prelude::*;

verus! {

/// Whether a byte forces its field to be quoted.
pub open spec fn is_special(b: u8, delim: u8) -> bool {
    b == QUOTE_BYTE || b == delim || b == CR_BYTE || b == LF_BYTE
}

/// Whether a field must be wrapped in quotes: it contains a double quote,
/// the separator, or a line break.
pub open spec fn needs_quoting(f: Seq<u8>, delim: u8) -> bool {
    exists|j: int| 0 <= j < f.len() && #[trigger] is_special(f[j], delim)
}

/// The field's bytes with every double quote doubled.
pub open spec fn double_quotes(f: Seq<u8>) -> Seq<u8>
    decreases f.len(),
{
    if f.len() == 0 {
        Seq::empty()
    } else if f[0] == QUOTE_BYTE {
        seq![QUOTE_BYTE, QUOTE_BYTE] + double_quotes(f.skip(1))
    } else {
        seq![f[0]] + double_quotes(f.skip(1))
    }
}

/// The escaped rendering of one field.
pub open spec fn escape_field(f: Seq<u8>, delim: u8) -> Seq<u8> {
    if needs_quoting(f, delim) {
        seq![QUOTE_BYTE] + double_quotes(f) + seq![QUOTE_BYTE]
    } else {
        f
    }
}

/// The rendering of a whole record: each field escaped, fields joined by
/// the separator, no separator after the last field and no terminator.
pub open spec fn render_record(fields: Seq<Seq<u8>>, delim: u8) -> Seq<u8>
    decreases fields.len(),
{
    if fields.len() == 0 {
        Seq::empty()
    } else if fields.len() == 1 {
        escape_field(fields[0], delim)
    } else {
        escape_field(fields[0], delim) + seq![delim] + render_record(fields.skip(1), delim)
    }
}

/// A record as the writer puts it on the wire: the rendering followed by a
/// carriage return and line feed.
pub open spec fn write_record(fields: Seq<Seq<u8>>, delim: u8) -> Seq<u8> {
    render_record(fields, delim) + seq![CR_BYTE, LF_BYTE]
}

/// Doubling quotes distributes over appending one byte at the end.
pub proof fn lemma_double_quotes_snoc(s: Seq<u8>, b: u8)
    ensures
        double_quotes(s.push(b)) == double_quotes(s) + (if b == QUOTE_BYTE {
            seq![QUOTE_BYTE, QUOTE_BYTE]
        } else {
            seq![b]
        }),
    decreases s.len(),
{
    let tail: Seq<u8> = if b == QUOTE_BYTE {
        seq![QUOTE_BYTE, QUOTE_BYTE]
    } else {
        seq![b]
    };
    if s.len() == 0 {
        assert(s.push(b)[0] == b);
        assert(s.push(b).skip(1) =~= Seq::<u8>::empty());
        assert(double_quotes(Seq::<u8>::empty()) == Seq::<u8>::empty());
        assert(double_quotes(s.push(b)) =~= double_quotes(s) + tail);
    } else {
        assert(s.push(b).skip(1) =~= s.skip(1).push(b));
        lemma_double_quotes_snoc(s.skip(1), b);
        assert(s.push(b)[0] == s[0]);
        if s[0] == QUOTE_BYTE {
            assert(double_quotes(s.push(b)) =~= double_quotes(s) + tail);
        } else {
            assert(double_quotes(s.push(b)) =~= double_quotes(s) + tail);
        }
    }
}

/// Rendering distributes over appending one field at the end.
pub proof fn lemma_render_snoc(fields: Seq<Seq<u8>>, f: Seq<u8>, delim: u8)
    ensures
        render_record(fields.push(f), delim) == if fields.len() == 0 {
            escape_field(f, delim)
        } else {
            render_record(fields, delim) + seq![delim] + escape_field(f, delim)
        },
    decreases fields.len(),
{
    if fields.len() == 0 {
        assert(fields.push(f)[0] == f);
    } else if fields.len() == 1 {
        assert(fields.push(f)[0] == fields[0]);
        assert(fields.push(f).skip(1) =~= seq![f]);
        assert(render_record(seq![f], delim) == escape_field(f, delim));
        assert(render_record(fields.push(f), delim) =~= render_record(fields, delim) + seq![delim]
            + escape_field(f, delim));
    } else {
        assert(fields.push(f)[0] == fields[0]);
        assert(fields.push(f).skip(1) =~= fields.skip(1).push(f));
        lemma_render_snoc(fields.skip(1), f, delim);
        assert(render_record(fields.push(f), delim) =~= render_record(fields, delim) + seq![delim]
            + escape_field(f, delim));
    }
}

/// Appends the escaped rendering of one field to `out`.
pub(crate) fn push_escaped(out: &mut Vec<u8>, f: &[u8], delim: u8)
    ensures
        final(out)@ == old(out)@ + escape_field(f@, delim),
{
    let ghost out0 = out@;
    let n = f.len();
    let mut needs = false;
    let mut j: usize = 0;
    while j < n
        invariant
            j <= n,
            n == f@.len(),
            needs == exists|k: int| 0 <= k < j && #[trigger] is_special(f@[k], delim),
        decreases n - j,
    {
        let b = f[j];
        if b == QUOTE_BYTE || b == delim || b == CR_BYTE || b == LF_BYTE {
            needs = true;
            proof {
                assert(is_special(f@[j as int], delim));
            }
        } else {
            proof {
                assert(!is_special(f@[j as int], delim));
            }
        }
        j += 1;
    }
    assert(needs == needs_quoting(f@, delim));
    if needs {
        out.push(QUOTE_BYTE);
        let mut k: usize = 0;
        while k < n
            invariant
                k <= n,
                n == f@.len(),
                out@ == out0 + seq![QUOTE_BYTE] + double_quotes(f@.subrange(0, k as int)),
            decreases n - k,
        {
            let b = f[k];
            if b == QUOTE_BYTE {
                out.push(QUOTE_BYTE);
                out.push(QUOTE_BYTE);
            } else {
                out.push(b);
            }
            proof {
                assert(f@.subrange(0, k as int).push(f@[k as int]) =~= f@.subrange(
                    0,
                    k as int + 1,
                ));
                lemma_double_quotes_snoc(f@.subrange(0, k as int), f@[k as int]);
                assert(out@ =~= out0 + seq![QUOTE_BYTE] + double_quotes(
                    f@.subrange(0, k as int + 1),
                ));
            }
            k += 1;
        }
        out.push(QUOTE_BYTE);
        proof {
            assert(f@.subrange(0, n as int) =~= f@);
            assert(out@ =~= out0 + escape_field(f@, delim));
        }
    } else {
        let mut k: usize = 0;
        while k < n
            invariant
                k <= n,
                n == f@.len(),
                out@ == out0 + f@.subrange(0, k as int),
            decreases n - k,
        {
            out.push(f[k]);
            proof {
                assert(f@.subrange(0, k as int).push(f@[k as int]) =~= f@.subrange(
                    0,
                    k as int + 1,
                ));
            }
            k += 1;
        }
        proof {
            assert(f@.subrange(0, n as int) =~= f@);
            assert(out@ =~= out0 + escape_field(f@, delim));
        }
    }
}

} // verus!
