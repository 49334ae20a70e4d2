//! Text conversions at the byte/string boundary.
//!
//! The library stores field contents as raw bytes.  Turning bytes into text
//! (tolerating malformed UTF-8), parsing text into a caller-chosen type, and
//! printing numbers are delegated to std through the small trusted functions
//! below; everything that depends on their results is verified against the
//! contracts stated here.

use vstd::prelude::*;

verus! {

/// The text that std's lossy UTF-8 decoding produces for the given bytes:
/// the decoded characters, with replacement characters substituted for
/// invalid sequences.  The result depends on the bytes alone.
pub uninterp spec fn lossy_of(bytes: Seq<u8>) -> Seq<char>;

/// Relies on `String::from_utf8_lossy`: decodes bytes as UTF-8 text without
/// ever failing, substituting U+FFFD for invalid sequences; valid UTF-8 is
/// decoded unchanged, which ties the name `lossy_of` to vstd's
/// `decode_utf8` on valid input.
#[verifier::external_body]
pub(crate) fn lossy_string(bytes: &[u8]) -> (r: String)
    ensures
        r@ == lossy_of(bytes@),
        vstd::utf8::valid_utf8(bytes@) ==> r@ == vstd::utf8::decode_utf8(bytes@),
{
    String::from_utf8_lossy(bytes).into_owned()
}

/// Relies on `str::parse`: whether it succeeds, and which value it returns,
/// is decided entirely by `T`'s `FromStr` implementation, which callers of
/// this library supply; nothing is promised of the outcome.
#[verifier::external_body]
pub(crate) fn parse_text<T: core::str::FromStr>(s: &str) -> (r: Option<T>) {
    s.parse::<T>().ok()
}

/// Relies on `core::str::from_utf8`: it succeeds exactly on valid UTF-8,
/// decoding it unchanged, and fails on anything else.
#[verifier::external_body]
pub(crate) fn strict_string(bytes: &[u8]) -> (r: Option<String>)
    ensures
        match r {
            Some(s) => vstd::utf8::valid_utf8(bytes@) && s@ == vstd::utf8::decode_utf8(bytes@),
            None => !vstd::utf8::valid_utf8(bytes@),
        },
{
    match core::str::from_utf8(bytes) {
        Ok(s) => Some(String::from(s)),
        Err(_) => None,
    }
}

/// Relies on the `Debug` rendering of `core::marker::PhantomData`, which
/// names its type parameter: a diagnostic name for the type `T`, used only
/// inside error messages; nothing is promised of its content.
#[verifier::external_body]
pub(crate) fn target_name_string<T>() -> (r: String) {
    format!("{:?}", core::marker::PhantomData::<T>)
}

/// The decimal digit character for a value below ten.
pub open spec fn decimal_digit(n: nat) -> char
    recommends
        n < 10,
{
    ((n + 48) as u8) as char
}

/// The decimal digits of `n`, most significant first.
pub open spec fn decimal_of(n: nat) -> Seq<char>
    decreases n,
{
    if n < 10 {
        seq![decimal_digit(n)]
    } else {
        decimal_of(n / 10).push(decimal_digit(n % 10))
    }
}

/// Relies on the `Display` implementation of `usize`: it prints the decimal
/// digits of the value, most significant first, with no sign or padding.
#[verifier::external_body]
pub(crate) fn usize_string(n: usize) -> (r: String)
    ensures
        r@ == decimal_of(n as nat),
{
    n.to_string()
}

} // verus!
