//! The calls into outside crates that the library's logic depends on,
//! each behind a contract that states no more than the crate's own
//! source shows.

use vstd::prelude::*;
use rand::distr::SampleString;

verus! {

use crate::names::{all_alnum, is_alnum};

/// What the filename sanitizer returns for a given name. The options are
/// fixed in [`sanitize_name`], so the result is a function of the name alone.
pub uninterp spec fn sanitized_of(s: Seq<char>) -> Seq<char>;

/// What percent-encoding returns for a given string.
pub uninterp spec fn encoded_of(s: Seq<char>) -> Seq<char>;

/// A character that percent-encoding passes through unchanged.
pub open spec fn is_unreserved(c: char) -> bool {
    is_alnum(c) || c == '-' || c == '_' || c == '.' || c == '~'
}

/// Relies on `sanitize_filename::sanitize_with_options`, called with fixed
/// options (Windows rules on, truncation on, empty replacement), so that the
/// result does not depend on the platform. The sanitizer deletes every `/`
/// and `\` among the other illegal characters, and a name consisting solely
/// of dots is emptied, so neither `.` nor `..` can come back.
#[verifier::external_body]
pub(crate) fn sanitize_name(name: &str) -> (r: String)
    ensures
        r@ == sanitized_of(name@),
        forall|i: int| 0 <= i < r@.len() ==> (#[trigger] r@[i]) != '/' && r@[i] != '\\',
        r@ != seq!['.'],
        r@ != seq!['.', '.'],
{
    sanitize_filename::sanitize_with_options(
        name,
        sanitize_filename::Options { windows: true, truncate: true, replacement: "" },
    )
}

/// Relies on `urlencoding::encode`: it percent-encodes every byte except
/// the ASCII letters and digits and `-`, `_`, `.`, `~`, so a string of
/// unreserved characters comes back unchanged.
#[verifier::external_body]
pub(crate) fn encode_component(s: &str) -> (r: String)
    ensures
        r@ == encoded_of(s@),
        (forall|i: int| 0 <= i < s@.len() ==> is_unreserved(#[trigger] s@[i])) ==> r@ == s@,
{
    urlencoding::encode(s).into_owned()
}

/// Relies on `rand`'s `Alphanumeric` distribution and `SampleString`: the
/// sample is `len` characters long and every character is an ASCII letter
/// or digit. Nothing is assumed about which string comes back.
#[verifier::external_body]
pub(crate) fn random_alnum_string(len: usize) -> (r: String)
    ensures
        r@.len() == len as nat,
        all_alnum(r@),
{
    rand::distr::Alphanumeric.sample_string(&mut rand::rng(), len)
}

} // verus!
