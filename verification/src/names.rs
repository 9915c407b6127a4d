//! The naming discipline: bucket names are non-empty ASCII alphanumeric
//! strings, and file names are confined to their bucket directory.

use vstd::prelude::*;
use vstd::string::StrSliceExecFns;

verus! {

/// True exactly of the ASCII letters and digits, the only characters
/// a bucket name may contain.
pub open spec fn is_alnum(c: char) -> bool {
    ('0' <= c && c <= '9') || ('A' <= c && c <= 'Z') || ('a' <= c && c <= 'z')
}

/// Every character of the sequence is an ASCII letter or digit.
pub open spec fn all_alnum(s: Seq<char>) -> bool {
    forall|i: int| 0 <= i < s.len() ==> is_alnum(#[trigger] s[i])
}

/// A valid bucket name: non-empty and alphanumeric throughout.
pub open spec fn valid_bucket_name(s: Seq<char>) -> bool {
    s.len() > 0 && all_alnum(s)
}

/// A file name that cannot make the resolved path leave its bucket
/// directory: it holds no path separator, so it names a direct child,
/// and it is not a dot name, so it does not point at the bucket itself
/// or its parent.
pub open spec fn confined_name(n: Seq<char>) -> bool {
    &&& forall|i: int| 0 <= i < n.len() ==> (#[trigger] n[i]) != '/' && n[i] != '\\'
    &&& n != seq!['.']
    &&& n != seq!['.', '.']
}

/// Decides whether a character is an ASCII letter or digit.
pub fn is_alnum_char(c: char) -> (r: bool)
    ensures
        r == is_alnum(c),
{
    ('0' <= c && c <= '9') || ('A' <= c && c <= 'Z') || ('a' <= c && c <= 'z')
}

/// Decides whether a string is a valid bucket name.
pub fn check_bucket_name(s: &str) -> (r: bool)
    ensures
        r == valid_bucket_name(s@),
{
    let n = s.unicode_len();
    if n == 0 {
        return false;
    }
    let mut i: usize = 0;
    while i < n
        invariant
            i <= n,
            n == s@.len(),
            forall|j: int| 0 <= j < i ==> is_alnum(#[trigger] s@[j]),
        decreases n - i,
    {
        let c = s.get_char(i);
        if !is_alnum_char(c) {
            assert(!is_alnum(s@[i as int]));
            return false;
        }
        i += 1;
    }
    true
}

} // verus!
