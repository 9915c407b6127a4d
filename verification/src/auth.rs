//! The authentication gate: a request is authorized exactly when its claimed
//! username is in the credential table and the presented secret equals the
//! stored key. Credentials may arrive as a header pair or as query
//! parameters; both roads lead through the same decision.

use vstd::prelude::*;

verus! {

use crate::config::{Config, UserData};

/// Credentials carried in a query string.
pub struct AuthQuery {
    pub username: String,
    pub auth: String,
}

/// The one authorization decision: the record of `u`, if `u` is in the
/// table and `a` equals its key; nothing otherwise.
pub open spec fn auth_decision(c: Config, u: Seq<char>, a: Seq<char>) -> Option<UserData> {
    if c.user_map().contains_key(u) && c.user_map()[u].key@ == a {
        Some(c.user_map()[u])
    } else {
        None
    }
}

/// A view of an optional string.
pub open spec fn opt_view(o: Option<&str>) -> Option<Seq<char>> {
    match o {
        Some(s) => Some(s@),
        None => None,
    }
}

/// The decision for header-borne credentials: absent headers are refused,
/// present ones are judged by [`auth_decision`].
pub open spec fn header_auth_decision(c: Config, u: Option<Seq<char>>, a: Option<Seq<char>>) -> Option<
    UserData,
> {
    match (u, a) {
        (Some(un), Some(au)) => auth_decision(c, un, au),
        _ => None,
    }
}

/// Authenticates a claimed username against a presented secret.
pub fn is_authed<'a>(data: &'a Config, username: &str, auth: &str) -> (r: Option<&'a UserData>)
    requires
        data.wf(),
    ensures
        match r {
            Some(ud) => auth_decision(*data, username@, auth@) == Some(*ud),
            None => auth_decision(*data, username@, auth@) is None,
        },
{
    match data.lookup_user(username) {
        Some(userdata) => {
            let presented = auth.to_owned();
            if presented == userdata.key {
                Some(userdata)
            } else {
                None
            }
        },
        None => None,
    }
}

/// Authenticates credentials taken from request headers, either of which
/// may be missing.
pub fn is_authed_header<'a>(data: &'a Config, username: Option<&str>, auth: Option<&str>) -> (r:
    Option<&'a UserData>)
    requires
        data.wf(),
    ensures
        match r {
            Some(ud) => header_auth_decision(*data, opt_view(username), opt_view(auth)) == Some(
                *ud,
            ),
            None => header_auth_decision(*data, opt_view(username), opt_view(auth)) is None,
        },
{
    match (username, auth) {
        (Some(u), Some(a)) => is_authed(data, u, a),
        _ => None,
    }
}

/// Authenticates credentials taken from a query string.
pub fn is_authed_query<'a>(data: &'a Config, auth_query: &AuthQuery) -> (r: Option<&'a UserData>)
    requires
        data.wf(),
    ensures
        match r {
            Some(ud) => auth_decision(*data, auth_query.username@, auth_query.auth@) == Some(*ud),
            None => auth_decision(*data, auth_query.username@, auth_query.auth@) is None,
        },
{
    is_authed(data, auth_query.username.as_str(), auth_query.auth.as_str())
}

/// A username outside the credential table is refused whatever secret
/// is presented.
pub proof fn lemma_unknown_user_fails(c: Config, u: Seq<char>, a: Seq<char>)
    requires
        !c.user_map().contains_key(u),
    ensures
        auth_decision(c, u, a) is None,
{
}

/// For a known username, a presented secret equal to the stored key
/// succeeds, and any other presented secret is refused.
pub proof fn lemma_exact_match_decides(c: Config, u: Seq<char>, a: Seq<char>)
    requires
        c.user_map().contains_key(u),
    ensures
        a == c.user_map()[u].key@ ==> auth_decision(c, u, a) == Some(c.user_map()[u]),
        a != c.user_map()[u].key@ ==> auth_decision(c, u, a) is None,
{
}

/// A secret that deviates from the stored key in even a single character
/// is refused.
pub proof fn lemma_single_deviation_fails(c: Config, u: Seq<char>, a: Seq<char>, i: int)
    requires
        c.user_map().contains_key(u),
        a.len() == c.user_map()[u].key@.len(),
        0 <= i < a.len(),
        a[i] != c.user_map()[u].key@[i],
    ensures
        auth_decision(c, u, a) is None,
{
    assert(a != c.user_map()[u].key@);
}

/// Header-borne and query-borne credentials authorize identically: when
/// both header fields are present, the header decision for a pair is the
/// query decision for the same pair.
pub proof fn lemma_header_query_agree(c: Config, u: Seq<char>, a: Seq<char>)
    ensures
        header_auth_decision(c, Some(u), Some(a)) == auth_decision(c, u, a),
{
}

} // verus!
