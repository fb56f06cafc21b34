//! Session identity: an opaque globally-unique identifier carried in a
//! client-side token. A request with a valid previously-issued token keeps
//! its identity; anything else gets a fresh identifier. This never fails.

use vstd::prelude::*;

verus! {

/// How many days a freshly issued session token stays valid on the client.
/// The token is marked inaccessible to page scripts and sent only on
/// same-site requests; attaching it is the caller's side of the boundary.
pub const SESSION_TOKEN_VALIDITY_DAYS: u64 = 30;

/// Whether the uuid crate accepts a token text as an identifier.
pub uninterp spec fn token_accepted(t: Seq<char>) -> bool;

/// The canonical (hyphenated, lower-case) writing of an accepted token.
pub uninterp spec fn token_canonical(t: Seq<char>) -> Seq<char>;

/// Relies on `uuid::Uuid::parse_str` and `uuid::Uuid`'s `Display`:
/// `parse_str` decides purely syntactically whether the text is an identifier
/// in one of the crate's supported writings (`token_accepted`), and
/// displaying the parsed value gives the hyphenated lower-case form
/// (`token_canonical`), which is 36 characters long. Both depend on the text
/// alone.
#[verifier::external_body]
fn normalize_token(t: &str) -> (r: Option<String>)
    ensures
        r is Some <==> token_accepted(t@),
        r matches Some(c) ==> c@ == token_canonical(t@) && c@.len() == 36,
{
    match uuid::Uuid::parse_str(t) {
        Ok(u) => Some(u.to_string()),
        Err(_) => None,
    }
}

/// Relies on `uuid::Uuid::new_v4` and `uuid::Uuid`'s `Display`: a freshly
/// generated random identifier, displayed in the hyphenated form of 36
/// characters. The value is random; nothing else is assumed of it.
#[verifier::external_body]
fn fresh_session_id() -> (r: String)
    ensures
        r@.len() == 36,
{
    uuid::Uuid::new_v4().to_string()
}

/// Resolve the session of a request. A valid token keeps its identity, in
/// canonical writing; a missing or malformed token yields a fresh identifier
/// instead — never an error. The flag says the identifier is fresh, so the
/// caller attaches it to the response as a persistent token.
pub fn get_or_create_session_id(token: Option<&str>) -> (r: (String, bool))
    ensures
        r.0@.len() == 36,
        match token {
            Some(t) => if token_accepted(t@) {
                r.0@ == token_canonical(t@) && !r.1
            } else {
                r.1
            },
            None => r.1,
        },
{
    match token {
        Some(t) => match normalize_token(t) {
            Some(id) => (id, false),
            None => (fresh_session_id(), true),
        },
        None => (fresh_session_id(), true),
    }
}

} // verus!
