use vstd::prelude::*;
use crate::message::opt_view;

verus! {

/// The identity that a credential names, if the credential is known.
pub open spec fn spec_resolve(credential: Seq<char>) -> Option<Seq<char>> {
    if credential == "token-alice"@ {
        Some("alice"@)
    } else if credential == "token-bob"@ {
        Some("bob"@)
    } else if credential == "token-charlie"@ {
        Some("charlie"@)
    } else {
        None
    }
}

/// The credential carried by an `Authorization` header value of the form
/// `Bearer <credential>`.
pub open spec fn spec_bearer_token(header: Seq<char>) -> Option<Seq<char>> {
    if header.len() >= 7 && header.subrange(0, 7) == "Bearer "@ {
        Some(header.subrange(7, header.len() as int))
    } else {
        None
    }
}

fn str_equals(a: &str, b: &str) -> (r: bool)
    ensures
        r == (a@ == b@),
{
    let n = a.unicode_len();
    if n != b.unicode_len() {
        return false;
    }
    let mut i: usize = 0;
    while i < n
        invariant
            n == a@.len(),
            n == b@.len(),
            i <= n,
            forall|j: int| 0 <= j < i ==> a@[j] == b@[j],
        decreases n - i,
    {
        if a.get_char(i) != b.get_char(i) {
            return false;
        }
        i = i + 1;
    }
    assert(a@ =~= b@);
    true
}

/// Maps a credential to the identity it names, or rejects it.
pub fn resolve(credential: &str) -> (r: Option<String>)
    ensures
        r matches Some(s) ==> spec_resolve(credential@) == Some(s@),
        r is None ==> spec_resolve(credential@) is None,
{
    if str_equals(credential, "token-alice") {
        Some(String::from_str("alice"))
    } else if str_equals(credential, "token-bob") {
        Some(String::from_str("bob"))
    } else if str_equals(credential, "token-charlie") {
        Some(String::from_str("charlie"))
    } else {
        None
    }
}

/// Takes the credential out of a `Bearer <credential>` header value.
pub fn bearer_token(header: &str) -> (r: Option<&str>)
    ensures
        r matches Some(s) ==> spec_bearer_token(header@) == Some(s@),
        r is None ==> spec_bearer_token(header@) is None,
{
    let n = header.unicode_len();
    if n < 7 {
        return None;
    }
    let prefix = header.substring_char(0, 7);
    if !str_equals(prefix, "Bearer ") {
        return None;
    }
    Some(header.substring_char(7, n))
}

/// The text of the string member `key` of the JSON object `text`, if `text`
/// is one JSON document, an object, with a member `key` that is a string.
pub uninterp spec fn json_string_member(text: Seq<char>, key: Seq<char>) -> Option<Seq<char>>;

/// Relies on serde_json::from_str into a `serde_json::Value`, then
/// `Value::get(key)` and `Value::as_str`: the result depends on `text` and
/// `key` alone.
#[verifier::external_body]
fn string_member(text: &str, key: &str) -> (r: Option<String>)
    ensures
        opt_view(r) == json_string_member(text@, key@),
{
    let v: serde_json::Value = serde_json::from_str(text).ok()?;
    v.get(key)?.as_str().map(|t| t.to_string())
}

/// The identity named by a first frame of the form `{"token": "<credential>"}`.
/// A frame that is not such an object, or whose credential is unknown, names
/// none.
pub fn extract_username_from_message(text: &str) -> (r: Option<String>)
    ensures
        opt_view(r) == match json_string_member(text@, "token"@) {
            Some(t) => spec_resolve(t),
            None => None,
        },
{
    match string_member(text, "token") {
        Some(t) => resolve(t.as_str()),
        None => None,
    }
}

/// The identity named by an `Authorization` header value, if it carries a
/// known bearer credential.
pub fn extract_username(header: &str) -> (r: Option<String>)
    ensures
        r matches Some(s) ==> (spec_bearer_token(header@) matches Some(t) && spec_resolve(t)
            == Some(s@)),
        r is None ==> (spec_bearer_token(header@) matches Some(t) ==> spec_resolve(t) is None),
{
    match bearer_token(header) {
        Some(token) => resolve(token),
        None => None,
    }
}

} // verus!
