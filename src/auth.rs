//! Logging in: the form body that is posted, and the session cookie that the
//! reply's `Set-Cookie` headers make.

use vstd::prelude::*;

use reqwest::header::HeaderMap;

use crate::error::ClientError;
use crate::text::{contains, contains_str};

verus! {

#[verifier::external_type_specification]
#[verifier::external_body]
#[verifier::reject_recursive_types(T)]
pub struct ExHeaderMap<T>(reqwest::header::HeaderMap<T>);

#[verifier::external_type_specification]
#[verifier::external_body]
pub struct ExHeaderValue(reqwest::header::HeaderValue);

/// The values of the `Set-Cookie` header in `headers`, in the order they were
/// added: each is its text when it holds visible ASCII only, else `None`.
pub uninterp spec fn set_cookie_values(headers: HeaderMap) -> Seq<Option<Seq<char>>>;

/// Relies on `HeaderMap::get_all`, which yields the values under one name in
/// the order they were added, and on `HeaderValue::to_str`, which gives the
/// text of a value that holds visible ASCII only and fails on any other.
#[verifier::external_body]
fn set_cookie_texts(headers: &HeaderMap) -> (r: Vec<Option<String>>)
    ensures
        r.deep_view() == set_cookie_values(*headers),
{
    let mut r = Vec::new();
    for value in headers.get_all(reqwest::header::SET_COOKIE) {
        match value.to_str() {
            Ok(text) => r.push(Some(text.to_string())),
            Err(_) => r.push(None),
        }
    }
    r
}

/// The parts joined, with `sep` between two neighbours.
pub open spec fn join(parts: Seq<Seq<char>>, sep: Seq<char>) -> Seq<char>
    decreases parts.len(),
{
    if parts.len() == 0 {
        Seq::empty()
    } else if parts.len() == 1 {
        parts[0]
    } else {
        join(parts.drop_last(), sep) + sep + parts.last()
    }
}

/// True when every value is text.
pub open spec fn all_text(values: Seq<Option<Seq<char>>>) -> bool {
    forall|i: int| 0 <= i < values.len() ==> (#[trigger] values[i]) is Some
}

/// The texts of values that are all text.
pub open spec fn texts(values: Seq<Option<Seq<char>>>) -> Seq<Seq<char>> {
    values.map_values(|v: Option<Seq<char>>| v->Some_0)
}

/// The session cookie of a reply: its `Set-Cookie` values joined by `", "`,
/// or `None` when one of them is not text.
pub open spec fn cookie_of(headers: HeaderMap) -> Option<Seq<char>> {
    let values = set_cookie_values(headers);
    if all_text(values) {
        Some(join(texts(values), ", "@))
    } else {
        None
    }
}

/// The cookie that only a successful login sets.
pub open spec fn session_marker() -> Seq<char> {
    "BITRIX_SM_UIDL="@
}

/// The form body of the login request; the credentials stand in it as they
/// are, without escaping.
pub open spec fn login_body(username: Seq<char>, password: Seq<char>) -> Seq<char> {
    "AUTH_FORM=Y&TYPE=AUTH&backurl=%2Fen%2F&USER_LOGIN="@ + username + "&USER_PASSWORD="@
        + password + "&USER_REMEMBER=Y&Login=Authorize"@
}

/// The body to post for a login, or `MissingCredentials` when the username
/// or the password is empty.
pub fn login_request(username: &str, password: &str) -> (r: Result<String, ClientError>)
    ensures
        username@.len() == 0 || password@.len() == 0 ==> r == Err::<String, ClientError>(
            ClientError::MissingCredentials,
        ),
        username@.len() > 0 && password@.len() > 0 ==> r is Ok && r->Ok_0@ == login_body(
            username@,
            password@,
        ),
{
    if username.is_empty() || password.is_empty() {
        return Err(ClientError::MissingCredentials);
    }
    let mut body = String::from_str("AUTH_FORM=Y&TYPE=AUTH&backurl=%2Fen%2F&USER_LOGIN=");
    body.append(username);
    body.append("&USER_PASSWORD=");
    body.append(password);
    body.append("&USER_REMEMBER=Y&Login=Authorize");
    Ok(body)
}

/// All `Set-Cookie` values of `headers` joined by `", "`, in the order they
/// were added, or `None` when one of them is not text.
pub fn parse_cookie(headers: &HeaderMap) -> (r: Option<String>)
    ensures
        r.deep_view() == cookie_of(*headers),
{
    let values = set_cookie_texts(headers);
    let ghost vs = values.deep_view();
    let mut cookie = String::new();
    let mut i: usize = 0;
    while i < values.len()
        invariant
            i <= values.len(),
            vs == values.deep_view(),
            vs == set_cookie_values(*headers),
            all_text(vs.take(i as int)),
            cookie@ == join(texts(vs.take(i as int)), ", "@),
        decreases values.len() - i,
    {
        let ghost before = texts(vs.take(i as int));
        match &values[i] {
            None => {
                assert(vs[i as int] is None);
                assert(!all_text(vs));
                return None;
            },
            Some(text) => {
                if i > 0 {
                    cookie.append(", ");
                }
                cookie.append(text.as_str());
                proof {
                    assert(vs[i as int] == Some(text@));
                    assert(texts(vs.take(i + 1)) =~= before.push(text@));
                    assert(before.push(text@).drop_last() =~= before);
                    if i == 0 {
                        assert(cookie@ =~= text@);
                    }
                    assert(all_text(vs.take(i + 1))) by {
                        assert forall|j: int| 0 <= j < i + 1 implies (#[trigger] vs.take(i + 1)[j]) is Some by {
                            if j < i {
                                assert(vs.take(i + 1)[j] == vs.take(i as int)[j]);
                            }
                        }
                    }
                }
            },
        }
        i = i + 1;
    }
    assert(vs.take(values.len() as int) =~= vs);
    Some(cookie)
}

/// The session cookie of a login reply. Fails with `AuthenticationFailed`
/// when the cookie does not hold the session marker, and with
/// `MalformedResponse` when a `Set-Cookie` value is not text.
pub fn login_cookie(headers: &HeaderMap) -> (r: Result<String, ClientError>)
    ensures
        match cookie_of(*headers) {
            None => r == Err::<String, ClientError>(ClientError::MalformedResponse),
            Some(c) => if contains(c, session_marker()) {
                r is Ok && r->Ok_0@ == c
            } else {
                r == Err::<String, ClientError>(ClientError::AuthenticationFailed)
            },
        },
{
    match parse_cookie(headers) {
        None => Err(ClientError::MalformedResponse),
        Some(cookie) => {
            if contains_str(cookie.as_str(), "BITRIX_SM_UIDL=") {
                Ok(cookie)
            } else {
                Err(ClientError::AuthenticationFailed)
            }
        },
    }
}

} // verus!
