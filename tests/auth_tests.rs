use dcs_server_list::auth::{login_cookie, login_request, parse_cookie};
use dcs_server_list::error::ClientError;
use reqwest::header::{HeaderMap, HeaderValue, CONTENT_TYPE, SET_COOKIE};

fn with_cookies(values: &[&str]) -> HeaderMap {
    let mut h = HeaderMap::new();
    h.insert(CONTENT_TYPE, HeaderValue::from_static("text/html"));
    for v in values {
        h.append(SET_COOKIE, HeaderValue::from_str(v).unwrap());
    }
    h
}

#[test]
fn login_body_is_exact() {
    let body = login_request("pilot", "s3cret").unwrap();
    assert_eq!(
        body,
        "AUTH_FORM=Y&TYPE=AUTH&backurl=%2Fen%2F&USER_LOGIN=pilot&USER_PASSWORD=s3cret&USER_REMEMBER=Y&Login=Authorize"
    );
}

#[test]
fn login_body_keeps_credentials_unescaped() {
    let body = login_request("a&b", "p=q").unwrap();
    assert!(body.contains("USER_LOGIN=a&b&USER_PASSWORD=p=q&"));
}

#[test]
fn empty_username_is_missing_credentials() {
    assert_eq!(login_request("", "pw"), Err(ClientError::MissingCredentials));
}

#[test]
fn empty_password_is_missing_credentials() {
    assert_eq!(login_request("user", ""), Err(ClientError::MissingCredentials));
    assert_eq!(login_request("", ""), Err(ClientError::MissingCredentials));
}

#[test]
fn cookies_are_joined_in_order() {
    let h = with_cookies(&["A=1; path=/", "BITRIX_SM_UIDL=abc; path=/", "C=3"]);
    assert_eq!(parse_cookie(&h).unwrap(), "A=1; path=/, BITRIX_SM_UIDL=abc; path=/, C=3");
}

#[test]
fn no_cookies_is_empty_text() {
    let h = with_cookies(&[]);
    assert_eq!(parse_cookie(&h).unwrap(), "");
}

#[test]
fn non_text_cookie_is_none() {
    let mut h = with_cookies(&["A=1"]);
    h.append(SET_COOKIE, HeaderValue::from_bytes(b"B=\xff").unwrap());
    assert_eq!(parse_cookie(&h), None);
    assert_eq!(login_cookie(&h), Err(ClientError::MalformedResponse));
}

#[test]
fn cookie_with_marker_logs_in() {
    let h = with_cookies(&["PHPSESSID=x", "BITRIX_SM_UIDL=abc123"]);
    assert_eq!(login_cookie(&h).unwrap(), "PHPSESSID=x, BITRIX_SM_UIDL=abc123");
}

#[test]
fn cookie_without_marker_fails() {
    let h = with_cookies(&["PHPSESSID=x", "BITRIX_SM_LOGIN=pilot"]);
    assert_eq!(login_cookie(&h), Err(ClientError::AuthenticationFailed));
    assert_eq!(login_cookie(&with_cookies(&[])), Err(ClientError::AuthenticationFailed));
}

#[test]
fn error_messages() {
    assert_eq!(ClientError::MissingCredentials.message(), "No username or password");
    assert_eq!(ClientError::AuthenticationFailed.message(), "username/password incorrect");
    assert!(!ClientError::TransportError.message().is_empty());
    assert!(!ClientError::MalformedResponse.message().is_empty());
    assert!(!ClientError::NumericParseFailure.message().is_empty());
}
