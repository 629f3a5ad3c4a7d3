use dcs_server_list::error::ClientError;
use dcs_server_list::servers::{header_line, Server, Servers};
use dcs_server_list::session::{Action, Event, Session, Stage};
use reqwest::header::{HeaderMap, HeaderValue, SET_COOKIE};

fn credentials(u: &str, p: &str) -> Event {
    Event::Credentials { username: u.to_string(), password: p.to_string() }
}

fn reply(cookie: &str) -> Event {
    let mut h = HeaderMap::new();
    h.append(SET_COOKIE, HeaderValue::from_str(cookie).unwrap());
    Event::LoginReply { headers: h }
}

fn one_server() -> Event {
    named_server("Test & Co")
}

fn named_server(name: &str) -> Event {
    Event::ServerReply {
        servers: Servers {
            servers: vec![Server {
                name: name.to_string(),
                mission_name: "Alpha".to_string(),
                players: "3".to_string(),
            }],
        },
    }
}

#[test]
fn end_to_end_one_server() {
    let mut s = Session::new("");
    match s.step(credentials("pilot", "pw")) {
        Action::PostLogin { body } => assert!(body.contains("USER_LOGIN=pilot&USER_PASSWORD=pw")),
        _ => panic!("expected a login request"),
    }
    match s.step(reply("BITRIX_SM_UIDL=abc123")) {
        Action::FetchServers { cookie } => assert_eq!(cookie, "BITRIX_SM_UIDL=abc123"),
        _ => panic!("expected a server-list request"),
    }
    match s.step(one_server()) {
        Action::Show { lines } => {
            assert_eq!(lines.len(), 2);
            assert_eq!(lines[0], header_line());
            assert_eq!(lines[1], format!("{:36.36}   {:30.30}   {}", "Test & Co", "Alpha", 2));
        }
        _ => panic!("expected lines to show"),
    }
    assert_eq!(s.stage, Stage::Finished);
}

#[test]
fn empty_username_stops_before_any_request() {
    let mut s = Session::new("");
    match s.step(credentials("", "pw")) {
        Action::Stop { error } => assert_eq!(error, ClientError::MissingCredentials),
        _ => panic!("expected a stop"),
    }
    assert_eq!(s.stage, Stage::Finished);
    assert!(matches!(s.step(reply("BITRIX_SM_UIDL=abc123")), Action::Ignore));
}

#[test]
fn empty_password_stops_before_any_request() {
    let mut s = Session::new("x");
    assert!(matches!(
        s.step(credentials("pilot", "")),
        Action::Stop { error: ClientError::MissingCredentials }
    ));
}

#[test]
fn missing_marker_never_fetches() {
    let mut s = Session::new("");
    assert!(matches!(s.step(credentials("pilot", "pw")), Action::PostLogin { .. }));
    assert!(matches!(
        s.step(reply("PHPSESSID=zzz")),
        Action::Stop { error: ClientError::AuthenticationFailed }
    ));
    assert_eq!(s.stage, Stage::Finished);
    assert!(matches!(s.step(one_server()), Action::Ignore));
}

#[test]
fn transport_failures_stop() {
    let mut s = Session::new("");
    s.step(credentials("pilot", "pw"));
    assert!(matches!(
        s.step(Event::TransportFailed),
        Action::Stop { error: ClientError::TransportError }
    ));
    let mut t = Session::new("");
    t.step(credentials("pilot", "pw"));
    t.step(reply("BITRIX_SM_UIDL=1"));
    assert!(matches!(t.step(Event::MalformedReply), Action::Stop { error: ClientError::MalformedResponse }));
}

#[test]
fn out_of_order_events_are_ignored() {
    let mut s = Session::new("");
    assert!(matches!(s.step(one_server()), Action::Ignore));
    assert_eq!(s.stage, Stage::Start);
    assert!(matches!(s.step(Event::MalformedReply), Action::Ignore));
    assert_eq!(s.stage, Stage::Start);
}

#[test]
fn filter_is_lowercased() {
    let s = Session::new("Blue FLAG");
    assert_eq!(s.filter, "blue flag");
}

#[test]
fn uppercase_filter_matches_names() {
    let mut s = Session::new("TEST");
    s.step(credentials("pilot", "pw"));
    s.step(reply("BITRIX_SM_UIDL=abc123"));
    match s.step(one_server()) {
        Action::Show { lines } => assert_eq!(lines.len(), 2),
        _ => panic!("expected lines to show"),
    }
}

#[test]
fn filter_matching_nothing_shows_header() {
    let mut s = Session::new("bravo");
    s.step(credentials("pilot", "pw"));
    s.step(reply("BITRIX_SM_UIDL=abc123"));
    match s.step(one_server()) {
        Action::Show { lines } => assert_eq!(lines, vec![header_line()]),
        _ => panic!("expected lines to show"),
    }
}

#[test]
fn entity_in_name_is_decoded_for_display() {
    let mut s = Session::new("amp");
    s.step(credentials("pilot", "pw"));
    s.step(reply("BITRIX_SM_UIDL=abc123"));
    match s.step(named_server("Test &amp; Co")) {
        Action::Show { lines } => {
            assert_eq!(lines[1], format!("{:36.36}   {:30.30}   {}", "Test & Co", "Alpha", 2));
        }
        _ => panic!("expected lines to show"),
    }
}
