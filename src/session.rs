//! One run as a state machine: the caller performs each action it returns
//! (a request, or showing the lines) and hands back what came of it.

use vstd::prelude::*;

use reqwest::header::HeaderMap;

use crate::auth::{cookie_of, login_body, login_cookie, login_request, session_marker};
use crate::error::ClientError;
use crate::servers::{display_servers, header_text, lower_of, lowercase, rows, shown, Servers};
use crate::text::contains;

verus! {

/// Where a run stands.
#[derive(Debug, Clone, Copy, PartialEq, Eq, Structural)]
pub enum Stage {
    /// Waiting for the credentials.
    Start,
    /// The login request is out.
    LoggingIn,
    /// The server-list request is out.
    Fetching,
    /// The run has shown its result or stopped.
    Finished,
}

/// What the caller hands to the session.
pub enum Event {
    /// The credentials given on the command line.
    Credentials { username: String, password: String },
    /// The headers of the reply to the login request.
    LoginReply { headers: HeaderMap },
    /// The decoded reply to the server-list request.
    ServerReply { servers: Servers },
    /// A request did not complete.
    TransportFailed,
    /// The server-list reply could not be decoded.
    MalformedReply,
}

/// What the session asks the caller to do.
pub enum Action {
    /// Post this form body to the login endpoint.
    PostLogin { body: String },
    /// Get the server list, sending this cookie.
    FetchServers { cookie: String },
    /// Print these lines; the run is over.
    Show { lines: Vec<String> },
    /// Report this error; the run is over.
    Stop { error: ClientError },
    /// The event does not belong to this stage; nothing changes.
    Ignore,
}

/// The state of one run.
pub struct Session {
    pub stage: Stage,
    /// The lowercase name filter.
    pub filter: String,
}

impl Session {
    /// A run that will show the servers whose lowercase name holds the
    /// lowercase form of `filter`.
    pub fn new(filter: &str) -> (r: Session)
        ensures
            r.stage == Stage::Start,
            r.filter@ == lower_of(filter@),
    {
        Session { stage: Stage::Start, filter: lowercase(filter) }
    }

    /// Takes one event and says what to do next.
    pub fn step(&mut self, event: Event) -> (action: Action)
        ensures
            final(self).filter == old(self).filter,
            match (old(self).stage, event) {
                (Stage::Start, Event::Credentials { username, password }) => if username@.len() == 0
                    || password@.len() == 0 {
                    &&& final(self).stage == Stage::Finished
                    &&& action == (Action::Stop { error: ClientError::MissingCredentials })
                } else {
                    &&& final(self).stage == Stage::LoggingIn
                    &&& action is PostLogin
                    &&& action->body@ == login_body(username@, password@)
                },
                (Stage::LoggingIn, Event::LoginReply { headers }) => match cookie_of(headers) {
                    None => {
                        &&& final(self).stage == Stage::Finished
                        &&& action == (Action::Stop { error: ClientError::MalformedResponse })
                    },
                    Some(c) => if contains(c, session_marker()) {
                        &&& final(self).stage == Stage::Fetching
                        &&& action is FetchServers
                        &&& action->cookie@ == c
                    } else {
                        &&& final(self).stage == Stage::Finished
                        &&& action == (Action::Stop { error: ClientError::AuthenticationFailed })
                    },
                },
                (Stage::Fetching, Event::ServerReply { servers }) => {
                    &&& final(self).stage == Stage::Finished
                    &&& match rows(shown(servers.servers@, old(self).filter@)) {
                        Some(lines) => action is Show && action->lines.deep_view() == seq![
                            header_text(),
                        ] + lines,
                        None => action == (Action::Stop { error: ClientError::NumericParseFailure }),
                    }
                },
                (Stage::LoggingIn, Event::TransportFailed) | (
                    Stage::Fetching,
                    Event::TransportFailed,
                ) => {
                    &&& final(self).stage == Stage::Finished
                    &&& action == (Action::Stop { error: ClientError::TransportError })
                },
                (Stage::Fetching, Event::MalformedReply) => {
                    &&& final(self).stage == Stage::Finished
                    &&& action == (Action::Stop { error: ClientError::MalformedResponse })
                },
                _ => final(self).stage == old(self).stage && action is Ignore,
            },
    {
        match self.stage {
            Stage::Start => match event {
                Event::Credentials { username, password } => {
                    match login_request(username.as_str(), password.as_str()) {
                        Ok(body) => {
                            self.stage = Stage::LoggingIn;
                            Action::PostLogin { body }
                        },
                        Err(error) => {
                            self.stage = Stage::Finished;
                            Action::Stop { error }
                        },
                    }
                },
                _ => Action::Ignore,
            },
            Stage::LoggingIn => match event {
                Event::LoginReply { headers } => match login_cookie(&headers) {
                    Ok(cookie) => {
                        self.stage = Stage::Fetching;
                        Action::FetchServers { cookie }
                    },
                    Err(error) => {
                        self.stage = Stage::Finished;
                        Action::Stop { error }
                    },
                },
                Event::TransportFailed => {
                    self.stage = Stage::Finished;
                    Action::Stop { error: ClientError::TransportError }
                },
                _ => Action::Ignore,
            },
            Stage::Fetching => match event {
                Event::ServerReply { servers } => {
                    self.stage = Stage::Finished;
                    match display_servers(&servers, self.filter.as_str()) {
                        Ok(lines) => Action::Show { lines },
                        Err(error) => Action::Stop { error },
                    }
                },
                Event::TransportFailed => {
                    self.stage = Stage::Finished;
                    Action::Stop { error: ClientError::TransportError }
                },
                Event::MalformedReply => {
                    self.stage = Stage::Finished;
                    Action::Stop { error: ClientError::MalformedResponse }
                },
                _ => Action::Ignore,
            },
            Stage::Finished => Action::Ignore,
        }
    }
}

} // verus!
