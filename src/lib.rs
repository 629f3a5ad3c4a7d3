//! Client logic for listing the multiplayer servers of a flight-simulator
//! community site: the login request, the session cookie, text cleanup and
//! the table that is shown.

pub mod auth;
pub mod error;
pub mod servers;
pub mod session;
pub mod text;
