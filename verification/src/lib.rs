//! A directory of short links: the rules of a URL shortener, kept apart from
//! the transport and the key-value service that carry them.
//!
//! Every handler is written as a function from a state and an event to the
//! next state and an action, so that the code which talks to the network and
//! to the store stays outside the verified part.

pub mod text;
pub mod link;
pub mod auth;
pub mod store;
pub mod directory;
pub mod transport;
pub mod api;
pub mod redirect;
