//! Core logic of a small XMPP server: stanza model and serialisation,
//! stream parsing, SASL authentication, rosters, multi-user chat rooms,
//! routing, and the client session state machine.

pub mod text;
pub mod auth;
pub mod cli;
pub mod c2s;
pub mod channel;
pub mod config;
pub mod crypto;
pub mod muc;
pub mod roster;
pub mod s2s;
pub mod router;
pub mod seqs;
pub mod server;
pub mod session;
pub mod stanza;
pub mod xml;
