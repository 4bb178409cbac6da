//! An embeddable SMTP / ESMTP mail-intake engine.
//!
//! The library covers the parts of a mail server that decide things: the
//! command parser, the per-session protocol state machine, the CRLF line
//! framer with its body-terminator detector, the configuration with its
//! advertised capabilities, and the delivery step that turns a handler's
//! verdict into the reply sent to the client. Sockets, TLS handshakes and
//! the handler itself live outside the library; they exchange plain values
//! with it.

pub mod command;
pub mod config;
pub mod connection;
pub mod delivery;
pub mod flow;
pub mod framer;
pub mod message_parser;
pub mod session;
pub mod state;
pub mod text;
