//! Client-side core of a line-oriented mail-access protocol.
//!
//! The crate turns an unstructured byte stream into discrete, classified and
//! parsed responses: a framer splits the stream at CRLF pairs, a classifier
//! marks each line as tagged or untagged, an assembler collects the lines of
//! one response until its completion rule fires, and a parser turns the
//! completed response into a typed result.  A small driver keeps the
//! per-connection state: the monotonically increasing command tag and the
//! connected / authenticated / selected flags.

pub mod command;
pub mod error;
pub mod framer;
pub mod line;
pub mod parser;
pub mod response;
pub mod stream;
