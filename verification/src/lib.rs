//! A zero-copy parser for a single HTTP/1.1 request message.
//!
//! The parser takes one byte buffer holding a complete request and produces a
//! structured view of it: a request line (method, target, version), the header
//! fields in insertion order, and the body bytes that follow the blank line
//! ending the header block.  Every step of the parse is specified over
//! mathematical models of the input bytes and proved against them.

pub mod cursor;
pub mod http;
pub mod laws;
pub mod scan;
pub mod text;
