//! A small command-line HTTP client library: it classifies loosely-typed
//! parameter tokens (query pairs, headers, JSON-typed and plain body fields),
//! accumulates them into an immutable request descriptor, plans the outgoing
//! request (method semantics, body encoding, content-type selection), and
//! renders the response for terminal consumption.
//!
//! Everything that decides or computes lives here and is verified; the thin
//! shell that performs network and file I/O lives outside the library.

pub mod dispatch;
pub mod encode;
pub mod error;
pub mod outside;
pub mod render;
pub mod request;
pub mod token;
pub mod url_builder;
