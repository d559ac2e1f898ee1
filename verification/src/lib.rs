//! Core of a minimal HTTP/1.1 server: it frames a raw request buffer into
//! logical lines and a body, decodes the request line and headers, matches the
//! request against a route table whose templates may contain `{name}`
//! placeholder segments, and encodes the response for the wire.
//!
//! All parsing and matching works on bytes; the networking itself (listening,
//! reading, writing) is left to the embedding program.

pub mod byteseq;
pub mod connection;
pub mod default_returns;
pub mod framing;
pub mod method;
pub mod params;
pub mod request;
pub mod response_entity;
pub mod routing;
pub mod status_code;
