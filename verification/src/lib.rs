//! Sans-I/O HTTP/1.1 protocol events, header normalisation and error types,
//! with their behaviour stated as Verus contracts.

pub mod error;
pub mod event_laws;
pub mod events;
pub mod grammar;
pub mod headers;
pub mod laws;
pub mod render;
pub mod targets;
pub mod text;

pub use error::{LocalProtocolError, ProtocolError, RemoteProtocolError};
pub use events::{ConnectionClosed, Data, EndOfMessage, Event, Request, Response};
pub use headers::{
    get_comma_header, has_expect_100_continue, normalize_and_validate, set_comma_header, Headers,
};
pub use text::{trim_ascii_whitespace, ByteSource};
