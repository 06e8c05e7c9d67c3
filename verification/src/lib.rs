//! Core of a small HTTP/1.x server, written without I/O: request parsing,
//! header handling, the per-connection state machine and response framing,
//! each with a machine-checked contract.

pub mod chars;
pub mod chunked;
pub mod client;
pub mod common;
pub mod date;
pub mod encoding;
pub mod headers;
pub mod pipeline;
pub mod request;
pub mod response;
pub mod sequential;
pub mod ssl;
pub mod status;
pub mod test;
pub mod text;
pub mod version;

pub use crate::client::ClientConnection;
pub use crate::common::{Header, HeaderField};
pub use crate::request::{Method, Request};
pub use crate::response::Response;
pub use crate::status::StatusCode;
pub use crate::test::TestRequest;
pub use crate::version::HTTPVersion;
