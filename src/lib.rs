//! A small HTTP/1.1 server core that keeps a registry from hostnames to values:
//! framing of requests read off a connection, request parsing, parameter
//! extraction, the registry's request handling, and response serialization.
pub mod connection;
pub mod framing;
pub mod handler;
pub mod request;
pub mod response;
pub mod strmap;
pub mod text;

pub use connection::{serve_step, Step};
pub use framing::{frame_request, Frame};
pub use handler::HostnameHandler;
pub use request::{HttpRequest, HttpRequestMethod, ParseError};
pub use response::HttpResponse;
pub use strmap::StrMap;
