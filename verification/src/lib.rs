//! A minimal HTTP/1.1 request scanner and response encoder.
//!
//! The crate turns a raw inbound byte buffer into a structured request
//! view, converts that view into an owned request with a closed method
//! enumeration and a case-insensitive header map, and serializes a
//! structured response back into wire bytes. All of it is pure
//! computation over caller-owned memory; the connection-handling layer
//! around it does the I/O.

pub mod adapt;
pub mod headers;
pub mod response;
pub mod scan;
pub mod text;

pub use adapt::HttpRequest;
pub use adapt::Method;
pub use headers::HeaderMap;
pub use response::Response;
pub use scan::Header;
pub use scan::ParseError;
pub use scan::Request;
pub use scan::parse_request;
