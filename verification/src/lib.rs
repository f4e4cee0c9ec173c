//! A minimal HTTP/1.1 server library: request framing and parsing (including
//! multipart/form-data bodies), response serialization, and the queue
//! discipline of the fixed worker pool that dispatches connections.
//!
//! The byte-level protocol logic lives here, fully verified; socket I/O and
//! the threads that run the pool sit outside the library and drive it with
//! plain byte chunks.

pub mod bytes;
pub mod conn;
pub mod errors;
pub mod framer;
pub mod headers;
pub mod methods;
pub mod multipart;
pub mod pool;
pub mod request;
pub mod response;
pub mod text;

pub use conn::ConnStep;
pub use errors::RequestError;
pub use framer::Framer;
pub use headers::Headers;
pub use methods::HTTPMethod;
pub use multipart::{Formdata, FormdataBody, FormdataFile, FormdataText};
pub use pool::PoolQueue;
pub use request::{BodyType, File, Request};
pub use response::Response;
