//! Record and replay of HTTP exchanges for deterministic client tests.
//!
//! A cassette is a text file that holds a stream of documents, one per
//! recorded request/response pair. In record mode every outgoing request is
//! forwarded and the pair is appended to the cassette; in replay mode the
//! request is matched against the loaded cassette and the recorded response
//! is handed back without any call going out.
//!
//! The library decides and computes; it opens no file and sends nothing.
//! Its caller reads and writes the cassette's file and makes the calls that
//! go out, as the library tells it to:
//!
//! 1. [`VcrMiddleware::new`] binds a mode and a file, and opens the file in
//!    the registry of [`Cassettes`]. Where it answers [`Opening::ReadFile`],
//!    the caller reads the file and hands its text to [`Cassettes::load`].
//! 2. For each request that goes out, the caller takes its parts into a
//!    [`VcrRequest`] and asks [`VcrMiddleware::handle`]. The answer is to
//!    send the request on, to hand back a recorded response, or to fail.
//! 3. In record mode, the caller takes the response that came in into a
//!    [`VcrResponse`] and gives it to [`VcrMiddleware::record`], which
//!    hands back the document to be added at the end of the file.
//!
//! A cassette written by one run is read by the next: see [`cassette`] for
//! the text of a cassette, [`codec`] for the layout of a document, and
//! [`framing`] for the separator between documents.

pub mod body;
pub mod cassette;
pub mod codec;
pub mod error;
pub mod framing;
pub mod headers;
pub mod http;
pub mod keyed;
pub mod middleware;
pub mod record;
pub mod session;
pub mod store;
pub mod text;
pub mod yaml;

pub use body::Body;
pub use error::{ParseError, VcrError};
pub use headers::Headers;
pub use http::Version;
pub use middleware::{Handling, Recorded, VcrMiddleware, VcrMode};
pub use record::{VcrRequest, VcrResponse};
pub use session::Session;
pub use store::{Cassettes, Opening};
