//! The core of a small HTTP/1.1 file server: it reads a request from the bytes
//! a client sent, says which path under the serving root to look at, decides
//! what to answer once the caller has looked, and builds the response and its
//! bytes.
//!
//! The library touches neither the network nor the file system. Paths are
//! text with `/` between their components; the root is given with each call.
//! A request is served in four steps:
//!
//! 1. [`request::Request::from_buffer`] reads the request;
//! 2. [`dispatch::candidate_path`] gives the path to probe;
//! 3. [`dispatch::route`] takes what the probe found and answers at once, or
//!    asks for a directory to be listed or a file to be read;
//! 4. [`dispatch::handle_directory`] and [`dispatch::handle_file`] build the
//!    answer, and [`response::Response::to_bytes`] gives its bytes.

pub mod dispatch;
pub mod encoding;
pub mod listing;
pub mod mime;
pub mod path;
pub mod request;
pub mod response;
pub mod text;
