//! Request dispatch and script bridging for a small HTTP/1.0 file server.
//!
//! The server answers one request per connection. A path below `/scripts/`
//! names a script: the file is run with the request in its environment and
//! the body on its standard input, and what it prints becomes the response.
//! Any other path names a file or a directory of the served tree.
//!
//! This library holds the decisions, each with a contract that Verus
//! proves. It does no input or output. [`handler::Connection`] tells its
//! caller what to do next, to read, to ask the file system, to run a
//! script, to write, and the caller tells it what came of that. The bytes
//! of requests, paths, headers and bodies are byte strings throughout, so
//! that a body passes through as it is.
//!
//! The modules, from the leaves up:
//!
//! - [`bytes`], [`decimal`], [`lines`], [`percent`]: byte strings, numerals,
//!   lines and escapes;
//! - [`headers`]: key/value pairs and header blocks;
//! - [`request`]: the request parser, and when a request is complete;
//! - [`path`], [`mime`]: paths inside the served tree and content types;
//! - [`response`], [`reader`]: responses, their wire form, and its inverse;
//! - [`static_files`]: files and directory listings;
//! - [`environment`], [`cgi`]: what a script is started with, and what its
//!   output comes to;
//! - [`error`], [`config`]: failures with their statuses, and the
//!   configuration;
//! - [`handler`]: the state machine of a connection.

pub mod bytes;
pub mod cgi;
pub mod config;
pub mod decimal;
pub mod environment;
pub mod error;
pub mod handler;
pub mod headers;
pub mod lines;
pub mod mime;
pub mod path;
pub mod percent;
pub mod reader;
pub mod request;
pub mod response;
pub mod static_files;
