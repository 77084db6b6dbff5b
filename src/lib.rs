//! A small static-file HTTP/1.1 server library: request parsing, path
//! resolution under a root directory, directory listings and response framing.
//! The filesystem and the network are driven by the caller through the
//! actions of `handler`; every decision is made here.
pub mod handler;
pub mod listing;
pub mod mime;
pub mod request;
pub mod response;
pub mod target;
pub mod text;
