//! A small static-content HTTP server library: request-line parsing, sandboxed
//! path resolution, content-type selection and response framing.

pub mod response;
pub mod request;
pub mod path;
pub mod mime;
pub mod handler;
pub mod laws;
