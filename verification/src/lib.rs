//! The request-resolution core of a static file server: lexical confinement of
//! request paths below a root directory, one-level directory listings, and the
//! mapping of every outcome of a request onto an HTTP status.

pub mod assets;
pub mod config;
pub mod decode;
pub mod dispatch;
pub mod guarantees;
pub mod hwaccel;
pub mod lister;
pub mod reply;
pub mod resolver;
pub mod segments;
pub mod text;
pub mod thumbnail;
pub mod timefmt;
