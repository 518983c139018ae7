//! Query execution core of a multi-model database server.
//!
//! The crate covers the subsystem that turns source text into a statement
//! sequence (with bounded recursion depth), drives that sequence through
//! implicit or explicit transactions against a key-value store, and decides
//! connection admission through a token-bucket rate limiter.

pub mod args;
pub mod checks;
pub mod clock;
pub mod codec;
pub mod ctx;
pub mod err;
pub mod executor;
pub mod ipaddr;
pub mod key;
pub mod kvs;
pub mod limiter;
pub mod options;
pub mod parser;
pub mod response;
pub mod statement;
pub mod strutil;
pub mod utime;
pub mod value;
