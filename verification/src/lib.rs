//! A minimal HTTP/1.x server core: the wire model of requests and responses,
//! the per-connection dispatch rules, and the shutdown protocol of the
//! acceptor and its worker pool.

pub mod http;
pub mod text;
pub mod thread_pool;
pub mod types;
