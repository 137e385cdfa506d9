//! The rules of a small HTTP service that approximates pi, and of a line
//! search over files.
//!
//! The service answers `GET /pi/<terms>` with an approximation computed from
//! that many terms of a series. This crate holds what the service decides:
//! how a request line is read (`request`), how a response is laid out
//! (`response`), what is done with a connection (`request_handler`), and how
//! connections are handed to workers (`dispatch`, `pool`). Sockets, threads,
//! clocks and floating point are the caller's business.
//!
//! `mini_grep` finds the lines of a text that hold a query.

pub mod decimal;
pub mod dispatch;
pub mod mini_grep;
pub mod pool;
pub mod request;
pub mod request_handler;
pub mod response;
pub mod text;
