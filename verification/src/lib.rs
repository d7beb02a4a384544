//! A small verified HTTP/1.1 text-protocol core: request parsing, response
//! formatting, and method/path dispatch to a fixed set of handlers.
//!
//! The processing pipeline is: raw text -> [`httprequest::HttpRequest`] ->
//! [`router::Router`] (selects a handler variant) -> handler -> response ->
//! wire text. File contents and order data are external collaborators; the
//! functions here take their results as plain values.
pub mod handler;
pub mod headers;
pub mod httprequest;
pub mod httpresponse;
pub mod router;
pub mod strutil;
