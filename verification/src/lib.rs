//! Retrieval-and-parsing core of a minimal browser backend: a URL model, the
//! HTTP/1.0 exchange over an in-memory response stream, and a recursive-descent
//! HTML tree builder, each with a verified contract.

pub mod exchange;
pub mod grammar;
pub mod html;
pub mod number;
pub mod pattern;
pub mod response;
pub mod scan;
pub mod text;
pub mod textmap;
pub mod url;
