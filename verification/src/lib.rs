//! HTTP byte ranges and HTTP/3 request priorities.
pub mod client;
pub mod clock;
pub mod header;
pub mod number;
pub mod range;
pub mod text;
