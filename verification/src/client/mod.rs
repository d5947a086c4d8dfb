//! A client that measures how a server honours HTTP/3 request priorities.
pub mod config;
pub mod driver;
pub mod experiments;
pub mod ident;
pub mod laws;
pub mod multi;
pub mod order;
pub mod request;
pub mod run;
pub mod schedule;
pub mod single;
pub mod stat;
pub mod target;
pub mod verdict;
