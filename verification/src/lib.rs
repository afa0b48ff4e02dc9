//! A finger (RFC 1288) server's protocol logic: token pools, request
//! parsing, response building and a plan cache.
pub mod tokenpool;
pub mod tokenqueue;
pub mod rfc1288;
pub mod text;
pub mod monologue;
pub mod transaction;
pub mod echo;
pub mod cache;
pub mod plans;
pub mod plan;
pub mod reactor;
pub mod connection;
pub mod server;
