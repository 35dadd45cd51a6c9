//! A small, verified HTTP dispatch engine in the style of Express:
//! value-typed requests and responses, an exact-match route table, and a
//! continuation-based middleware chain, all with proved contracts.
//! The TCP listener that drives it lives outside the verified library.

pub mod expresso;
pub mod handler;
pub mod headers;
pub mod middleware;
pub mod middlewares;
pub mod request;
pub mod response;
pub mod router;
