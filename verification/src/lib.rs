//! A minimal HTTP/1.1 server core: a wire codec that turns raw bytes into a
//! structured request and a structured response back into bytes, and a routing
//! table mapping (path, method) pairs to handlers. I/O and task scheduling live
//! outside this crate; every function here is a pure computation with a contract.

pub mod decode;
pub mod encode;
pub mod message;
pub mod router;
