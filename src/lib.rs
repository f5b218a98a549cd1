//! The core of a minimal HTTP/1.1 server: a request reader fed line by line,
//! a router with its handlers, and a response serializer. Reading from and
//! writing to the connection, and the file system, are left to the caller.
use vstd::prelude::*;

pub mod bytes;
pub mod request;
pub mod response;
pub mod router;
pub mod server;

verus! {

} // verus!
