//! Client-side core of a binary, length-prefixed request/response protocol:
//! packet framing with partial-data reassembly, session buffering with
//! request-id bookkeeping, and the authentication / command operations
//! built on top of them. Transport I/O is left to the caller.

pub mod codec;
pub mod protocol;
pub mod session;
