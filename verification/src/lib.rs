//! A minimal IRC-style chat core: a frame codec, the server's registry of
//! nicknames and rooms, the per-connection session state machine with its
//! command handlers, and the client-side frame interpreter. All I/O stays
//! outside; every function here is pure logic over bytes and is verified.

pub mod codes;
pub mod bytestr;
pub mod codec;
pub mod registry;
pub mod session;
pub mod admin;
pub mod client;
