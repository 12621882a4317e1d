//! Verified core of a small chat protocol: message framing, server state,
//! and client-side command handling.
use vstd::prelude::*;

pub mod bytes;
pub mod names;
pub mod util;
pub mod conns;
pub mod server;
pub mod hex;
pub mod crypto;
pub mod text;
pub mod client;
pub mod we;
pub mod irc;
pub mod irc_single;
pub mod keygen;
pub mod event;
pub mod slab;
pub mod echo;
pub mod dump;
pub mod framing;
pub mod laws;

verus! {
} // verus!
