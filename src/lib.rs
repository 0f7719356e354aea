//! Peer synchronisation protocol of a blockchain node: the message envelope
//! codec, the tag registry, the request handler and the sync round state machine.
use vstd::prelude::*;

pub mod rlp_format;
pub mod codec;
pub mod kind;
pub mod messages;
pub mod handler;
pub mod import_round;

verus! {

} // verus!
