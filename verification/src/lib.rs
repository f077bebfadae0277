//! Control plane of an inter-VM shared-memory device: the wire format of the
//! descriptor-passing channel, the doorbell primitive, and the peer
//! bookkeeping of the server and of its clients.

use vstd::prelude::*;

pub mod client;
pub mod cmsg;
pub mod command;
pub mod event_notifier;
pub mod protocol;
pub mod server;
pub mod signal;
pub mod size;
pub mod text;

pub use event_notifier::EventNotifier;
pub use signal::quit;
pub use size::Size;

verus! {

/// The protocol version that a server announces and a client insists on.
pub const IVSHMEM_PROTOCOL_VERSION: u16 = 0;

} // verus!
