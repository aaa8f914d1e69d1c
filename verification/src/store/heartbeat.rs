//! The word that a storage node sends to the metadata server.

use vstd::prelude::*;

use crate::proto::HeartbeatReq;
use crate::store::state::StoreState;

verus! {

/// Seconds between two heartbeats.
pub const INTERVAL_SECS: u64 = 1;

/// Seconds to wait before the metadata server is tried again.
pub const RETRY_SECS: u64 = 2;

/// What a node does next to keep the metadata server informed.
#[derive(Copy, Clone, Debug, PartialEq, Eq, Structural)]
pub enum BeatStep {
    Connect,
    WaitToRetry,
    AwaitTick,
    Send,
}

impl BeatStep {
    /// The step after this one; `ok` says whether this one succeeded. A node
    /// connects until it succeeds, and then sends with every tick, whether or
    /// not the last word arrived.
    pub fn after(self, ok: bool) -> (next: BeatStep)
        ensures
            next == match self {
                BeatStep::Connect => if ok {
                    BeatStep::AwaitTick
                } else {
                    BeatStep::WaitToRetry
                },
                BeatStep::WaitToRetry => BeatStep::Connect,
                BeatStep::AwaitTick => BeatStep::Send,
                BeatStep::Send => BeatStep::AwaitTick,
            },
    {
        match self {
            BeatStep::Connect => if ok {
                BeatStep::AwaitTick
            } else {
                BeatStep::WaitToRetry
            },
            BeatStep::WaitToRetry => BeatStep::Connect,
            BeatStep::AwaitTick => BeatStep::Send,
            BeatStep::Send => BeatStep::AwaitTick,
        }
    }
}

impl StoreState {
    /// What a node tells of itself.
    pub fn heartbeat(&self, advertise_addr: &String, epoch_s: u64) -> (r: HeartbeatReq)
        ensures
            r.node_id@ == self.node_id@,
            r.addr@ == advertise_addr@,
            r.used_bytes == self@.ram_used,
            r.capacity_bytes == self@.ram_budget,
            r.epoch_s == epoch_s,
    {
        HeartbeatReq {
            node_id: self.node_id.as_str().to_owned(),
            addr: advertise_addr.clone(),
            used_bytes: self.ram_used,
            capacity_bytes: self.ram_budget,
            epoch_s,
        }
    }
}

/// A node sends word every second, and waits twice as long before it tries
/// again to reach the metadata server.
pub proof fn law_beats_come_every_second()
    ensures
        INTERVAL_SECS == 1,
        RETRY_SECS == 2 * INTERVAL_SECS,
{
}

} // verus!
