//! Which broadcast the mobile link entity sends next.
use vstd::prelude::*;

verus! {

/// Kind of broadcast message.
#[derive(Debug, Clone, Copy, PartialEq, Eq, Structural)]
pub enum BroadcastType {
    /// Initial value, and the value while no broadcast kind is enabled.
    NoBroadcast,
    NetworkTime,
}

/// The broadcast schedule: the kind sent last and the configured time zone for network
/// time broadcasts, if any.
pub struct MleBroadcast {
    pub last_broadcast_type: BroadcastType,
    pub time_broadcast: Option<String>,
}

/// The broadcast kind that follows `last`: network time once a time zone is configured.
pub open spec fn next_broadcast_type(last: BroadcastType, time_configured: bool) -> BroadcastType {
    match last {
        BroadcastType::NoBroadcast => if time_configured {
            BroadcastType::NetworkTime
        } else {
            BroadcastType::NoBroadcast
        },
        BroadcastType::NetworkTime => BroadcastType::NetworkTime,
    }
}

impl MleBroadcast {
    /// A schedule that has sent nothing yet, for the configured time zone.
    pub fn new(time_broadcast: Option<String>) -> (r: Self)
        ensures
            r.last_broadcast_type == BroadcastType::NoBroadcast,
            r.time_broadcast == time_broadcast,
    {
        Self { last_broadcast_type: BroadcastType::NoBroadcast, time_broadcast }
    }

    /// The kind of the next broadcast.
    pub fn determine_next_broadcast_type(&self) -> (r: BroadcastType)
        ensures
            r == next_broadcast_type(self.last_broadcast_type, self.time_broadcast is Some),
    {
        match self.last_broadcast_type {
            BroadcastType::NoBroadcast => {
                if self.time_broadcast.is_some() {
                    BroadcastType::NetworkTime
                } else {
                    BroadcastType::NoBroadcast
                }
            },
            BroadcastType::NetworkTime => BroadcastType::NetworkTime,
        }
    }

    /// Choose the kind of the next broadcast and remember it as sent; the message itself is
    /// built by the caller.
    pub fn send_broadcast(&mut self) -> (r: BroadcastType)
        ensures
            r == next_broadcast_type(old(self).last_broadcast_type, old(self).time_broadcast is Some),
            final(self).last_broadcast_type == r,
            final(self).time_broadcast == old(self).time_broadcast,
    {
        let t = self.determine_next_broadcast_type();
        self.last_broadcast_type = t;
        t
    }
}

} // verus!
