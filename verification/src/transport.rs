//! The channels both ends of the connection use.
//!
//! Inputs and snapshots are unreliable on purpose: at 30Hz a lost packet is
//! replaced 33ms later, and retransmitting a stale world state is worse than
//! dropping it. Only the handshake and the final result must not be lost.
//!
//! Client and server have to agree exactly. A mismatch does not error, it just
//! silently drops messages, which is the worst kind of bug to chase, so both read
//! this one plan.

use vstd::prelude::*;
use crate::protocol::{CH_EVENT, CH_INPUT, CH_SNAPSHOT};

verus! {

/// Distinguishes this game from anything else that might reach the port.
pub const PROTOCOL_ID: u64 = 0x5041_434D_414E_0001;

/// Fallback when the platform reports no assigned port, which happens in local
/// mode.
pub const FALLBACK_PORT: u16 = 2567;

/// How many players a server takes.
pub const MAX_CLIENTS: usize = 2;

/// How long the reliable channel waits before it sends again, in milliseconds.
pub const RESEND_MS: u64 = 200;

/// How a channel delivers.
#[derive(Debug, Clone, Copy, PartialEq, Eq, Structural)]
pub enum Delivery {
    Unreliable,
    ReliableOrdered { resend_ms: u64 },
}

#[derive(Debug, Clone, Copy, PartialEq, Eq, Structural)]
pub struct ChannelPlan {
    pub channel_id: u8,
    pub max_memory_usage_bytes: usize,
    pub delivery: Delivery,
}

#[derive(Debug, Clone, PartialEq, Eq)]
pub struct ConnectionPlan {
    pub available_bytes_per_tick: u64,
    pub server_channels: Vec<ChannelPlan>,
    pub client_channels: Vec<ChannelPlan>,
}

/// Three channels, same shape in both directions.
pub open spec fn channel_plans() -> Seq<ChannelPlan> {
    seq![
        ChannelPlan {
            channel_id: CH_INPUT,
            max_memory_usage_bytes: 65_536,
            delivery: Delivery::Unreliable,
        },
        ChannelPlan {
            channel_id: CH_SNAPSHOT,
            max_memory_usage_bytes: 262_144,
            delivery: Delivery::Unreliable,
        },
        ChannelPlan {
            channel_id: CH_EVENT,
            max_memory_usage_bytes: 262_144,
            delivery: Delivery::ReliableOrdered { resend_ms: RESEND_MS },
        },
    ]
}

fn channels() -> (list: Vec<ChannelPlan>)
    ensures
        list@ == channel_plans(),
{
    let mut list: Vec<ChannelPlan> = Vec::new();
    list.push(
        ChannelPlan {
            channel_id: CH_INPUT,
            max_memory_usage_bytes: 65_536,
            delivery: Delivery::Unreliable,
        },
    );
    list.push(
        ChannelPlan {
            channel_id: CH_SNAPSHOT,
            max_memory_usage_bytes: 262_144,
            delivery: Delivery::Unreliable,
        },
    );
    list.push(
        ChannelPlan {
            channel_id: CH_EVENT,
            max_memory_usage_bytes: 262_144,
            delivery: Delivery::ReliableOrdered { resend_ms: RESEND_MS },
        },
    );
    assert(list@ =~= channel_plans());
    list
}

/// The connection both ends set up.
pub fn connection_config() -> (plan: ConnectionPlan)
    ensures
        plan.available_bytes_per_tick == 60_000,
        plan.server_channels@ == channel_plans(),
        plan.client_channels@ == channel_plans(),
{
    ConnectionPlan {
        available_bytes_per_tick: 60_000,
        server_channels: channels(),
        client_channels: channels(),
    }
}

/// The port to listen on: the assigned one, if there is one.
pub fn listening_port(assigned: Option<u16>) -> (port: u16)
    ensures
        port == (match assigned {
            Some(p) => p,
            None => FALLBACK_PORT,
        }),
{
    match assigned {
        Some(p) => p,
        None => FALLBACK_PORT,
    }
}

/// Every channel is configured exactly once, and only the event channel is
/// reliable.
pub proof fn law_only_the_event_channel_is_reliable(i: int, j: int)
    requires
        0 <= i < channel_plans().len(),
        0 <= j < channel_plans().len(),
    ensures
        channel_plans()[i].channel_id == channel_plans()[j].channel_id <==> i == j,
        channel_plans()[i].delivery is ReliableOrdered <==> channel_plans()[i].channel_id
            == CH_EVENT,
{
}

/// Inputs and snapshots go unreliably over channels zero and one, and events reliably
/// over channel two, sent again after a fifth of a second. Inputs may hold a sixteenth
/// of a mebibyte, the others a quarter.
pub proof fn law_every_channel_has_its_plan()
    ensures
        channel_plans().len() == 3,
        channel_plans()[0] == (ChannelPlan {
            channel_id: 0,
            max_memory_usage_bytes: 65_536,
            delivery: Delivery::Unreliable,
        }),
        channel_plans()[1] == (ChannelPlan {
            channel_id: 1,
            max_memory_usage_bytes: 262_144,
            delivery: Delivery::Unreliable,
        }),
        channel_plans()[2] == (ChannelPlan {
            channel_id: 2,
            max_memory_usage_bytes: 262_144,
            delivery: Delivery::ReliableOrdered { resend_ms: 200 },
        }),
{
}

} // verus!
