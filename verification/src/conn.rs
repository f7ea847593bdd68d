//! Per-connection behavior shared by the client and the server endpoints:
//! the heartbeat decision, the reaction to each inbound WebSocket event,
//! and the reaction to each message the router delivers.
//!
//! The surrounding process owns the socket and the timer; it calls these
//! functions and performs what they decide. Instants are handed in as
//! milliseconds of a monotonic clock.

use vstd::prelude::*;

use crate::message_stream::{matches_bytes, parse_ok, spec_serialize, MessageStream};
use crate::proto::PartyId;

verus! {

/// How long a silent peer is tolerated, in milliseconds.
pub const CLIENT_TIMEOUT_MS: u64 = 2000;

/// The heartbeat period, in milliseconds.
pub const HEARTBEAT_INTERVAL_MS: u64 = 1000;

/// The mailbox capacity of every actor of the process.
pub const MAILBOX_CAPACITY: usize = 256;

/// Whether a peer last heard from at `last_ms` counts as gone at `now_ms`.
pub open spec fn idle_timed_out(now_ms: u64, last_ms: u64) -> bool {
    now_ms - last_ms > CLIENT_TIMEOUT_MS
}

/// What one connection remembers: whose socket this is, and when the peer
/// last showed life.
pub struct ConnState {
    pub party_id: PartyId,
    pub last_known_activity_ms: u64,
}

/// What the heartbeat does on one tick.
#[derive(Clone, Copy, Debug, PartialEq, Eq, Structural)]
pub enum HeartbeatAction {
    /// Close the socket and report the departure to the router.
    CloseAndDisconnect,
    /// Send a WebSocket ping with an empty payload.
    SendPing,
}

/// One inbound WebSocket event, as the transport hands it over.
#[derive(Debug)]
pub enum WsEvent {
    /// The peer asked to close (with or without a reason).
    Close,
    /// The peer answered a ping.
    Pong,
    /// The peer pinged; the payload is to be echoed back.
    Ping(Vec<u8>),
    /// A binary frame: the protocol's own traffic.
    Binary(Vec<u8>),
    /// A text frame: not part of the protocol.
    Text,
    /// Any other frame kind.
    Other,
    /// A transport error in place of a frame.
    Error,
}

/// How the connection reacts to one inbound WebSocket event.
#[derive(Debug)]
pub enum WsReaction {
    /// Close the socket and report the departure to the router.
    CloseAndDisconnect,
    /// Reply with a pong carrying these bytes.
    SendPong(Vec<u8>),
    /// Hand this decoded frame to the router as this party's message.
    ForwardToRouter(MessageStream),
    /// Answer with a diagnostic text frame: text is not accepted.
    RejectText,
    /// Nothing: an ignored frame kind, a pong, or a binary frame that does
    /// not parse.
    Ignore,
}

/// What the router can deliver to a connection.
#[derive(Debug)]
pub enum ConnDelivery {
    /// The router asks this party to go away (the server-departure
    /// cascade). The id says which party is meant.
    Disconnect(PartyId),
    /// A frame to put on the wire.
    Frame(MessageStream),
}

/// The reaction to one delivery from the router.
#[derive(Debug)]
pub enum DeliveryReaction {
    /// Close the socket and report the departure to the router.
    CloseAndDisconnect,
    /// Write these bytes as one binary WebSocket frame.
    WriteBinary(Vec<u8>),
    /// Nothing: the delivery concerned another party.
    Ignore,
}

impl ConnState {
    pub fn new(party_id: PartyId, now_ms: u64) -> (r: Self)
        ensures
            r.party_id == party_id,
            r.last_known_activity_ms == now_ms,
    {
        Self { party_id, last_known_activity_ms: now_ms }
    }

    /// One heartbeat tick: a peer silent for more than the timeout is
    /// closed; any other peer is pinged.
    pub fn heartbeat(&self, now_ms: u64) -> (r: HeartbeatAction)
        requires
            self.last_known_activity_ms <= now_ms,
        ensures
            r == HeartbeatAction::CloseAndDisconnect <==> idle_timed_out(
                now_ms,
                self.last_known_activity_ms,
            ),
            r == HeartbeatAction::SendPing <==> !idle_timed_out(
                now_ms,
                self.last_known_activity_ms,
            ),
    {
        if now_ms - self.last_known_activity_ms > CLIENT_TIMEOUT_MS {
            HeartbeatAction::CloseAndDisconnect
        } else {
            HeartbeatAction::SendPing
        }
    }

    pub fn update_last_known_activity(&mut self, now_ms: u64)
        ensures
            final(self).party_id == old(self).party_id,
            final(self).last_known_activity_ms == now_ms,
    {
        self.last_known_activity_ms = now_ms;
    }

    /// React to one inbound WebSocket event. Every sign of life from the
    /// peer (pong, ping, binary) refreshes the activity clock; a close or a
    /// transport error tears the connection down; a binary frame that
    /// parses goes to the router and one that does not is dropped silently;
    /// text is answered with a diagnostic; anything else is ignored.
    pub fn on_ws_event(&mut self, now_ms: u64, event: WsEvent) -> (r: WsReaction)
        ensures
            final(self).party_id == old(self).party_id,
            final(self).last_known_activity_ms == (match event {
                WsEvent::Pong | WsEvent::Ping(_) | WsEvent::Binary(_) => now_ms,
                _ => old(self).last_known_activity_ms,
            }),
            (event matches WsEvent::Close) ==> r matches WsReaction::CloseAndDisconnect,
            (event matches WsEvent::Pong) ==> r matches WsReaction::Ignore,
            (event matches WsEvent::Ping(p) ==> r matches WsReaction::SendPong(q) && q@ == p@),
            (event matches WsEvent::Binary(b) ==> (if parse_ok(b@) {
                r matches WsReaction::ForwardToRouter(m) && matches_bytes(m@, b@)
            } else {
                r matches WsReaction::Ignore
            })),
            (event matches WsEvent::Text) ==> r matches WsReaction::RejectText,
            (event matches WsEvent::Other) ==> r matches WsReaction::Ignore,
            (event matches WsEvent::Error) ==> r matches WsReaction::CloseAndDisconnect,
    {
        match event {
            WsEvent::Close => WsReaction::CloseAndDisconnect,
            WsEvent::Pong => {
                self.update_last_known_activity(now_ms);
                WsReaction::Ignore
            },
            WsEvent::Ping(ping_payload) => {
                self.update_last_known_activity(now_ms);
                WsReaction::SendPong(ping_payload)
            },
            WsEvent::Binary(binary_payload) => {
                self.update_last_known_activity(now_ms);
                match MessageStream::from_raw(binary_payload.as_slice()) {
                    Ok(message_stream) => WsReaction::ForwardToRouter(message_stream),
                    Err(_) => WsReaction::Ignore,
                }
            },
            WsEvent::Text => WsReaction::RejectText,
            WsEvent::Other => WsReaction::Ignore,
            WsEvent::Error => WsReaction::CloseAndDisconnect,
        }
    }

    /// React to one delivery from the router: a disconnect for this party
    /// closes the connection (one for another party is ignored), and a
    /// frame is serialized for the wire.
    pub fn on_delivery(&self, delivery: ConnDelivery) -> (r: DeliveryReaction)
        requires
            (delivery matches ConnDelivery::Frame(m) ==> m@.serializable()),
        ensures
            (delivery matches ConnDelivery::Disconnect(p) ==> (if p == self.party_id {
                r matches DeliveryReaction::CloseAndDisconnect
            } else {
                r matches DeliveryReaction::Ignore
            })),
            (delivery matches ConnDelivery::Frame(m) ==> r
                matches DeliveryReaction::WriteBinary(b) && b@ == spec_serialize(m@)),
    {
        match delivery {
            ConnDelivery::Disconnect(party_id) => {
                if party_id == self.party_id {
                    DeliveryReaction::CloseAndDisconnect
                } else {
                    DeliveryReaction::Ignore
                }
            },
            ConnDelivery::Frame(message_stream) => DeliveryReaction::WriteBinary(
                message_stream.into_raw(),
            ),
        }
    }
}

} // verus!
