//! The data exchanged between peers and surfaced to the presentation
//! layer: profile payloads, discovery sightings, pending requests and the
//! event union.

use vstd::prelude::*;

verus! {

/// One schedule slot of a profile: day (1-7), kind tag ("t" theory /
/// "l" lab), period (1-12) and the original cell text.
#[derive(Clone, Debug, PartialEq, Eq)]
pub struct CompactSlot {
    pub d: u8,
    pub s: String,
    pub p: u8,
    pub f: String,
}

/// Mathematical image of a [`CompactSlot`].
#[verifier::ext_equal]
pub struct SlotView {
    pub d: u8,
    pub s: Seq<char>,
    pub p: u8,
    pub f: Seq<char>,
}

impl View for CompactSlot {
    type V = SlotView;

    open spec fn view(&self) -> SlotView {
        SlotView { d: self.d, s: self.s@, p: self.p, f: self.f@ }
    }
}

/// The exchanged profile: owner identity, registration string, term
/// number, interest tags, quotes, timestamp and schedule slots.
/// Immutable once constructed; cloned into outgoing messages.
#[derive(Clone, Debug, PartialEq, Eq)]
pub struct ShareData {
    pub u: String,
    pub r: String,
    pub s: u32,
    pub h: Vec<String>,
    pub q: Vec<String>,
    pub t: String,
    pub o: Vec<CompactSlot>,
}

/// Mathematical image of a [`ShareData`].
#[verifier::ext_equal]
pub struct ShareDataView {
    pub u: Seq<char>,
    pub r: Seq<char>,
    pub s: u32,
    pub h: Seq<Seq<char>>,
    pub q: Seq<Seq<char>>,
    pub t: Seq<char>,
    pub o: Seq<SlotView>,
}

impl View for ShareData {
    type V = ShareDataView;

    open spec fn view(&self) -> ShareDataView {
        ShareDataView {
            u: self.u@,
            r: self.r@,
            s: self.s,
            h: self.h.deep_view(),
            q: self.q.deep_view(),
            t: self.t@,
            o: self.o@.map_values(|c: CompactSlot| c@),
        }
    }
}

/// A peer sighted on the local network: its identity string and the
/// moment of the sighting, in seconds since the epoch. Ephemeral.
#[derive(Clone, Debug, PartialEq, Eq)]
pub struct DiscoveredPeer {
    pub endpoint_id: String,
    pub timestamp: u64,
}

/// An inbound friend request awaiting a local decision: the requester's
/// declared identity strings and the connection's remote identity.
#[derive(Clone, Debug, PartialEq, Eq)]
pub struct IncomingRequest {
    pub from: String,
    pub name: String,
    pub remote_id: String,
}

/// The event union delivered to the presentation layer. Exactly one
/// variant matches per emission.
#[derive(Clone, Debug)]
pub enum FriendEvent {
    PeerDiscovered { peer: DiscoveredPeer },
    IncomingRequest { request: IncomingRequest },
    RequestAccepted { share_data: ShareData },
    RequestRejected { reason: String },
    DataReceived { share_data: ShareData },
    Error { message: String },
}

} // verus!
