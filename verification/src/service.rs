//! The friend-exchange engine: lifecycle, discovery control, the
//! request/accept/reject handshake and event delivery.
//!
//! The engine is a state machine over plain values. The embedder owns the
//! transport: it binds the endpoint, opens and accepts connections and
//! streams, and performs every read and write. Each operation here makes
//! a decision — what to send, what was received, how the shared state
//! changes — and hands the embedder a directive naming the bytes to move.
//! Connections and background tasks are named by integer handles that the
//! embedder maps to its live resources.

use crate::codec::{
    decode_request, decode_response, decode_share, enc_request, enc_response, enc_share,
    encode_request, encode_response, encode_share, p_request, p_response, p_share, MAX_WIRE,
};
use crate::data::{CompactSlot, DiscoveredPeer, FriendEvent, IncomingRequest, ShareData};
use crate::registry::{find, PendingRegistry, PendingRequest};
use std::str::FromStr;
use vstd::prelude::*;

verus! {

/// Why an operation failed, and for `message`, what the caller is told.
#[derive(Clone, Debug, PartialEq, Eq)]
pub enum ServiceError {
    /// The identity string does not parse to a connectable address.
    InvalidAddress,
    /// The peer turned the request down.
    Rejected,
    /// A payload did not decode as the expected message.
    BadMessage,
    /// No pending request is registered for the identity.
    NotFound,
}

impl ServiceError {
    /// The caller-facing description of the failure.
    pub fn message(&self) -> (r: String)
        ensures
            r@ == error_text(*self),
    {
        match self {
            ServiceError::InvalidAddress => "invalid endpoint id".to_owned(),
            ServiceError::Rejected => "friend request was rejected".to_owned(),
            ServiceError::BadMessage => "malformed message payload".to_owned(),
            ServiceError::NotFound => "no pending request from this peer".to_owned(),
        }
    }
}

/// The text `message` returns for each failure.
pub open spec fn error_text(e: ServiceError) -> Seq<char> {
    match e {
        ServiceError::InvalidAddress => "invalid endpoint id"@,
        ServiceError::Rejected => "friend request was rejected"@,
        ServiceError::BadMessage => "malformed message payload"@,
        ServiceError::NotFound => "no pending request from this peer"@,
    }
}

/// An `Error` event announcing a malformed payload.
pub open spec fn bad_message_event(ev: FriendEvent) -> bool {
    match ev {
        FriendEvent::Error { message } => message@ == error_text(ServiceError::BadMessage),
        _ => false,
    }
}

/// Whether an identity string parses as a public endpoint key; what
/// `iroh::PublicKey::from_str` accepts depends on the string alone.
pub uninterp spec fn endpoint_id_ok(s: Seq<char>) -> bool;

/// Relies on `iroh::PublicKey::from_str` to validate a peer identity
/// before a connection is attempted.
#[verifier::external_body]
fn parse_endpoint_id(s: &str) -> (r: bool)
    ensures
        r == endpoint_id_ok(s@),
{
    iroh::PublicKey::from_str(s).is_ok()
}

/// What `start_discovery` tells the embedder to do: cancel the previous
/// subscription task, if one runs, then spawn the new one.
#[derive(Debug)]
pub struct DiscoveryRestart {
    pub cancel: Option<u64>,
    pub spawn: u64,
}

/// The opening move of an outbound handshake: the bytes to write on the
/// first stream of a fresh connection to the peer.
#[derive(Debug)]
pub struct SendAttempt {
    pub request_bytes: Vec<u8>,
}

/// An accepted inbound request: answer on the held response stream, then
/// exchange profiles on the connection's second stream.
#[derive(Debug)]
pub struct AcceptAttempt {
    pub conn: u64,
    pub request: IncomingRequest,
    pub response_bytes: Vec<u8>,
    pub my_data_bytes: Vec<u8>,
}

/// A rejected inbound request: answer on the held response stream and
/// close the connection. No further stream is opened and no profile
/// bytes travel in either direction.
#[derive(Debug)]
pub struct RejectDirective {
    pub conn: u64,
    pub response_bytes: Vec<u8>,
}

/// What `shutdown` tells the embedder to do before closing the endpoint.
#[derive(Debug)]
pub struct ShutdownDirective {
    pub cancel_discovery: Option<u64>,
}

/// The background tasks the engine believes alive: at most the one
/// discovery subscription.
pub open spec fn alive_discovery_tasks(task: Option<u64>) -> Set<u64> {
    match task {
        Some(t) => set![t],
        None => Set::empty(),
    }
}

/// The single-task invariant itself: whatever the engine's state, at
/// most one discovery task is alive.
pub proof fn lemma_single_discovery_task(task: Option<u64>)
    ensures
        alive_discovery_tasks(task).len() <= 1,
{
    match task {
        Some(t) => {
            assert(alive_discovery_tasks(task) =~= set![t]);
            assert(set![t].len() == 1);
        },
        None => {
            assert(alive_discovery_tasks(task) =~= Set::<u64>::empty());
        },
    }
}

/// A response message never carries a profile: rejecting a handshake
/// cannot leak profile bytes on the response stream.
pub proof fn lemma_response_is_not_profile(accepted: bool, v: crate::data::ShareDataView)
    ensures
        enc_response(accepted) != enc_share(v),
{
    let r = enc_response(accepted);
    let s = enc_share(v);
    assert(r[2] == 97);
    assert(s[2] == 117);
    if r == s {
        assert(r[2] == s[2]);
    }
}

/// For every pair of profiles, the bytes each side writes on the data
/// stream decode on the other side to exactly the profile that was sent:
/// the exchange is faithful in both directions.
pub proof fn lemma_exchange_fidelity(
    mine: crate::data::ShareDataView,
    theirs: crate::data::ShareDataView,
)
    ensures
        p_share(enc_share(mine)) == Some(mine),
        p_share(enc_share(theirs)) == Some(theirs),
{
    crate::codec::lemma_share_round_trip(mine);
    crate::codec::lemma_share_round_trip(theirs);
}

/// The orchestrator: owns the engine's shared state — the local identity,
/// the lifecycle flags, the pending-request registry, the local profile
/// and the event outbox — one instance per process, held by the
/// composition root.
pub struct FriendExchangeService {
    /// The bound endpoint's identity string.
    pub local_id: String,
    /// Set once the protocol handler is registered and the event channel
    /// attached.
    pub started: bool,
    /// The live discovery task, if any: the single-task invariant is that
    /// this option names every alive subscription.
    pub discovery_task: Option<u64>,
    /// Source of fresh task handles.
    pub next_task: u64,
    /// Inbound requests awaiting accept or reject.
    pub registry: PendingRegistry,
    /// The locally set profile.
    pub my_share_data: Option<ShareData>,
    /// Events not yet delivered, in emission order; the embedder drains
    /// them into its channel.
    pub events: Vec<FriendEvent>,
}

impl FriendExchangeService {
    /// A freshly initialized service: endpoint bound (its identity given
    /// by the embedder), nothing started, nothing pending.
    pub fn new(local_id: String) -> (r: FriendExchangeService)
        ensures
            r.local_id == local_id,
            !r.started,
            r.discovery_task is None,
            r.registry.entries@ =~= Seq::<PendingRequest>::empty(),
            r.my_share_data is None,
            r.events@ =~= Seq::<FriendEvent>::empty(),
    {
        FriendExchangeService {
            local_id,
            started: false,
            discovery_task: None,
            next_task: 0,
            registry: PendingRegistry::new(),
            my_share_data: None,
            events: Vec::new(),
        }
    }

    /// The local endpoint's identity string.
    pub fn get_endpoint_id(&self) -> (r: String)
        ensures
            r@ == self.local_id@,
    {
        self.local_id.clone()
    }

    /// Set the local profile; everything else stays as it was.
    pub fn set_share_data(&mut self, share_data: ShareData)
        ensures
            final(self).my_share_data == Some(share_data),
            *final(self) == (FriendExchangeService {
                my_share_data: Some(share_data),
                ..*old(self)
            }),
    {
        self.my_share_data = Some(share_data);
    }

    /// Mark the service started: the embedder has attached the event
    /// channel and registered the protocol handler under the protocol
    /// tag. Re-invoking only replaces the channel.
    pub fn start(&mut self)
        ensures
            *final(self) == (FriendExchangeService { started: true, ..*old(self) }),
    {
        self.started = true;
    }

    /// Start (or restart) peer discovery. Without an attached event
    /// channel this is a no-op, as there is nowhere to deliver
    /// sightings. Otherwise the previous task, if any, is cancelled and
    /// exactly one new task is spawned: at most one discovery task is
    /// ever alive.
    pub fn start_discovery(&mut self) -> (r: Option<DiscoveryRestart>)
        requires
            old(self).next_task < u64::MAX,
        ensures
            !old(self).started ==> r is None && *final(self) == *old(self),
            old(self).started ==> r == Some(
                DiscoveryRestart { cancel: old(self).discovery_task, spawn: old(self).next_task },
            ) && *final(self) == (FriendExchangeService {
                discovery_task: Some(old(self).next_task),
                next_task: (old(self).next_task + 1) as u64,
                ..*old(self)
            }),
    {
        if !self.started {
            return None;
        }
        let cancel = self.discovery_task;
        let spawn = self.next_task;
        self.discovery_task = Some(spawn);
        self.next_task = spawn + 1;
        Some(DiscoveryRestart { cancel, spawn })
    }

    /// Stop peer discovery: the returned task, if any, is to be
    /// cancelled. Idempotent.
    pub fn stop_discovery(&mut self) -> (r: Option<u64>)
        ensures
            r == old(self).discovery_task,
            *final(self) == (FriendExchangeService { discovery_task: None, ..*old(self) }),
    {
        let t = self.discovery_task;
        self.discovery_task = None;
        t
    }

    /// One sighting from the discovery stream: everyone but the local
    /// identity is republished as a `PeerDiscovered` event, duplicates
    /// included — freshness is the presentation layer's business.
    pub fn handle_discovery(&mut self, seen_id: String, timestamp: u64)
        ensures
            old(self).started && seen_id@ != old(self).local_id@ ==> final(self).events@ == old(
                self,
            ).events@.push(
                FriendEvent::PeerDiscovered {
                    peer: DiscoveredPeer { endpoint_id: seen_id, timestamp },
                },
            ),
            !(old(self).started && seen_id@ != old(self).local_id@) ==> *final(self) == *old(self),
            final(self).local_id == old(self).local_id,
            final(self).started == old(self).started,
            final(self).discovery_task == old(self).discovery_task,
            final(self).next_task == old(self).next_task,
            final(self).registry.entries@ == old(self).registry.entries@,
            final(self).my_share_data == old(self).my_share_data,
    {
        if self.started && !(seen_id == self.local_id) {
            self.events.push(
                FriendEvent::PeerDiscovered {
                    peer: DiscoveredPeer { endpoint_id: seen_id, timestamp },
                },
            );
        }
    }

    /// First half of an inbound handshake, run when a connection under
    /// the protocol tag delivers its request payload. A well-formed
    /// request is registered — the connection stays open, unanswered,
    /// under the handle `conn` — and announced if the channel is
    /// attached. A malformed payload fails only this connection: the
    /// registry is untouched and the failure surfaces as an `Error`
    /// event.
    pub fn handle_incoming(&mut self, conn: u64, remote_id: String, payload: &[u8]) -> (r: Result<
        IncomingRequest,
        ServiceError,
    >)
        requires
            payload@.len() <= MAX_WIRE,
        ensures
            r is Ok <==> p_request(payload@) is Some,
            r matches Ok(req) ==> {
                &&& p_request(payload@) == Some((req.from@, req.name@))
                &&& req.remote_id@ == remote_id@
                &&& final(self).registry.entries@ == old(self).registry.entries@.push(
                    PendingRequest { remote_id, request: req, conn },
                )
                &&& old(self).started ==> final(self).events@ == old(self).events@.push(
                    FriendEvent::IncomingRequest { request: req },
                )
                &&& !old(self).started ==> final(self).events@ == old(self).events@
                &&& final(self).local_id == old(self).local_id
                &&& final(self).started == old(self).started
                &&& final(self).discovery_task == old(self).discovery_task
                &&& final(self).my_share_data == old(self).my_share_data
            },
            r is Err ==> {
                &&& r == Err::<IncomingRequest, ServiceError>(ServiceError::BadMessage)
                &&& final(self).registry.entries@ == old(self).registry.entries@
                &&& old(self).started ==> (exists|ev: FriendEvent|
                    final(self).events@ == old(self).events@.push(ev)
                        && #[trigger] bad_message_event(ev))
                &&& !old(self).started ==> final(self).events@ == old(self).events@
                &&& final(self).local_id == old(self).local_id
                &&& final(self).started == old(self).started
                &&& final(self).discovery_task == old(self).discovery_task
                &&& final(self).my_share_data == old(self).my_share_data
            },
    {
        match decode_request(payload) {
            Some((from, name)) => {
                let request = IncomingRequest { from, name, remote_id: remote_id.clone() };
                let req = IncomingRequest {
                    from: request.from.clone(),
                    name: request.name.clone(),
                    remote_id: request.remote_id.clone(),
                };
                assert(req == request);
                self.registry.insert(PendingRequest { remote_id, request, conn });
                if self.started {
                    let again = IncomingRequest {
                        from: req.from.clone(),
                        name: req.name.clone(),
                        remote_id: req.remote_id.clone(),
                    };
                    assert(again == req);
                    self.events.push(FriendEvent::IncomingRequest { request: again });
                }
                Ok(req)
            },
            None => {
                if self.started {
                    let e = ServiceError::BadMessage;
                    let ev = FriendEvent::Error { message: e.message() };
                    assert(bad_message_event(ev));
                    self.events.push(ev);
                }
                Err(ServiceError::BadMessage)
            },
        }
    }

    /// Open an outbound handshake toward `peer_endpoint_id`. A malformed
    /// identity is rejected here, before any connection is attempted;
    /// otherwise the returned bytes are the request message — `from` the
    /// registration string, `name` the owner name of the offered profile
    /// — to write on the first stream of a fresh connection under the
    /// protocol tag, ended after the write.
    pub fn send_friend_request(&self, peer_endpoint_id: &String, my_share_data: &ShareData) -> (r:
        Result<SendAttempt, ServiceError>)
        ensures
            r is Ok <==> endpoint_id_ok(peer_endpoint_id@),
            r matches Ok(a) ==> a.request_bytes@ == enc_request(
                my_share_data.r@,
                my_share_data.u@,
            ),
            r is Err ==> r == Err::<SendAttempt, ServiceError>(ServiceError::InvalidAddress),
    {
        if !parse_endpoint_id(peer_endpoint_id.as_str()) {
            return Err(ServiceError::InvalidAddress);
        }
        let request_bytes = encode_request(my_share_data.r.as_str(), my_share_data.u.as_str());
        Ok(SendAttempt { request_bytes })
    }

    /// Second step of an outbound handshake: judge the response read back
    /// on the first stream. On consent the returned bytes are the offered
    /// profile, to write on a second stream the initiator opens; on
    /// refusal the handshake ends here — no second stream, no profile
    /// bytes — and the caller fails with the rejection.
    pub fn send_friend_request_response(
        &self,
        my_share_data: &ShareData,
        response_bytes: &[u8],
    ) -> (r: Result<Vec<u8>, ServiceError>)
        requires
            response_bytes@.len() <= MAX_WIRE,
        ensures
            r is Ok <==> p_response(response_bytes@) == Some(true),
            r matches Ok(data) ==> data@ == enc_share(my_share_data@),
            p_response(response_bytes@) == Some(false) ==> r == Err::<Vec<u8>, ServiceError>(
                ServiceError::Rejected,
            ),
            p_response(response_bytes@) is None ==> r == Err::<Vec<u8>, ServiceError>(
                ServiceError::BadMessage,
            ),
    {
        match decode_response(response_bytes) {
            Some(true) => Ok(encode_share(my_share_data)),
            Some(false) => Err(ServiceError::Rejected),
            None => Err(ServiceError::BadMessage),
        }
    }

    /// Last step of an outbound handshake: decode the peer's profile read
    /// from the second stream, announce it, and hand it to the caller.
    /// The peer's bytes decode to exactly the profile the peer offered.
    pub fn send_friend_request_finish(&mut self, their_bytes: &[u8]) -> (r: Result<
        ShareData,
        ServiceError,
    >)
        requires
            their_bytes@.len() <= MAX_WIRE,
        ensures
            r is Ok <==> p_share(their_bytes@) is Some,
            r matches Ok(d) ==> p_share(their_bytes@) == Some(d@),
            r matches Ok(d) ==> {
                &&& old(self).started ==> (exists|x: ShareData|
                    final(self).events@ == old(self).events@.push(
                        FriendEvent::DataReceived { share_data: x },
                    ) && #[trigger] x@ == d@)
                &&& !old(self).started ==> final(self).events@ == old(self).events@
            },
            r is Err ==> r == Err::<ShareData, ServiceError>(ServiceError::BadMessage) && *final(self)
                == *old(self),
            final(self).registry.entries@ == old(self).registry.entries@,
            final(self).local_id == old(self).local_id,
            final(self).started == old(self).started,
            final(self).discovery_task == old(self).discovery_task,
            final(self).my_share_data == old(self).my_share_data,
    {
        match decode_share(their_bytes) {
            Some(d) => {
                if self.started {
                    let copy = clone_share_data(&d);
                    self.events.push(FriendEvent::DataReceived { share_data: copy });
                }
                Ok(d)
            },
            None => Err(ServiceError::BadMessage),
        }
    }

    /// Accept a pending inbound request: its registry entry — the first
    /// for `remote_id` — is consumed, exactly once; absent an entry the
    /// call fails not-found and nothing changes. The directive carries
    /// the consent message for the held response stream and the local
    /// profile for the connection's second stream.
    pub fn accept_friend_request(&mut self, remote_id: &String, my_share_data: &ShareData) -> (r:
        Result<AcceptAttempt, ServiceError>)
        ensures
            r is Ok <==> find(old(self).registry.entries@, remote_id@) >= 0,
            r matches Ok(a) ==> {
                let m = find(old(self).registry.entries@, remote_id@);
                &&& a.conn == old(self).registry.entries@[m].conn
                &&& a.request == old(self).registry.entries@[m].request
                &&& a.response_bytes@ == enc_response(true)
                &&& a.my_data_bytes@ == enc_share(my_share_data@)
                &&& final(self).registry.entries@ == old(self).registry.entries@.remove(m)
            },
            r is Err ==> r == Err::<AcceptAttempt, ServiceError>(ServiceError::NotFound)
                && final(self).registry.entries@ == old(self).registry.entries@,
            final(self).events@ == old(self).events@,
            final(self).local_id == old(self).local_id,
            final(self).started == old(self).started,
            final(self).discovery_task == old(self).discovery_task,
            final(self).my_share_data == old(self).my_share_data,
    {
        match self.registry.remove_by_remote_id(remote_id) {
            Some(entry) => {
                let response_bytes = encode_response(true);
                let my_data_bytes = encode_share(my_share_data);
                Ok(
                    AcceptAttempt {
                        conn: entry.conn,
                        request: entry.request,
                        response_bytes,
                        my_data_bytes,
                    },
                )
            },
            None => Err(ServiceError::NotFound),
        }
    }

    /// Last step of an accepted handshake: decode the peer's profile read
    /// from the second stream, announce the acceptance, and hand the
    /// profile to the caller.
    pub fn accept_friend_request_finish(&mut self, their_bytes: &[u8]) -> (r: Result<
        ShareData,
        ServiceError,
    >)
        requires
            their_bytes@.len() <= MAX_WIRE,
        ensures
            r is Ok <==> p_share(their_bytes@) is Some,
            r matches Ok(d) ==> p_share(their_bytes@) == Some(d@),
            r matches Ok(d) ==> {
                &&& old(self).started ==> (exists|x: ShareData|
                    final(self).events@ == old(self).events@.push(
                        FriendEvent::RequestAccepted { share_data: x },
                    ) && #[trigger] x@ == d@)
                &&& !old(self).started ==> final(self).events@ == old(self).events@
            },
            r is Err ==> r == Err::<ShareData, ServiceError>(ServiceError::BadMessage) && *final(self)
                == *old(self),
            final(self).registry.entries@ == old(self).registry.entries@,
            final(self).local_id == old(self).local_id,
            final(self).started == old(self).started,
            final(self).discovery_task == old(self).discovery_task,
            final(self).my_share_data == old(self).my_share_data,
    {
        match decode_share(their_bytes) {
            Some(d) => {
                if self.started {
                    let copy = clone_share_data(&d);
                    self.events.push(FriendEvent::RequestAccepted { share_data: copy });
                }
                Ok(d)
            },
            None => Err(ServiceError::BadMessage),
        }
    }

    /// Reject a pending inbound request: its registry entry — the first
    /// for `remote_id` — is consumed, exactly once; absent an entry the
    /// call fails not-found and nothing changes. The directive carries
    /// only the refusal message and the connection to close: no second
    /// stream is opened and no profile bytes travel either way.
    pub fn reject_friend_request(&mut self, remote_id: &String) -> (r: Result<
        RejectDirective,
        ServiceError,
    >)
        ensures
            r is Ok <==> find(old(self).registry.entries@, remote_id@) >= 0,
            r matches Ok(d) ==> {
                let m = find(old(self).registry.entries@, remote_id@);
                &&& d.conn == old(self).registry.entries@[m].conn
                &&& d.response_bytes@ == enc_response(false)
                &&& final(self).registry.entries@ == old(self).registry.entries@.remove(m)
            },
            r is Err ==> r == Err::<RejectDirective, ServiceError>(ServiceError::NotFound)
                && final(self).registry.entries@ == old(self).registry.entries@,
            final(self).events@ == old(self).events@,
            final(self).local_id == old(self).local_id,
            final(self).started == old(self).started,
            final(self).discovery_task == old(self).discovery_task,
            final(self).my_share_data == old(self).my_share_data,
    {
        match self.registry.remove_by_remote_id(remote_id) {
            Some(entry) => {
                let response_bytes = encode_response(false);
                Ok(RejectDirective { conn: entry.conn, response_bytes })
            },
            None => Err(ServiceError::NotFound),
        }
    }

    /// Drain the event outbox, in emission order, for delivery on the
    /// embedder's channel.
    pub fn take_events(&mut self) -> (r: Vec<FriendEvent>)
        ensures
            r@ == old(self).events@,
            final(self).events@ =~= Seq::<FriendEvent>::empty(),
            final(self).registry.entries@ == old(self).registry.entries@,
            final(self).local_id == old(self).local_id,
            final(self).started == old(self).started,
            final(self).discovery_task == old(self).discovery_task,
            final(self).next_task == old(self).next_task,
            final(self).my_share_data == old(self).my_share_data,
    {
        let mut drained: Vec<FriendEvent> = Vec::new();
        std::mem::swap(&mut drained, &mut self.events);
        drained
    }

    /// Tear the service down, exactly once: the returned task is to be
    /// cancelled, then the endpoint closed, which ends every still-open
    /// stream. Consumes the service; nothing can use it afterwards.
    pub fn shutdown(self) -> (r: ShutdownDirective)
        ensures
            r.cancel_discovery == self.discovery_task,
    {
        ShutdownDirective { cancel_discovery: self.discovery_task }
    }
}

/// A copy of a profile, equal under the view (the derived clone says
/// nothing to the verifier).
pub fn clone_share_data(d: &ShareData) -> (r: ShareData)
    ensures
        r@ == d@,
{
    let mut o: Vec<CompactSlot> = Vec::new();
    let mut i: usize = 0;
    while i < d.o.len()
        invariant
            i <= d.o@.len(),
            o@ == d.o@.take(i as int),
        decreases d.o@.len() - i,
    {
        let c = &d.o[i];
        o.push(CompactSlot { d: c.d, s: c.s.clone(), p: c.p, f: c.f.clone() });
        assert(o@ =~= d.o@.take(i + 1));
        i += 1;
    }
    assert(o@ =~= d.o@);
    let r = ShareData {
        u: d.u.clone(),
        r: d.r.clone(),
        s: d.s,
        h: clone_strings(&d.h),
        q: clone_strings(&d.q),
        t: d.t.clone(),
        o,
    };
    assert(r@ =~= d@);
    r
}

/// A copy of a string list, equal under the view.
pub fn clone_strings(xs: &Vec<String>) -> (r: Vec<String>)
    ensures
        r@ == xs@,
{
    let mut out: Vec<String> = Vec::new();
    let mut i: usize = 0;
    while i < xs.len()
        invariant
            i <= xs@.len(),
            out@ == xs@.take(i as int),
        decreases xs@.len() - i,
    {
        out.push(xs[i].clone());
        assert(out@ =~= xs@.take(i + 1));
        i += 1;
    }
    assert(out@ =~= xs@);
    out
}

} // verus!
