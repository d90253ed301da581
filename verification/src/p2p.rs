//! Decisions of a p2p node: the name and frame limits of its RPC protocol, which network
//! events it forwards to its user, how outstanding RPC requests are matched with their
//! outcome, and how bootstrap addresses become routing entries. The network itself (the
//! transport, the swarm, the codec's framing on the wire) is driven by the caller, which
//! reports events here and carries out the returned actions.

use vstd::prelude::*;
use vstd::string::StringSliceAdditionalSpecFns;
use std::marker::PhantomData;

verus! {

/// What an RPC request must offer: cloning and comparison (serialization is added by
/// whoever sends it over the wire).
pub trait RpcRequest: Clone + Eq + Sized {

}

impl<T: Clone + Eq + Sized> RpcRequest for T {

}

/// What an RPC response must offer: cloning and comparison (serialization is added by
/// whoever sends it over the wire).
pub trait RpcResponse: Clone + Eq + Sized {

}

impl<T: Clone + Eq + Sized> RpcResponse for T {

}

/// The largest request frame read from a peer, in bytes.
pub const MAX_REQUEST_SIZE: usize = 1000000;

/// The largest response frame read from a peer, in bytes.
pub const MAX_RESPONSE_SIZE: usize = 500000000;

/// The bytes of the RPC protocol's name, `/mc/deqs/p2p/rpc`.
pub open spec fn rpc_protocol_name() -> Seq<u8> {
    seq![47u8, 109, 99, 47, 100, 101, 113, 115, 47, 112, 50, 112, 47, 114, 112, 99]
}

/// The RPC protocol of the node.
#[derive(Clone, Copy, Debug)]
pub struct RpcProtocol;

impl RpcProtocol {
    /// The protocol's name, as announced to peers.
    pub fn protocol_name(&self) -> (r: &'static [u8])
        ensures
            r@ == rpc_protocol_name(),
    {
        let name = "/mc/deqs/p2p/rpc";
        proof {
            reveal_strlit("/mc/deqs/p2p/rpc");
            vstd::string::is_ascii_spec_bytes(name);
            assert(name.spec_bytes() =~= rpc_protocol_name());
        }
        name.as_bytes()
    }
}

/// Why a frame read from a peer is refused.
#[derive(Clone, Copy, Debug, PartialEq, Eq, Structural)]
pub enum RpcFrameError {
    /// The frame is empty.
    UnexpectedEof,
}

/// The codec of the RPC protocol: frames of at most `MAX_REQUEST_SIZE` bytes for requests and
/// `MAX_RESPONSE_SIZE` bytes for responses, each holding one serialized message.
pub struct RpcCodec<REQ: RpcRequest, RESP: RpcResponse> {
    _req: PhantomData<REQ>,
    _resp: PhantomData<RESP>,
}

impl<REQ: RpcRequest, RESP: RpcResponse> RpcCodec<REQ, RESP> {
    /// The codec holds no state: this is its only value.
    pub closed spec fn stateless() -> Self {
        RpcCodec { _req: PhantomData, _resp: PhantomData }
    }

    /// A codec.
    pub fn new() -> (r: Self)
        ensures
            r == Self::stateless(),
    {
        RpcCodec { _req: PhantomData, _resp: PhantomData }
    }

    /// The largest request frame the codec reads.
    pub fn max_request_size(&self) -> (r: usize)
        ensures
            r == MAX_REQUEST_SIZE,
    {
        MAX_REQUEST_SIZE
    }

    /// The largest response frame the codec reads.
    pub fn max_response_size(&self) -> (r: usize)
        ensures
            r == MAX_RESPONSE_SIZE,
    {
        MAX_RESPONSE_SIZE
    }

    /// Accepts a request frame for deserialization, unless it is empty.
    pub fn accept_request_frame(&self, frame: Vec<u8>) -> (r: Result<Vec<u8>, RpcFrameError>)
        ensures
            frame@.len() == 0 ==> r == Err::<Vec<u8>, RpcFrameError>(RpcFrameError::UnexpectedEof),
            frame@.len() > 0 ==> r is Ok && r->Ok_0@ == frame@,
    {
        if frame.len() == 0 {
            return Err(RpcFrameError::UnexpectedEof);
        }
        Ok(frame)
    }

    /// Accepts a response frame for deserialization, unless it is empty.
    pub fn accept_response_frame(&self, frame: Vec<u8>) -> (r: Result<Vec<u8>, RpcFrameError>)
        ensures
            frame@.len() == 0 ==> r == Err::<Vec<u8>, RpcFrameError>(RpcFrameError::UnexpectedEof),
            frame@.len() > 0 ==> r is Ok && r->Ok_0@ == frame@,
    {
        if frame.len() == 0 {
            return Err(RpcFrameError::UnexpectedEof);
        }
        Ok(frame)
    }
}

impl<REQ: RpcRequest, RESP: RpcResponse> Clone for RpcCodec<REQ, RESP> {
    fn clone(&self) -> (r: Self)
        ensures
            r == Self::stateless(),
    {
        Self::new()
    }
}

impl<REQ: RpcRequest, RESP: RpcResponse> Default for RpcCodec<REQ, RESP> {
    fn default() -> (r: Self)
        ensures
            r == Self::stateless(),
    {
        Self::new()
    }
}

/// The RPC requests sent to peers whose outcome is still awaited, each with whatever hands the
/// outcome to the requester; a request id occurs at most once.
pub struct PendingRpcRequests<S> {
    entries: Vec<(u64, S)>,
}

/// Whether no request id occurs twice.
pub open spec fn distinct_ids<S>(s: Seq<(u64, S)>) -> bool {
    forall|a: int, b: int|
        0 <= a < s.len() && 0 <= b < s.len() && #[trigger] s[a].0 == #[trigger] s[b].0 ==> a == b
}

/// The awaited requests as a map from request id to the requester's handle.
pub open spec fn pending_map<S>(s: Seq<(u64, S)>) -> Map<u64, S>
    decreases s.len(),
{
    if s.len() == 0 {
        Map::empty()
    } else {
        pending_map(s.drop_last()).insert(s.last().0, s.last().1)
    }
}

/// With distinct ids, the map holds exactly the ids of the sequence, each with its handle.
pub proof fn lemma_pending_map_entries<S>(s: Seq<(u64, S)>)
    requires
        distinct_ids(s),
    ensures
        forall|id: u64| #[trigger]
            pending_map(s).contains_key(id) <==> exists|j: int| 0 <= j < s.len() && s[j].0 == id,
        forall|j: int| 0 <= j < s.len() ==> pending_map(s)[#[trigger] s[j].0] == s[j].1,
    decreases s.len(),
{
    if s.len() > 0 {
        let rest = s.drop_last();
        let n = s.len() - 1;
        assert(distinct_ids(rest)) by {
            assert forall|a: int, b: int|
                0 <= a < rest.len() && 0 <= b < rest.len() && #[trigger] rest[a].0
                    == #[trigger] rest[b].0 implies a == b by {
                assert(rest[a] == s[a]);
                assert(rest[b] == s[b]);
            }
        }
        lemma_pending_map_entries(rest);
        assert(s[n] == s.last());
        assert forall|id: u64| #[trigger]
            pending_map(s).contains_key(id) <==> exists|j: int| 0 <= j < s.len() && s[j].0 == id by {
            if id == s.last().0 {
                assert(s[n].0 == id);
            } else {
                if pending_map(rest).contains_key(id) {
                    let j = choose|j: int| 0 <= j < rest.len() && rest[j].0 == id;
                    assert(rest[j] == s[j]);
                    assert(s[j].0 == id);
                }
                if exists|j: int| 0 <= j < s.len() && s[j].0 == id {
                    let j = choose|j: int| 0 <= j < s.len() && s[j].0 == id;
                    assert(j != n);
                    assert(rest[j] == s[j]);
                    assert(rest[j].0 == id);
                }
            }
        }
        assert forall|j: int| 0 <= j < s.len() implies pending_map(s)[#[trigger] s[j].0] == s[j].1 by {
            if j < n {
                assert(rest[j] == s[j]);
                assert(s[j].0 != s[n].0);
            }
        }
    }
}

impl<S> PendingRpcRequests<S> {
    /// The awaited requests, by id.
    pub closed spec fn requests(self) -> Map<u64, S> {
        pending_map(self.entries@)
    }

    /// No request id occurs twice.
    pub closed spec fn wf(self) -> bool {
        distinct_ids(self.entries@)
    }

    /// No request awaited.
    pub fn new() -> (r: Self)
        ensures
            r.wf(),
            r.requests() == Map::<u64, S>::empty(),
    {
        PendingRpcRequests { entries: Vec::new() }
    }

    /// The position of a request id, if it is awaited.
    fn position(&self, request_id: u64) -> (r: Option<usize>)
        requires
            self.wf(),
        ensures
            r is None ==> forall|j: int|
                0 <= j < self.entries@.len() ==> self.entries@[j].0 != request_id,
            r is Some ==> r->Some_0 < self.entries@.len() && self.entries@[r->Some_0 as int].0
                == request_id,
    {
        let mut i: usize = 0;
        while i < self.entries.len()
            invariant
                0 <= i <= self.entries@.len(),
                forall|j: int| 0 <= j < i ==> self.entries@[j].0 != request_id,
            decreases self.entries@.len() - i,
        {
            if self.entries[i].0 == request_id {
                return Some(i);
            }
            i = i + 1;
        }
        None
    }

    /// Awaits the outcome of a request sent with the given id; a handle already awaiting
    /// that id is replaced and returned.
    pub fn insert(&mut self, request_id: u64, handle: S) -> (r: Option<S>)
        requires
            old(self).wf(),
        ensures
            final(self).wf(),
            final(self).requests() == old(self).requests().insert(request_id, handle),
            r is Some <==> old(self).requests().contains_key(request_id),
            r is Some ==> r->Some_0 == old(self).requests()[request_id],
    {
        proof {
            lemma_pending_map_entries(self.entries@);
        }
        let previous = self.remove(request_id);
        let ghost middle = self.entries@;
        self.entries.push((request_id, handle));
        proof {
            let after = self.entries@;
            assert(after.drop_last() =~= middle);
            lemma_pending_map_entries(middle);
            assert(!pending_map(middle).contains_key(request_id));
            assert(distinct_ids(after)) by {
                assert forall|a: int, b: int|
                    0 <= a < after.len() && 0 <= b < after.len() && #[trigger] after[a].0
                        == #[trigger] after[b].0 implies a == b by {
                    if a < middle.len() && b < middle.len() {
                        assert(middle[a].0 == middle[b].0);
                    } else if a < middle.len() {
                        assert(middle[a].0 == request_id);
                    } else if b < middle.len() {
                        assert(middle[b].0 == request_id);
                    }
                }
            }
            assert(self.requests() =~= old(self).requests().insert(request_id, handle));
        }
        previous
    }

    /// Stops awaiting a request and returns its handle, if it was awaited.
    pub fn remove(&mut self, request_id: u64) -> (r: Option<S>)
        requires
            old(self).wf(),
        ensures
            final(self).wf(),
            final(self).requests() == old(self).requests().remove(request_id),
            r is Some <==> old(self).requests().contains_key(request_id),
            r is Some ==> r->Some_0 == old(self).requests()[request_id],
    {
        proof {
            lemma_pending_map_entries(self.entries@);
        }
        let ghost before = self.entries@;
        match self.position(request_id) {
            Some(j) => {
                proof {
                    lemma_pending_map_remove_at(before, j as int);
                }
                let (_, handle) = self.entries.remove(j);
                Some(handle)
            },
            None => {
                proof {
                    if pending_map(before).contains_key(request_id) {
                        let k = choose|k: int| 0 <= k < before.len() && before[k].0 == request_id;
                        assert(before[k].0 == request_id);
                    }
                    assert(pending_map(before).remove(request_id) =~= pending_map(before));
                }
                None
            },
        }
    }
}

/// Removing the entry at a position keeps ids distinct and removes that id from the map.
pub proof fn lemma_pending_map_remove_at<S>(s: Seq<(u64, S)>, j: int)
    requires
        distinct_ids(s),
        0 <= j < s.len(),
    ensures
        distinct_ids(s.remove(j)),
        pending_map(s.remove(j)) == pending_map(s).remove(s[j].0),
{
    let after = s.remove(j);
    let id0 = s[j].0;
    assert forall|a: int, b: int|
        0 <= a < after.len() && 0 <= b < after.len() && #[trigger] after[a].0
            == #[trigger] after[b].0 implies a == b by {
        let sa = if a < j { a } else { a + 1 };
        let sb = if b < j { b } else { b + 1 };
        assert(after[a] == s[sa]);
        assert(after[b] == s[sb]);
    }
    lemma_pending_map_entries(s);
    lemma_pending_map_entries(after);
    assert forall|id: u64| #[trigger]
        pending_map(after).contains_key(id) <==> pending_map(s).remove(id0).contains_key(id) by {
        if pending_map(after).contains_key(id) {
            let k = choose|k: int| 0 <= k < after.len() && after[k].0 == id;
            let sk = if k < j { k } else { k + 1 };
            assert(after[k] == s[sk]);
        }
        if pending_map(s).remove(id0).contains_key(id) {
            let k = choose|k: int| 0 <= k < s.len() && s[k].0 == id;
            assert(k != j);
            let ak = if k < j { k } else { k - 1 };
            assert(after[ak] == s[k]);
        }
    }
    assert forall|id: u64| #[trigger]
        pending_map(after).contains_key(id) implies pending_map(after)[id] == pending_map(
        s,
    ).remove(id0)[id] by {
        let k = choose|k: int| 0 <= k < after.len() && after[k].0 == id;
        let sk = if k < j { k } else { k + 1 };
        assert(after[k] == s[sk]);
    }
    assert(pending_map(after) =~= pending_map(s).remove(id0));
}

/// What the node's decisions read of an event of the network.
#[derive(Debug)]
pub enum SwarmEventKind {
    /// The node listens on a new address.
    NewListenAddr,
    /// A connection to a peer was established; `num_established` counts the connections to
    /// that peer, this one included.
    ConnectionEstablished { num_established: u32 },
    /// A peer sent an RPC request.
    RpcRequestReceived,
    /// A peer answered the RPC request with the given id.
    RpcResponseReceived { request_id: u64 },
    /// The RPC request with the given id failed.
    RpcOutboundFailure { request_id: u64 },
    /// A ping event.
    Ping,
    /// A search for the providers of a key completed; `key_matches` tells whether the key is
    /// the node's peer discovery key.
    ProvidersFound { key_matches: bool },
    /// Another completed routing query.
    RoutingQuery,
    /// A gossip message arrived.
    GossipMessage,
    /// A peer identified itself with the protocols it speaks.
    IdentifyReceived { protocols: Vec<Vec<u8>> },
    /// Another event of the node's behaviour.
    OtherBehaviour,
    /// Any other event.
    Other,
}

/// What the node does about an event.
#[derive(Debug)]
pub enum EventAction<S> {
    /// Only log the event.
    Log,
    /// Tell the user that a first connection to a peer was established.
    NotifyConnectionEstablished,
    /// Hand the incoming request to the user.
    ForwardRpcRequest,
    /// Hand the response to the requester waiting through this handle.
    CompleteRpcRequest(S),
    /// Hand the failure to the requester waiting through this handle.
    FailRpcRequest(S),
    /// Warn about a response or failure for a request that nobody awaits.
    UnknownRpcRequest,
    /// Log the providers found for the discovery key.
    LogProviders,
    /// Hand the gossip message to the user.
    ForwardGossip,
    /// Add the peer's listen addresses to the routing table.
    AddRoutingAddresses,
}

/// Whether a list of protocol names holds the given one.
pub open spec fn speaks(protocols: Seq<Seq<u8>>, protocol: Seq<u8>) -> bool {
    exists|i: int| 0 <= i < protocols.len() && protocols[i] == protocol
}

/// Whether two byte strings are equal.
fn bytes_equal(a: &Vec<u8>, b: &[u8]) -> (r: bool)
    ensures
        r == (a@ == b@),
{
    if a.len() != b.len() {
        return false;
    }
    let mut i: usize = 0;
    while i < a.len()
        invariant
            0 <= i <= a@.len(),
            a@.len() == b@.len(),
            forall|j: int| 0 <= j < i ==> a@[j] == b@[j],
        decreases a@.len() - i,
    {
        if a[i] != b[i] {
            return false;
        }
        i = i + 1;
    }
    assert(a@ =~= b@);
    true
}

/// Whether a peer that identified itself with `protocols` speaks the routing protocol named
/// `routing_protocol`.
pub fn speaks_protocol(protocols: &Vec<Vec<u8>>, routing_protocol: &[u8]) -> (r: bool)
    ensures
        r == speaks(Seq::new(protocols@.len(), |i: int| protocols@[i]@), routing_protocol@),
{
    let ghost names = Seq::new(protocols@.len(), |i: int| protocols@[i]@);
    let mut i: usize = 0;
    while i < protocols.len()
        invariant
            0 <= i <= protocols@.len(),
            names == Seq::new(protocols@.len(), |i: int| protocols@[i]@),
            forall|j: int| 0 <= j < i ==> names[j] != routing_protocol@,
        decreases protocols@.len() - i,
    {
        if bytes_equal(&protocols[i], routing_protocol) {
            assert(names[i as int] == routing_protocol@);
            return true;
        }
        i = i + 1;
    }
    false
}

/// The node's event-handling state: the RPC requests whose outcome it awaits.
pub struct NetworkEventLoopState<S> {
    pending_rpc_requests: PendingRpcRequests<S>,
}

impl<S> NetworkEventLoopState<S> {
    /// The awaited requests, by id.
    pub closed spec fn requests(self) -> Map<u64, S> {
        self.pending_rpc_requests.requests()
    }

    /// The awaited requests are well formed.
    pub closed spec fn wf(self) -> bool {
        self.pending_rpc_requests.wf()
    }

    /// A node that awaits nothing.
    pub fn new() -> (r: Self)
        ensures
            r.wf(),
            r.requests() == Map::<u64, S>::empty(),
    {
        NetworkEventLoopState { pending_rpc_requests: PendingRpcRequests::new() }
    }

    /// Records an RPC request sent with the given id, whose outcome goes to `handle`.
    pub fn rpc_request_sent(&mut self, request_id: u64, handle: S)
        requires
            old(self).wf(),
        ensures
            final(self).wf(),
            final(self).requests() == old(self).requests().insert(request_id, handle),
    {
        let _ = self.pending_rpc_requests.insert(request_id, handle);
    }

    /// Decides what to do about an event of the network: a first connection to a peer is
    /// reported to the user, incoming requests and gossip are forwarded, a response or
    /// failure goes to whoever awaits its request (which is then no longer awaited), and a
    /// peer that speaks the routing protocol has its addresses added to the routing table.
    pub fn handle_swarm_event(&mut self, event: &SwarmEventKind, routing_protocol: &[u8]) -> (r:
        EventAction<S>)
        requires
            old(self).wf(),
        ensures
            final(self).wf(),
            match event {
                SwarmEventKind::ConnectionEstablished { num_established } => final(self).requests()
                    == old(self).requests() && if *num_established == 1 {
                    r is NotifyConnectionEstablished
                } else {
                    r is Log
                },
                SwarmEventKind::RpcRequestReceived => final(self).requests() == old(self).requests()
                    && r is ForwardRpcRequest,
                SwarmEventKind::RpcResponseReceived { request_id } => final(self).requests() == old(
                    self,
                ).requests().remove(*request_id) && if old(self).requests().contains_key(
                    *request_id,
                ) {
                    r == EventAction::CompleteRpcRequest(old(self).requests()[*request_id])
                } else {
                    r is UnknownRpcRequest
                },
                SwarmEventKind::RpcOutboundFailure { request_id } => final(self).requests() == old(
                    self,
                ).requests().remove(*request_id) && if old(self).requests().contains_key(
                    *request_id,
                ) {
                    r == EventAction::FailRpcRequest(old(self).requests()[*request_id])
                } else {
                    r is UnknownRpcRequest
                },
                SwarmEventKind::ProvidersFound { key_matches } => final(self).requests() == old(
                    self,
                ).requests() && if *key_matches {
                    r is LogProviders
                } else {
                    r is Log
                },
                SwarmEventKind::GossipMessage => final(self).requests() == old(self).requests()
                    && r is ForwardGossip,
                SwarmEventKind::IdentifyReceived { protocols } => final(self).requests() == old(
                    self,
                ).requests() && if speaks(
                    Seq::new(protocols@.len(), |i: int| protocols@[i]@),
                    routing_protocol@,
                ) {
                    r is AddRoutingAddresses
                } else {
                    r is Log
                },
                _ => final(self).requests() == old(self).requests() && r is Log,
            },
    {
        match event {
            SwarmEventKind::ConnectionEstablished { num_established } => {
                if *num_established == 1 {
                    EventAction::NotifyConnectionEstablished
                } else {
                    EventAction::Log
                }
            },
            SwarmEventKind::RpcRequestReceived => EventAction::ForwardRpcRequest,
            SwarmEventKind::RpcResponseReceived { request_id } => {
                match self.pending_rpc_requests.remove(*request_id) {
                    Some(handle) => EventAction::CompleteRpcRequest(handle),
                    None => EventAction::UnknownRpcRequest,
                }
            },
            SwarmEventKind::RpcOutboundFailure { request_id } => {
                match self.pending_rpc_requests.remove(*request_id) {
                    Some(handle) => EventAction::FailRpcRequest(handle),
                    None => EventAction::UnknownRpcRequest,
                }
            },
            SwarmEventKind::ProvidersFound { key_matches } => {
                if *key_matches {
                    EventAction::LogProviders
                } else {
                    EventAction::Log
                }
            },
            SwarmEventKind::GossipMessage => EventAction::ForwardGossip,
            SwarmEventKind::IdentifyReceived { protocols } => {
                if speaks_protocol(protocols, routing_protocol) {
                    EventAction::AddRoutingAddresses
                } else {
                    EventAction::Log
                }
            },
            _ => EventAction::Log,
        }
    }
}

/// The position of the first bootstrap address that does not end in a peer id, or `None`.
pub open spec fn first_invalid_address(ends_in_peer_id: Seq<bool>) -> Option<int> {
    if exists|i: int| 0 <= i < ends_in_peer_id.len() && !ends_in_peer_id[i] {
        Some(
            choose|i: int|
                0 <= i < ends_in_peer_id.len() && !ends_in_peer_id[i] && forall|j: int|
                    0 <= j < i ==> ends_in_peer_id[j],
        )
    } else {
        None
    }
}

/// Decides how to bootstrap from the given addresses, of which the caller tells whether each
/// ends in a peer id. Each address up to the first one that does not is added to the routing
/// table (under its peer id, without that last part); that address is an error, reported by
/// its position. When all are valid, the routing table is bootstrapped if there is at least
/// one address (`Ok(true)`), and not for a node without bootstrap peers (`Ok(false)`).
pub fn bootstrap_plan(ends_in_peer_id: &Vec<bool>) -> (r: Result<bool, usize>)
    ensures
        first_invalid_address(ends_in_peer_id@) is None ==> r == Ok::<bool, usize>(
            ends_in_peer_id@.len() > 0,
        ),
        first_invalid_address(ends_in_peer_id@) is Some ==> r is Err && r->Err_0
            == first_invalid_address(ends_in_peer_id@)->Some_0,
{
    let mut i: usize = 0;
    while i < ends_in_peer_id.len()
        invariant
            0 <= i <= ends_in_peer_id@.len(),
            forall|j: int| 0 <= j < i ==> ends_in_peer_id@[j],
        decreases ends_in_peer_id@.len() - i,
    {
        if !ends_in_peer_id[i] {
            proof {
                let s = ends_in_peer_id@;
                assert(exists|k: int| 0 <= k < s.len() && !s[k]);
                let c = choose|k: int| 0 <= k < s.len() && !s[k] && forall|j: int| 0 <= j < k ==> s[j];
                assert(!s[i as int] && forall|j: int| 0 <= j < i ==> s[j]);
                if c < i {
                    assert(s[c]);
                } else if c > i {
                    assert(s[i as int]);
                }
            }
            return Err(i);
        }
        i = i + 1;
    }
    Ok(ends_in_peer_id.len() > 0)
}

/// A response to a request sent with a handle goes to that handle, and afterwards nobody
/// awaits that request any more, so a second response to it finds no requester.
pub proof fn lemma_response_reaches_requester_once<S>(awaited: Map<u64, S>, request_id: u64, handle: S)
    ensures
        awaited.insert(request_id, handle).contains_key(request_id),
        awaited.insert(request_id, handle)[request_id] == handle,
        !awaited.insert(request_id, handle).remove(request_id).contains_key(request_id),
{
}

} // verus!
