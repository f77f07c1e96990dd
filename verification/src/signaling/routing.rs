//! Signaling within one process: endpoints that share a table reach each other
//! without a server, under the same rules of trust.

use crate::assoc::TextMap;
use crate::signaling::client::{Payload, PayloadView, Sock};
use crate::signaling::server;
use crate::signaling::server::EndpointView;
use crate::signaling::{EndpointId, MsgView, SignalingMessage, SignalingMsg};
use crate::split;
use crate::text;
use vstd::hash_map::StringHashMap;
use vstd::hash_set::StringHashSet;
use vstd::prelude::*;
use vstd::string::*;

verus! {

/// An endpoint in the table.
struct TestEndpoint {
    channel: u64,
    trusted: StringHashSet,
    socks: StringHashMap<u64>,
}

/// What the table knows of an endpoint.
#[verifier::ext_equal]
pub struct TestEndpointView {
    /// Number of the channel that leads to whoever runs the endpoint.
    pub channel: u64,
    /// The endpoints that may send to this one.
    pub trusted: Set<Seq<char>>,
    /// The channels of its socks, by peer.
    pub socks: Map<Seq<char>, u64>,
}

/// An address and an id.
pub type Key = (Seq<char>, Seq<char>);

impl TestEndpoint {
    spec fn known(self) -> TestEndpointView {
        TestEndpointView { channel: self.channel, trusted: self.trusted@, socks: self.socks@ }
    }
}

/// The table of endpoints, by address and id.
pub struct TestFactoryState {
    addrs: TextMap<TextMap<TestEndpoint>>,
}

impl View for TestFactoryState {
    type V = Map<Key, TestEndpointView>;

    closed spec fn view(&self) -> Map<Key, TestEndpointView> {
        Map::new(
            |k: Key| self.addrs@.contains_key(k.0) && self.addrs@[k.0]@.contains_key(k.1),
            |k: Key| self.addrs@[k.0]@[k.1].known(),
        )
    }
}

/// Where a message goes.
#[derive(Debug)]
pub enum Delivery {
    /// Nowhere.
    Nothing,
    /// To whoever runs an endpoint.
    Report { channel: u64, msg: SignalingMessage },
    /// To the channels of a sock.
    Deliver { channel: u64, payload: Payload },
}

/// Where a message goes.
pub enum DeliveryView {
    /// Nowhere.
    Nothing,
    /// To whoever runs an endpoint, as a message from a server address.
    Report { channel: u64, addr: Seq<char>, msg: MsgView },
    /// To the channels of a sock.
    Deliver { channel: u64, payload: PayloadView },
}

impl Delivery {
    /// Whether the delivery is the one described.
    pub open spec fn is_like(&self, v: DeliveryView) -> bool {
        match (self, v) {
            (Delivery::Nothing, DeliveryView::Nothing) => true,
            (
                Delivery::Report { channel, msg },
                DeliveryView::Report { channel: c, addr, msg: m },
            ) => {
                &&& *channel == c
                &&& msg.signaling_addr@ == addr
                &&& msg.msg matches Ok(n) && n@ == m
            },
            (
                Delivery::Deliver { channel, payload },
                DeliveryView::Deliver { channel: c, payload: p },
            ) => *channel == c && payload@ == p,
            _ => false,
        }
    }
}

/// Why a message goes nowhere.
#[derive(Debug)]
pub enum RouteError {
    /// It is no message from endpoint to endpoint.
    Unexpected(SignalingMsg),
    /// The receiver is not in the table.
    NotBound { receiver: EndpointId, addr: String },
    /// The receiver has no sock for the sender.
    NoSock { sender: EndpointId, receiver: EndpointId },
}

/// What an error says.
pub enum RouteErrorView {
    /// It is no message from endpoint to endpoint.
    Unexpected(MsgView),
    /// The receiver is not in the table.
    NotBound { receiver: Seq<char>, addr: Seq<char> },
    /// The receiver has no sock for the sender.
    NoSock { sender: Seq<char>, receiver: Seq<char> },
}

impl View for RouteError {
    type V = RouteErrorView;

    open spec fn view(&self) -> RouteErrorView {
        match self {
            RouteError::Unexpected(m) => RouteErrorView::Unexpected(m@),
            RouteError::NotBound { receiver, addr } => RouteErrorView::NotBound {
                receiver: receiver@,
                addr: addr@,
            },
            RouteError::NoSock { sender, receiver } => RouteErrorView::NoSock {
                sender: sender@,
                receiver: receiver@,
            },
        }
    }
}

impl RouteError {
    /// The message of the error.
    pub fn message(&self) -> (r: String)
        ensures
            r@ == match self@ {
                RouteErrorView::Unexpected(m) => "route: unexpected variant "@ + m.text(),
                RouteErrorView::NotBound { receiver, addr } => "Receiver "@ + receiver
                    + " not bound to signaling addr "@ + addr,
                RouteErrorView::NoSock { sender, receiver } => "Sock for peer "@ + sender
                    + " not found in receiver "@ + receiver,
            },
    {
        match self {
            RouteError::Unexpected(m) => text::concat(
                "route: unexpected variant ",
                m.to_text().as_str(),
            ),
            RouteError::NotBound { receiver, addr } => {
                let mut r = text::concat3(
                    "Receiver ",
                    receiver.as_str(),
                    " not bound to signaling addr ",
                );
                r.append(addr.as_str());
                r
            },
            RouteError::NoSock { sender, receiver } => {
                let mut r = text::concat3(
                    "Sock for peer ",
                    sender.as_str(),
                    " not found in receiver ",
                );
                r.append(receiver.as_str());
                r
            },
        }
    }
}

/// Where a message to a trusting receiver goes: a request to whoever runs it,
/// everything else to its sock for the sender.
pub open spec fn dispatched(
    receiver_state: TestEndpointView,
    addr: Seq<char>,
    sender: Seq<char>,
    receiver: Seq<char>,
    msg: MsgView,
) -> Result<DeliveryView, RouteErrorView> {
    let payload = match msg {
        MsgView::SDP { sdp, .. } => Some(PayloadView::SDP(sdp)),
        MsgView::Candidate { candidate, .. } => Some(PayloadView::Candidate(candidate)),
        _ => None,
    };
    match payload {
        None => Ok(DeliveryView::Report { channel: receiver_state.channel, addr, msg }),
        Some(payload) => if receiver_state.socks.contains_key(sender) {
            Ok(DeliveryView::Deliver { channel: receiver_state.socks[sender], payload })
        } else {
            Err(RouteErrorView::NoSock { sender, receiver })
        },
    }
}

/// What a sender is told whom the receiver does not trust.
pub open spec fn rejection(sender: Seq<char>, receiver: Seq<char>) -> MsgView {
    MsgView::Rejected { id: sender, reason: receiver + " does not trust sender"@ }
}

/// Where a message goes.
pub open spec fn routed(
    endpoints: Map<Key, TestEndpointView>,
    addr: Seq<char>,
    msg: MsgView,
) -> Result<DeliveryView, RouteErrorView> {
    match msg.route() {
        None => Err(RouteErrorView::Unexpected(msg)),
        Some((sender, receiver)) => if !endpoints.contains_key((addr, receiver)) {
            Err(RouteErrorView::NotBound { receiver, addr })
        } else if !endpoints[(addr, receiver)].trusted.contains(sender) {
            if endpoints.contains_key((addr, sender)) {
                Ok(
                    DeliveryView::Report {
                        channel: endpoints[(addr, sender)].channel,
                        addr,
                        msg: rejection(sender, receiver),
                    },
                )
            } else {
                Ok(DeliveryView::Nothing)
            }
        } else {
            dispatched(endpoints[(addr, receiver)], addr, sender, receiver, msg)
        },
    }
}

/// The table with one more sock for a peer at an endpoint.
pub open spec fn with_sock(
    endpoints: Map<Key, TestEndpointView>,
    key: Key,
    peer: Seq<char>,
    channel: u64,
) -> Map<Key, TestEndpointView> {
    let e = endpoints[key];
    endpoints.insert(key, TestEndpointView { socks: e.socks.insert(peer, channel), ..e })
}

impl TestFactoryState {
    /// Whether no endpoint is in the table twice.
    pub closed spec fn wf(&self) -> bool {
        &&& self.addrs.wf()
        &&& forall|a: Seq<char>| #[trigger] self.addrs@.contains_key(a) ==> self.addrs@[a].wf()
    }

    /// An empty table.
    pub fn new() -> (r: TestFactoryState)
        ensures
            r.wf(),
            r@ == Map::<Key, TestEndpointView>::empty(),
    {
        let r = TestFactoryState { addrs: TextMap::new() };
        assert(r@ =~= Map::<Key, TestEndpointView>::empty());
        r
    }

    fn find(&self, addr: &str, id: &str) -> (r: Option<&TestEndpoint>)
        requires
            self.wf(),
        ensures
            match r {
                Some(e) => self@.contains_key((addr@, id@)) && self@[(addr@, id@)] == e.known(),
                None => !self@.contains_key((addr@, id@)),
            },
    {
        match self.addrs.get(addr) {
            None => None,
            Some(ids) => ids.get(id),
        }
    }

    fn put(&mut self, addr: &str, id: &str, entry: TestEndpoint)
        requires
            old(self).wf(),
        ensures
            final(self).wf(),
            final(self)@ == old(self)@.insert((addr@, id@), entry.known()),
    {
        let mut ids = match self.addrs.remove(addr) {
            Some(ids) => ids,
            None => TextMap::new(),
        };
        ids.insert(id.to_owned(), entry);
        self.addrs.insert(addr.to_owned(), ids);
        assert(self@ =~= old(self)@.insert((addr@, id@), entry.known()));
    }

    fn take(&mut self, addr: &str, id: &str) -> (r: Option<TestEndpoint>)
        requires
            old(self).wf(),
        ensures
            final(self).wf(),
            final(self)@ == old(self)@.remove((addr@, id@)),
            match r {
                Some(e) => old(self)@.contains_key((addr@, id@)) && old(self)@[(addr@, id@)]
                    == e.known(),
                None => !old(self)@.contains_key((addr@, id@)),
            },
    {
        match self.addrs.remove(addr) {
            None => {
                assert(self@ =~= old(self)@.remove((addr@, id@)));
                None
            },
            Some(ids) => {
                let mut ids = ids;
                let entry = ids.remove(id);
                self.addrs.insert(addr.to_owned(), ids);
                assert(self@ =~= old(self)@.remove((addr@, id@)));
                entry
            },
        }
    }

    /// Registers an endpoint with its trust list and without socks; an earlier
    /// entry is replaced.
    pub fn bind(&mut self, addr: &str, id: &str, channel: u64, trusted: &[EndpointId])
        requires
            old(self).wf(),
        ensures
            final(self).wf(),
            final(self)@ == old(self)@.insert(
                (addr@, id@),
                TestEndpointView {
                    channel,
                    trusted: server::id_set(split::texts(trusted@)),
                    socks: Map::empty(),
                },
            ),
    {
        let entry = TestEndpoint {
            channel,
            trusted: server::collect(trusted),
            socks: StringHashMap::new(),
        };
        self.put(addr, id, entry);
    }

    /// Replaces the trust list of an endpoint, if it is in the table.
    pub fn update_trust(&mut self, addr: &str, id: &str, trusted: &[EndpointId])
        requires
            old(self).wf(),
        ensures
            final(self).wf(),
            final(self)@ == if old(self)@.contains_key((addr@, id@)) {
                old(self)@.insert(
                    (addr@, id@),
                    TestEndpointView {
                        trusted: server::id_set(split::texts(trusted@)),
                        ..old(self)@[(addr@, id@)]
                    },
                )
            } else {
                old(self)@
            },
    {
        match self.take(addr, id) {
            None => {
                assert(self@ =~= old(self)@);
            },
            Some(entry) => {
                let entry = TestEndpoint { trusted: server::collect(trusted), ..entry };
                self.put(addr, id, entry);
                assert(self@ =~= old(self)@.insert((addr@, id@), entry.known()));
            },
        }
    }

    /// Removes an endpoint from the table.
    pub fn remove(&mut self, addr: &str, id: &str)
        requires
            old(self).wf(),
        ensures
            final(self).wf(),
            final(self)@ == old(self)@.remove((addr@, id@)),
    {
        let _entry = self.take(addr, id);
    }

    /// Adds a sock for a peer to an endpoint. Returns whether the endpoint is in
    /// the table.
    pub fn add_sock(&mut self, addr: &str, id: &str, peer: EndpointId, channel: u64) -> (r: bool)
        requires
            old(self).wf(),
        ensures
            final(self).wf(),
            r == old(self)@.contains_key((addr@, id@)),
            final(self)@ == if r {
                with_sock(old(self)@, (addr@, id@), peer@, channel)
            } else {
                old(self)@
            },
    {
        match self.take(addr, id) {
            None => {
                assert(self@ =~= old(self)@);
                false
            },
            Some(entry) => {
                let mut entry = entry;
                entry.socks.insert(peer, channel);
                self.put(addr, id, entry);
                assert(self@ =~= old(self)@.insert((addr@, id@), entry.known()));
                true
            },
        }
    }

    /// Decides where a message from endpoint to endpoint goes. The receiver has
    /// to be in the table and to trust the sender; a sender that is not trusted
    /// is told so.
    pub fn route(&self, signaling_addr: &str, msg: SignalingMsg) -> (r: Result<
        Delivery,
        RouteError,
    >)
        requires
            self.wf(),
        ensures
            match r {
                Ok(d) => routed(self@, signaling_addr@, msg@) is Ok && d.is_like(
                    routed(self@, signaling_addr@, msg@)->Ok_0,
                ),
                Err(e) => routed(self@, signaling_addr@, msg@) == Err::<
                    DeliveryView,
                    RouteErrorView,
                >(e@),
            },
    {
        let (sender, receiver) = match msg.route() {
            None => {
                return Err(RouteError::Unexpected(msg));
            },
            Some(pair) => pair,
        };
        let endpoint = match self.find(signaling_addr, receiver.as_str()) {
            None => {
                return Err(RouteError::NotBound { receiver, addr: signaling_addr.to_owned() });
            },
            Some(e) => e,
        };
        if !endpoint.trusted.contains(sender.as_str()) {
            return match self.find(signaling_addr, sender.as_str()) {
                None => Ok(Delivery::Nothing),
                Some(own) => {
                    let reason = text::concat(receiver.as_str(), " does not trust sender");
                    Ok(
                        Delivery::Report {
                            channel: own.channel,
                            msg: SignalingMessage {
                                signaling_addr: signaling_addr.to_owned(),
                                msg: Ok(SignalingMsg::Rejected { id: sender, reason }),
                            },
                        },
                    )
                },
            };
        }
        let sock = match endpoint.socks.get(sender.as_str()) {
            Some(channel) => Some(*channel),
            None => None,
        };
        match msg {
            SignalingMsg::SDP { sdp, .. } => match sock {
                Some(channel) => Ok(Delivery::Deliver { channel, payload: Payload::SDP(sdp) }),
                None => Err(RouteError::NoSock { sender, receiver }),
            },
            SignalingMsg::Candidate { candidate, .. } => match sock {
                Some(channel) => Ok(
                    Delivery::Deliver { channel, payload: Payload::Candidate(candidate) },
                ),
                None => Err(RouteError::NoSock { sender, receiver }),
            },
            msg => Ok(
                Delivery::Report {
                    channel: endpoint.channel,
                    msg: SignalingMessage {
                        signaling_addr: signaling_addr.to_owned(),
                        msg: Ok(msg),
                    },
                },
            ),
        }
    }

    /// Handles a message that the endpoint with the given channel sends: it is
    /// routed, or replaces a trust list, which is confirmed; anything else is
    /// ignored.
    pub fn handle_send(&mut self, addr: &str, channel: u64, msg: SignalingMsg) -> (r: Result<
        Delivery,
        RouteError,
    >)
        requires
            old(self).wf(),
        ensures
            final(self).wf(),
            match msg@ {
                MsgView::Trust { sender, trusted } => {
                    &&& r matches Ok(d) && d.is_like(
                        DeliveryView::Report {
                            channel,
                            addr: addr@,
                            msg: MsgView::Trusted { id: sender, trusted },
                        },
                    )
                    &&& final(self)@ == if old(self)@.contains_key((addr@, sender)) {
                        old(self)@.insert(
                            (addr@, sender),
                            TestEndpointView {
                                trusted: server::id_set(trusted),
                                ..old(self)@[(addr@, sender)]
                            },
                        )
                    } else {
                        old(self)@
                    }
                },
                _ => {
                    &&& final(self)@ == old(self)@
                    &&& if msg@.route() is Some {
                        match r {
                            Ok(d) => routed(old(self)@, addr@, msg@) is Ok && d.is_like(
                                routed(old(self)@, addr@, msg@)->Ok_0,
                            ),
                            Err(e) => routed(old(self)@, addr@, msg@) == Err::<
                                DeliveryView,
                                RouteErrorView,
                            >(e@),
                        }
                    } else {
                        r matches Ok(d) && d is Nothing
                    }
                },
            },
    {
        match msg {
            SignalingMsg::Trust { sender, trusted } => {
                self.update_trust(addr, sender.as_str(), &trusted);
                Ok(
                    Delivery::Report {
                        channel,
                        msg: SignalingMessage {
                            signaling_addr: addr.to_owned(),
                            msg: Ok(SignalingMsg::Trusted { id: sender, trusted }),
                        },
                    },
                )
            },
            msg => match msg.route() {
                Some(_) => self.route(addr, msg),
                None => Ok(Delivery::Nothing),
            },
        }
    }
}

impl TestFactoryState {
    /// Decides where a message that comes out of a sock goes. Only session
    /// descriptions and candidates are routed, and failures are dropped.
    pub fn route_from_sock(&self, signaling_addr: &str, msg: SignalingMsg) -> (r: Delivery)
        requires
            self.wf(),
        ensures
            if msg@ is SDP || msg@ is Candidate {
                match routed(self@, signaling_addr@, msg@) {
                    Ok(d) => r.is_like(d),
                    Err(_) => r is Nothing,
                }
            } else {
                r is Nothing
            },
    {
        let routable = match &msg {
            SignalingMsg::SDP { .. } => true,
            SignalingMsg::Candidate { .. } => true,
            _ => false,
        };
        if !routable {
            return Delivery::Nothing;
        }
        match self.route(signaling_addr, msg) {
            Ok(d) => d,
            Err(_) => Delivery::Nothing,
        }
    }
}

/// Within a process the same messages are rejected as by a server that knows the
/// same endpoints: those whose receiver does not trust the sender.
pub proof fn lemma_mirrors_server(
    endpoints: Map<Key, TestEndpointView>,
    known: Map<Seq<char>, EndpointView>,
    addr: Seq<char>,
    msg: MsgView,
)
    requires
        forall|id: Seq<char>| #[trigger]
            known.contains_key(id) == endpoints.contains_key((addr, id)),
        forall|id: Seq<char>| #[trigger]
            known.contains_key(id) ==> known[id].trusted == endpoints[(addr, id)].trusted,
        msg.route() matches Some(route) && known.contains_key(route.0),
    ensures
        ({
            let (sender, receiver) = msg.route()->0;
            let r = routed(endpoints, addr, msg);
            let s = server::response_to(known, Some(sender), msg);
            &&& (s matches server::ResponseView::Reply(MsgView::Rejected { id, .. }) && id == sender)
                <==> (r matches Ok(DeliveryView::Report { msg: m, .. }) && m == rejection(
                sender,
                receiver,
            ))
            &&& (s matches server::ResponseView::Reply(MsgView::IdNotFound { .. })) <==> (
            r matches Err(RouteErrorView::NotBound { .. }))
        }),
{
    let (sender, receiver) = msg.route()->0;
    assert(known.contains_key(receiver) == endpoints.contains_key((addr, receiver)));
    assert(known.contains_key(sender) == endpoints.contains_key((addr, sender)));
}

// *** One side

/// What one side of in-process signaling has bound.
pub struct TestSignalingChannel {
    bound: Vec<(String, EndpointId)>,
}

/// The contents of pairs of texts.
pub open spec fn pair_views(v: Seq<(String, EndpointId)>) -> Seq<Key> {
    Seq::new(v.len(), |i: int| (v[i].0@, v[i].1@))
}

/// The first id that is bound to an address.
pub open spec fn first_bound(bound: Seq<Key>, addr: Seq<char>) -> Option<Seq<char>>
    decreases bound.len(),
{
    if bound.len() == 0 {
        None
    } else {
        match first_bound(bound.drop_last(), addr) {
            Some(id) => Some(id),
            None => if bound.last().0 == addr {
                Some(bound.last().1)
            } else {
                None
            },
        }
    }
}

impl View for TestSignalingChannel {
    type V = Seq<Key>;

    closed spec fn view(&self) -> Seq<Key> {
        pair_views(self.bound@)
    }
}

impl TestSignalingChannel {
    /// Nothing is bound.
    pub fn new() -> (r: TestSignalingChannel)
        ensures
            r@ == Seq::<Key>::empty(),
    {
        let r = TestSignalingChannel { bound: Vec::new() };
        assert(r@ =~= Seq::<Key>::empty());
        r
    }

    /// Notes that an id is bound to an address, once.
    pub fn note_bound(&mut self, addr: String, id: EndpointId)
        ensures
            final(self)@ == if old(self)@.contains((addr@, id@)) {
                old(self)@
            } else {
                old(self)@.push((addr@, id@))
            },
    {
        let ghost all = self@;
        for i in 0..self.bound.len()
            invariant
                self@ == all,
                all == old(self)@,
                all == pair_views(self.bound@),
                forall|j: int| 0 <= j < i ==> #[trigger] all[j] != (addr@, id@),
        {
            if self.bound[i].0 == addr && self.bound[i].1 == id {
                assert(all[i as int] == (addr@, id@));
                return;
            }
        }
        let ghost k = (addr@, id@);
        self.bound.push((addr, id));
        assert(self@ =~= all.push(k));
    }

    /// The id that is bound to an address.
    pub fn my_id(&self, addr: &str) -> (r: Option<EndpointId>)
        ensures
            match r {
                Some(id) => first_bound(self@, addr@) == Some(id@),
                None => first_bound(self@, addr@) is None,
            },
    {
        let ghost all = self@;
        assert(all.take(0) =~= Seq::<Key>::empty());
        for i in 0..self.bound.len()
            invariant
                all == self@,
                all == pair_views(self.bound@),
                first_bound(all.take(i as int), addr@) is None,
        {
            assert(all.take(i + 1).drop_last() =~= all.take(i as int));
            if text::same(self.bound[i].0.as_str(), addr) {
                proof {
                    lemma_first_bound_stays(all, addr@, i + 1);
                }
                return Some(self.bound[i].1.clone());
            }
        }
        assert(all.take(all.len() as int) =~= all);
        None
    }

    /// Makes a sock for a peer at an address, whose channels have the given
    /// number. The address has to be bound here and in the table.
    pub fn create_sock(
        &self,
        state: &mut TestFactoryState,
        signaling_addr: &str,
        peer: EndpointId,
        channel: u64,
    ) -> (r: Result<Sock, AddrNotBound>)
        requires
            old(state).wf(),
        ensures
            final(state).wf(),
            match r {
                Ok(sock) => {
                    &&& first_bound(self@, signaling_addr@) == Some(sock.me())
                    &&& sock.peer() == peer@
                    &&& old(state)@.contains_key((signaling_addr@, sock.me()))
                    &&& final(state)@ == with_sock(
                        old(state)@,
                        (signaling_addr@, sock.me()),
                        peer@,
                        channel,
                    )
                },
                Err(e) => {
                    &&& e.0@ == signaling_addr@
                    &&& match first_bound(self@, signaling_addr@) {
                        Some(id) => !old(state)@.contains_key((signaling_addr@, id)),
                        None => true,
                    }
                    &&& final(state)@ == old(state)@
                },
            },
    {
        match self.my_id(signaling_addr) {
            None => Err(AddrNotBound(signaling_addr.to_owned())),
            Some(my_id) => {
                if state.add_sock(signaling_addr, my_id.as_str(), peer.clone(), channel) {
                    Ok(Sock::new(my_id, peer))
                } else {
                    Err(AddrNotBound(signaling_addr.to_owned()))
                }
            },
        }
    }
}

/// Nothing is bound to an address.
#[derive(Debug, PartialEq, Eq)]
pub struct AddrNotBound(pub String);

impl AddrNotBound {
    /// The message of the error.
    pub fn message(&self) -> (r: String)
        ensures
            r@ == "Not bound to signaling addr "@ + self.0@,
    {
        text::concat("Not bound to signaling addr ", self.0.as_str())
    }
}

/// A sock that was made last gets what the peer sends, as long as it is trusted.
pub proof fn lemma_new_sock_is_reached(
    endpoints: Map<Key, TestEndpointView>,
    addr: Seq<char>,
    id: Seq<char>,
    peer: Seq<char>,
    channel: u64,
    content: Seq<char>,
)
    requires
        endpoints.contains_key((addr, id)),
        endpoints[(addr, id)].trusted.contains(peer),
    ensures
        ({
            let after = with_sock(endpoints, (addr, id), peer, channel);
            let sdp = MsgView::SDP { sender: peer, receiver: id, sdp: content };
            let candidate = MsgView::Candidate { sender: peer, receiver: id, candidate: content };
            &&& routed(after, addr, sdp) == Ok::<DeliveryView, RouteErrorView>(
                DeliveryView::Deliver { channel, payload: PayloadView::SDP(content) },
            )
            &&& routed(after, addr, candidate) == Ok::<DeliveryView, RouteErrorView>(
                DeliveryView::Deliver { channel, payload: PayloadView::Candidate(content) },
            )
        }),
{
}

proof fn lemma_first_bound_stays(bound: Seq<Key>, addr: Seq<char>, i: int)
    requires
        0 <= i <= bound.len(),
        first_bound(bound.take(i), addr) is Some,
    ensures
        first_bound(bound, addr) == first_bound(bound.take(i), addr),
    decreases bound.len() - i,
{
    if i == bound.len() {
        assert(bound.take(i) =~= bound);
    } else {
        assert(bound.take(i + 1).drop_last() =~= bound.take(i));
        lemma_first_bound_stays(bound, addr, i + 1);
    }
}

} // verus!
