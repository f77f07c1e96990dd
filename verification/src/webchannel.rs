//! Channels between hosts: messages, their frames, the life of a connection,
//! and the table of peers. All peers of a host share one channel; every message
//! to a peer goes over a stream of its own.
//!
//! When a connection breaks, a `ConnectionBroke` message tells the host.

use crate::assoc::TextMap;
use crate::message::{Msg, RequestId};
use crate::number;
use crate::text;
use crate::types::ServerId;
use vstd::prelude::*;
use vstd::string::*;

pub mod byte_stream;
pub mod io_remote;
pub mod promises;
pub mod sctp_remote;
pub mod test_transport;

verus! {

/// First stream id of the host with the smaller id; it goes on with odd ones.
pub const STREAM_ID_CLIENT_INIT: u16 = 1;

/// First stream id of the host with the larger id; it goes on with even ones.
pub const STREAM_ID_SERVER_INIT: u16 = 2;

/// Why a channel refused.
#[derive(Debug, PartialEq, Eq)]
pub enum WebChannelError {
    /// There is a live connection to the peer.
    ConnectionExists(ServerId),
}

impl Clone for WebChannelError {
    fn clone(&self) -> (r: Self)
        ensures
            r == *self,
    {
        match self {
            WebChannelError::ConnectionExists(id) => WebChannelError::ConnectionExists(id.clone()),
        }
    }
}

impl WebChannelError {
    /// The message of the error.
    pub fn message(&self) -> (r: String)
        ensures
            r@ == match self {
                WebChannelError::ConnectionExists(id) => "Connection to "@ + id@
                    + " already exists"@,
            },
    {
        match self {
            WebChannelError::ConnectionExists(id) => text::concat3(
                "Connection to ",
                id.as_str(),
                " already exists",
            ),
        }
    }
}

/// The first stream id of a host in a connection.
pub open spec fn first_stream(my_id: Seq<char>, peer_id: Seq<char>) -> u16 {
    if text::lex_less(my_id, peer_id) {
        STREAM_ID_CLIENT_INIT
    } else {
        STREAM_ID_SERVER_INIT
    }
}

/// Decides by the order of the ids which host uses odd stream ids: the one with
/// the smaller id. So both sides agree without talking about it.
pub fn stream_id_init(my_id: &str, peer_id: &str) -> (r: u16)
    ensures
        r == first_stream(my_id@, peer_id@),
{
    if text::text_less(my_id, peer_id) {
        STREAM_ID_CLIENT_INIT
    } else {
        STREAM_ID_SERVER_INIT
    }
}

/// Both hosts of a connection come to different answers, so that one is the
/// client and the other the server.
pub proof fn lemma_sides_agree(a: Seq<char>, b: Seq<char>)
    requires
        a != b,
    ensures
        first_stream(a, b) != first_stream(b, a),
        first_stream(a, b) % 2 != first_stream(b, a) % 2,
{
    text::lemma_lex_total(a, b);
}

// *** Transports

/// A project that is shared by configuration.
#[derive(Debug, PartialEq, Eq)]
pub struct ConfigProject {
    /// The name.
    pub name: String,
    /// Where it lies.
    pub path: String,
}

/// How to reach a peer.
#[derive(Debug, PartialEq, Eq)]
pub enum TransportConfig {
    /// Through the signaling server at an address.
    SCTP { signaling_addr: String },
    /// By running a command on a host over ssh. The first part of the command
    /// is the program. The projects are those that the command is to expose.
    SshStdio { ssh_host: String, command: Vec<String>, projects: Vec<ConfigProject> },
}

impl TransportConfig {
    /// The signaling address, where a signaling server is used.
    pub fn signaling_addr(&self) -> (r: Option<&str>)
        ensures
            match self {
                TransportConfig::SCTP { signaling_addr } => r matches Some(s) && s@
                    == signaling_addr@,
                TransportConfig::SshStdio { .. } => r is None,
            },
    {
        match self {
            TransportConfig::SCTP { signaling_addr } => Some(signaling_addr.as_str()),
            TransportConfig::SshStdio { .. } => None,
        }
    }
}

/// The means by which a connection is made.
#[derive(Debug, Clone, Copy, PartialEq, Eq, Structural)]
pub enum ConnectVia {
    /// A sock of the signaling client.
    Sock,
    /// A command over ssh.
    Ssh,
    /// A byte stream that is there already.
    Io,
    /// The table of inboxes within the process.
    InProcess,
}

/// Decides how a connection is made: within the process where hosts share a
/// table of inboxes, else by the transport that was asked for.
pub fn connect_via(shares_table: bool, transport: ConnectVia) -> (r: ConnectVia)
    ensures
        r == if shares_table {
            ConnectVia::InProcess
        } else {
            transport
        },
{
    if shares_table {
        ConnectVia::InProcess
    } else {
        transport
    }
}

/// A message on its way.
#[derive(Debug, PartialEq, Eq)]
pub struct Message {
    /// The host that it comes from.
    pub host: ServerId,
    /// What it says.
    pub body: Msg,
    /// The request that it belongs to.
    pub req_id: Option<RequestId>,
}

impl Clone for Message {
    fn clone(&self) -> (r: Self)
        ensures
            r == *self,
    {
        Message {
            host: self.host.clone(),
            body: self.body.clone(),
            req_id: match &self.req_id {
                Some(id) => Some(id.clone()),
                None => None,
            },
        }
    }
}

/// Whether a message tells that the connection to a peer broke.
pub open spec fn is_broke(m: Message, peer: Seq<char>) -> bool {
    &&& m.host@ == peer
    &&& m.body matches Msg::ConnectionBroke { peer: p } && p@ == peer
    &&& m.req_id is None
}

/// The message that tells that the connection to a peer broke.
pub fn connection_broke(peer: &ServerId) -> (r: Message)
    ensures
        is_broke(r, peer@),
{
    Message {
        host: peer.clone(),
        body: Msg::ConnectionBroke { peer: peer.clone() },
        req_id: None,
    }
}

/// Whether a message tells that something from a peer could not be read.
pub open spec fn is_serialization_err(m: Message, peer: Seq<char>, reason: Seq<char>) -> bool {
    &&& m.host@ == peer
    &&& m.body matches Msg::SerializationErr { reason: r } && r@ == reason
    &&& m.req_id is None
}

/// The message that tells that something from a peer could not be read.
pub fn serialization_err(peer: &ServerId, reason: String) -> (r: Message)
    ensures
        is_serialization_err(r, peer@, reason@),
{
    Message { host: peer.clone(), body: Msg::SerializationErr { reason }, req_id: None }
}

/// The message that tells how far the connection to a peer has come.
pub fn ice_progress(my_id: &ServerId, peer: &ServerId, progress: String) -> (r: Message)
    ensures
        r.host == *my_id,
        r.body == (Msg::IceProgress { peer: *peer, message: progress }),
        r.req_id is None,
{
    Message {
        host: my_id.clone(),
        body: Msg::IceProgress { peer: peer.clone(), message: progress },
        req_id: None,
    }
}

// *** The table of peers

/// A host's side of its connections. Each peer has a handle, by its number.
pub struct WebChannel {
    my_hostid: ServerId,
    remote_map: TextMap<u64>,
}

/// What a host knows of its connections.
#[verifier::ext_equal]
pub struct ChannelView {
    /// The host.
    pub me: Seq<char>,
    /// The handles, by peer.
    pub remotes: Map<Seq<char>, u64>,
}

impl View for WebChannel {
    type V = ChannelView;

    closed spec fn view(&self) -> ChannelView {
        ChannelView { me: self.my_hostid@, remotes: self.remote_map@ }
    }
}

impl ChannelView {
    /// The table after a new connection to a peer was asked for; there is none
    /// where a connection that is still `live` is in the way.
    pub open spec fn reserved(self, peer: Seq<char>, handle: u64, live: bool) -> Option<
        ChannelView,
    > {
        if live && self.remotes.contains_key(peer) {
            None
        } else {
            Some(ChannelView { remotes: self.remotes.insert(peer, handle), ..self })
        }
    }

    /// The table without a peer.
    pub open spec fn disconnected(self, peer: Seq<char>) -> ChannelView {
        ChannelView { remotes: self.remotes.remove(peer), ..self }
    }

    /// Where a message for a recipient goes.
    pub open spec fn target(self, recipient: Seq<char>) -> Target {
        if recipient == self.me {
            Target::Loopback
        } else if self.remotes.contains_key(recipient) {
            Target::Remote(self.remotes[recipient])
        } else {
            Target::Nowhere
        }
    }
}

/// Where a message goes.
pub enum Target {
    /// To the host itself.
    Loopback,
    /// To the peer with a handle.
    Remote(u64),
    /// Nowhere: there is no connection.
    Nowhere,
}

/// Where a message goes.
pub enum SendPlan {
    /// To the host itself.
    Loopback(Message),
    /// To a peer.
    Forward { handle: u64, message: Message },
    /// Nowhere: there is no connection.
    NotConnected,
}

/// Why a message was not sent.
#[derive(Debug, Clone, Copy, PartialEq, Eq, Structural)]
pub enum SendError {
    /// There is no connection.
    NotConnected,
    /// The connection broke. Its handle stays in the table until the next one
    /// replaces it.
    ChannelBroke,
    /// The host does not take messages to itself any more, and has to shut down.
    LoopbackFull,
}

impl SendError {
    /// The message of the error.
    pub fn message(&self) -> (r: String)
        ensures
            r@ == match self {
                SendError::NotConnected => "Not connected"@,
                SendError::ChannelBroke => "Channel broke"@,
                SendError::LoopbackFull =>
                "Loopback channel is full which shouldn\u{2019}t happen; shutting down"@,
            },
    {
        match self {
            SendError::NotConnected => "Not connected".to_owned(),
            SendError::ChannelBroke => "Channel broke".to_owned(),
            SendError::LoopbackFull =>
            "Loopback channel is full which shouldn\u{2019}t happen; shutting down".to_owned(),
        }
    }
}

impl SendPlan {
    /// What came of sending, given whether the message was `taken` where the
    /// plan sent it.
    pub fn outcome(&self, taken: bool) -> (r: Result<(), SendError>)
        ensures
            r == match self {
                SendPlan::NotConnected => Err(SendError::NotConnected),
                SendPlan::Loopback(_) => if taken {
                    Ok(())
                } else {
                    Err(SendError::LoopbackFull)
                },
                SendPlan::Forward { .. } => if taken {
                    Ok(())
                } else {
                    Err(SendError::ChannelBroke)
                },
            },
    {
        match self {
            SendPlan::NotConnected => Err(SendError::NotConnected),
            SendPlan::Loopback(_) => if taken {
                Ok(())
            } else {
                Err(SendError::LoopbackFull)
            },
            SendPlan::Forward { .. } => if taken {
                Ok(())
            } else {
                Err(SendError::ChannelBroke)
            },
        }
    }
}

/// What a host's own message says.
pub open spec fn own_message(me: Seq<char>, req_id: Option<RequestId>, msg: Msg, m: Message) -> bool {
    m.host@ == me && m.body == msg && m.req_id == req_id
}

impl WebChannel {
    /// Whether no peer is in the table twice.
    pub closed spec fn wf(&self) -> bool {
        self.remote_map.wf()
    }

    /// The peers in the order in which they came.
    pub closed spec fn peers(&self) -> Seq<Seq<char>> {
        self.remote_map.keys()
    }

    /// The peers are those that have a handle, each of them once.
    pub proof fn lemma_peers(&self)
        requires
            self.wf(),
        ensures
            self.peers().no_duplicates(),
            forall|k: Seq<char>| self.peers().contains(k) <==> #[trigger] self@.remotes.contains_key(
                k,
            ),
    {
        self.remote_map.lemma_keys();
    }

    /// A host without connections.
    pub fn new(my_hostid: ServerId) -> (r: WebChannel)
        ensures
            r.wf(),
            r@ == (ChannelView { me: my_hostid@, remotes: Map::empty() }),
    {
        WebChannel { my_hostid, remote_map: TextMap::new() }
    }

    /// The id of the host.
    pub fn hostid(&self) -> (r: ServerId)
        ensures
            r@ == self@.me,
    {
        self.my_hostid.clone()
    }

    /// The handle for a peer.
    pub fn handle_of(&self, peer: &str) -> (r: Option<u64>)
        requires
            self.wf(),
        ensures
            match r {
                Some(h) => self@.remotes.contains_key(peer@) && self@.remotes[peer@] == h,
                None => !self@.remotes.contains_key(peer@),
            },
    {
        match self.remote_map.get(peer) {
            Some(h) => Some(*h),
            None => None,
        }
    }

    /// Takes the place of a peer in the table for a new connection. A handle
    /// that is still `live` keeps its place; a dead one is replaced.
    pub fn reserve(&mut self, peer: &ServerId, handle: u64, live: bool) -> (r: Result<
        (),
        WebChannelError,
    >)
        requires
            old(self).wf(),
        ensures
            final(self).wf(),
            match r {
                Ok(_) => old(self)@.reserved(peer@, handle, live) == Some(final(self)@),
                Err(e) => {
                    &&& old(self)@.reserved(peer@, handle, live) is None
                    &&& e == WebChannelError::ConnectionExists(*peer)
                    &&& final(self)@ == old(self)@
                },
            },
    {
        match self.remote_map.get(peer.as_str()) {
            Some(_) => {
                if live {
                    return Err(WebChannelError::ConnectionExists(peer.clone()));
                }
            },
            None => {},
        }
        self.remote_map.insert(peer.clone(), handle);
        Ok(())
    }

    /// Prepares a connection to a peer through the signaling server: takes its
    /// place in the table, and decides which streams this side uses and whether
    /// it acts as the server. Where the connection cannot be made after all the
    /// place is given up with `disconnect`.
    pub fn connect_with_sock(&mut self, peer: &ServerId, handle: u64, live: bool) -> (r: Result<
        (u16, bool),
        WebChannelError,
    >)
        requires
            old(self).wf(),
        ensures
            final(self).wf(),
            match r {
                Ok((init, as_server)) => {
                    &&& old(self)@.reserved(peer@, handle, live) == Some(final(self)@)
                    &&& init == first_stream(old(self)@.me, peer@)
                    &&& as_server == (init == STREAM_ID_SERVER_INIT)
                },
                Err(e) => {
                    &&& old(self)@.reserved(peer@, handle, live) is None
                    &&& e == WebChannelError::ConnectionExists(*peer)
                    &&& final(self)@ == old(self)@
                },
            },
    {
        let init = stream_id_init(self.my_hostid.as_str(), peer.as_str());
        match self.reserve(peer, handle, live) {
            Ok(_) => Ok((init, init == STREAM_ID_SERVER_INIT)),
            Err(e) => Err(e),
        }
    }

    /// Removes a peer from the table and returns its handle, so that its
    /// connection can be shut down.
    pub fn disconnect(&mut self, peer: &str) -> (r: Option<u64>)
        requires
            old(self).wf(),
        ensures
            final(self).wf(),
            final(self)@ == old(self)@.disconnected(peer@),
            match r {
                Some(h) => old(self)@.remotes.contains_key(peer@) && old(self)@.remotes[peer@] == h,
                None => !old(self)@.remotes.contains_key(peer@),
            },
    {
        self.remote_map.remove(peer)
    }

    /// Decides where a message goes. A host's message to itself never leaves
    /// it.
    pub fn send(&self, recipient: &ServerId, req_id: Option<RequestId>, msg: Msg) -> (r: SendPlan)
        requires
            self.wf(),
        ensures
            match r {
                SendPlan::Loopback(m) => {
                    &&& self@.target(recipient@) == Target::Loopback
                    &&& own_message(self@.me, req_id, msg, m)
                },
                SendPlan::Forward { handle, message } => {
                    &&& self@.target(recipient@) == Target::Remote(handle)
                    &&& own_message(self@.me, req_id, msg, message)
                },
                SendPlan::NotConnected => self@.target(recipient@) == Target::Nowhere,
            },
    {
        let message = Message { host: self.my_hostid.clone(), body: msg, req_id };
        if *recipient == self.my_hostid {
            return SendPlan::Loopback(message);
        }
        match self.remote_map.get(recipient.as_str()) {
            Some(h) => SendPlan::Forward { handle: *h, message },
            None => SendPlan::NotConnected,
        }
    }

    /// A message for every peer: for each the peer, its handle and the message.
    pub fn broadcast(&self, req_id: Option<RequestId>, msg: Msg) -> (r: Vec<
        (ServerId, u64, Message),
    >)
        requires
            self.wf(),
        ensures
            r@.len() == self.peers().len(),
            forall|i: int|
                0 <= i < r@.len() ==> {
                    let (peer, handle, m) = #[trigger] r@[i];
                    &&& peer@ == self.peers()[i]
                    &&& self@.remotes.contains_key(peer@)
                    &&& handle == self@.remotes[peer@]
                    &&& own_message(self@.me, req_id, msg, m)
                },
    {
        let message = Message { host: self.my_hostid.clone(), body: msg, req_id };
        let mut r: Vec<(ServerId, u64, Message)> = Vec::new();
        let n: usize = self.remote_map.len();
        for i in 0..n
            invariant
                self.wf(),
                n == self.peers().len(),
                r@.len() == i,
                own_message(self@.me, req_id, msg, message),
                forall|j: int|
                    0 <= j < i ==> {
                        let (peer, handle, m) = #[trigger] r@[j];
                        &&& peer@ == self.peers()[j]
                        &&& self@.remotes.contains_key(peer@)
                        &&& handle == self@.remotes[peer@]
                        &&& own_message(self@.me, req_id, msg, m)
                    },
        {
            let (peer, handle) = self.remote_map.entry(i);
            r.push((peer.to_owned(), *handle, message.clone()));
        }
        r
    }

    /// Empties the table. Returns the handles, so that all connections can be
    /// shut down.
    pub fn shutdown(&mut self) -> (r: Vec<u64>)
        requires
            old(self).wf(),
        ensures
            final(self).wf(),
            final(self)@ == (ChannelView { remotes: Map::empty(), ..old(self)@ }),
            r@ == Seq::new(
                old(self).peers().len(),
                |i: int| old(self)@.remotes[old(self).peers()[i]],
            ),
    {
        let mut r: Vec<u64> = Vec::new();
        let n: usize = self.remote_map.len();
        for i in 0..n
            invariant
                self.wf(),
                *self == *old(self),
                n == self.peers().len(),
                r@.len() == i,
                forall|j: int| 0 <= j < i ==> r@[j] == self@.remotes[self.peers()[j]],
        {
            let (peer, handle) = self.remote_map.entry(i);
            r.push(*handle);
        }
        assert(r@ =~= Seq::new(
            old(self).peers().len(),
            |i: int| old(self)@.remotes[old(self).peers()[i]],
        ));
        self.remote_map = TextMap::new();
        r
    }
}

/// A live connection keeps its place: a second one to the same peer is refused
/// as long as it is there. A dead one, and one that was given up, makes room.
pub proof fn lemma_live_connection_wins(c: ChannelView, peer: Seq<char>, first: u64, second: u64)
    requires
        !c.remotes.contains_key(peer),
    ensures
        c.reserved(peer, first, true) matches Some(once) && {
            &&& once.reserved(peer, second, true) is None
            &&& once.reserved(peer, second, false) == c.reserved(peer, second, true)
            &&& once.disconnected(peer) == c
        },
{
    let once = c.reserved(peer, first, true)->0;
    assert(once.reserved(peer, second, false)->0 =~= c.reserved(peer, second, true)->0);
    assert(once.disconnected(peer) =~= c);
}

/// A message to another host goes to the connection made last, and nowhere
/// before it is made and after it is given up. Connections to other peers
/// do not matter.
pub proof fn lemma_send_needs_connection(
    c: ChannelView,
    peer: Seq<char>,
    handle: u64,
    live: bool,
    other: Seq<char>,
)
    requires
        peer != c.me,
        other != peer,
        c.reserved(peer, handle, live) is Some,
    ensures
        ({
            let connected = c.reserved(peer, handle, live)->0;
            &&& connected.target(peer) == Target::Remote(handle)
            &&& connected.disconnected(peer).target(peer) == Target::Nowhere
            &&& connected.target(other) == c.target(other)
            &&& c.disconnected(peer).target(other) == c.target(other)
        }),
{
}

/// The messages that tell of the peers which a broadcast did not reach, and the
/// error if there are any.
pub fn broadcast_failures(failed: &[ServerId]) -> (r: (Vec<Message>, Result<(), String>))
    ensures
        r.0@.len() == failed@.len(),
        forall|i: int| 0 <= i < failed@.len() ==> is_broke(#[trigger] r.0@[i], failed@[i]@),
        match r.1 {
            Ok(_) => failed@.len() == 0,
            Err(e) => failed@.len() > 0 && e@ == "broadcast failed for "@ + number::decimal(
                failed@.len(),
            ) + " peer(s)"@,
        },
{
    let mut notices: Vec<Message> = Vec::new();
    let n: usize = failed.len();
    for i in 0..n
        invariant
            n == failed@.len(),
            notices@.len() == i,
            forall|j: int| 0 <= j < i ==> is_broke(#[trigger] notices@[j], failed@[j]@),
    {
        notices.push(connection_broke(&failed[i]));
    }
    if n > 0 {
        let e = text::concat3(
            "broadcast failed for ",
            number::decimal_text(n as u64).as_str(),
            " peer(s)",
        );
        (notices, Err(e))
    } else {
        (notices, Ok(()))
    }
}

} // verus!
