//! Transport within one process: hosts share a table of inboxes.

use crate::assoc::TextMap;
use crate::text;
use crate::types::ServerId;
use crate::webchannel::Message;
use vstd::prelude::*;
use vstd::string::*;

verus! {

/// Simulated delay of the network.
#[derive(Debug, Clone, Copy, PartialEq, Eq, Structural)]
pub enum TravelTime {
    /// Random delay between two numbers of milliseconds.
    Random(u64, u64),
    /// Fixed delay in milliseconds.
    Ms(u64),
    /// No delay.
    Instant,
}

/// `rand::random` gives some number; nothing is said of which.
#[verifier::external_body]
fn random_number() -> (r: u64) {
    rand::random::<u64>()
}

impl TravelTime {
    /// Whether the bounds of a random delay are in order.
    pub open spec fn wf(self) -> bool {
        match self {
            TravelTime::Random(min, max) => min <= max && max - min < u64::MAX,
            _ => true,
        }
    }

    /// The delay that a number drawn at random gives.
    pub open spec fn delay_for(self, drawn: u64) -> int {
        match self {
            TravelTime::Instant => 0,
            TravelTime::Ms(ms) => ms as int,
            TravelTime::Random(min, max) => drawn as int % (max - min + 1) + min,
        }
    }

    /// The delay in milliseconds that a number drawn at random gives.
    pub fn delay_with(self, drawn: u64) -> (r: u64)
        requires
            self.wf(),
        ensures
            r == self.delay_for(drawn),
            match self {
                TravelTime::Random(min, max) => min <= r <= max,
                _ => true,
            },
    {
        match self {
            TravelTime::Instant => 0,
            TravelTime::Ms(ms) => ms,
            TravelTime::Random(min, max) => {
                let span: u64 = max - min + 1;
                drawn % span + min
            },
        }
    }

    /// A delay in milliseconds. A random one lies within its bounds.
    pub fn delay_ms(self) -> (r: u64)
        requires
            self.wf(),
        ensures
            match self {
                TravelTime::Instant => r == 0,
                TravelTime::Ms(ms) => r == ms,
                TravelTime::Random(min, max) => min <= r <= max,
            },
    {
        match self {
            TravelTime::Random(_, _) => self.delay_with(random_number()),
            _ => self.delay_with(0),
        }
    }
}

/// What the table knows of a host.
struct HostState {
    inbox: Vec<Message>,
    channel: u64,
}

/// What the table knows of a host.
#[verifier::ext_equal]
pub struct HostView {
    /// The messages that wait, oldest first.
    pub inbox: Seq<Message>,
    /// Number of the channel that leads to the host.
    pub channel: u64,
}

impl View for HostState {
    type V = HostView;

    closed spec fn view(&self) -> HostView {
        HostView { inbox: self.inbox@, channel: self.channel }
    }
}

/// The table of inboxes, shared by the hosts of one network.
pub struct FactoryState {
    hosts: TextMap<HostState>,
}

impl View for FactoryState {
    type V = Map<Seq<char>, HostView>;

    closed spec fn view(&self) -> Map<Seq<char>, HostView> {
        self.hosts@.map_values(|h: HostState| h@)
    }
}

/// The table once a message lies in the inbox of a host.
pub open spec fn with_message(t: Map<Seq<char>, HostView>, host: Seq<char>, msg: Message) -> Map<
    Seq<char>,
    HostView,
> {
    t.insert(host, HostView { inbox: t[host].inbox.push(msg), ..t[host] })
}

/// The table once the inbox of a host was emptied.
pub open spec fn emptied(t: Map<Seq<char>, HostView>, host: Seq<char>) -> Map<
    Seq<char>,
    HostView,
> {
    t.insert(host, HostView { inbox: Seq::empty(), ..t[host] })
}

/// Messages wait in the order in which they came, no message gets into the
/// inbox of another host, and what was taken out is gone.
pub proof fn lemma_inbox_in_order(
    t: Map<Seq<char>, HostView>,
    host: Seq<char>,
    a: Message,
    b: Message,
    other: Seq<char>,
)
    requires
        t.contains_key(host),
        t.contains_key(other),
        host != other,
    ensures
        ({
            let after = with_message(with_message(t, host, a), host, b);
            &&& after[host].inbox == t[host].inbox + seq![a, b]
            &&& after[other] == t[other]
            &&& emptied(after, host)[host].inbox.len() == 0
        }),
{
    let after = with_message(with_message(t, host, a), host, b);
    assert(after[host].inbox =~= t[host].inbox + seq![a, b]);
}

/// A host is not in the table.
#[derive(Debug, PartialEq, Eq)]
pub struct NotRegistered(pub ServerId);

impl NotRegistered {
    /// The message of the error.
    pub fn message(&self) -> (r: String)
        ensures
            r@ == "Host "@ + self.0@ + " not registered"@,
    {
        text::concat3("Host ", self.0.as_str(), " not registered")
    }
}

impl FactoryState {
    /// Whether no host is in the table twice.
    pub closed spec fn wf(&self) -> bool {
        self.hosts.wf()
    }

    /// An empty table.
    pub fn new() -> (r: Self)
        ensures
            r.wf(),
            r@ == Map::<Seq<char>, HostView>::empty(),
    {
        let r = FactoryState { hosts: TextMap::new() };
        assert(r@ =~= Map::<Seq<char>, HostView>::empty());
        r
    }

    /// Registers a host with an empty inbox.
    pub fn register(&mut self, hostid: ServerId, channel: u64)
        requires
            old(self).wf(),
        ensures
            final(self).wf(),
            final(self)@ == old(self)@.insert(hostid@, HostView { inbox: Seq::empty(), channel }),
    {
        let host = HostState { inbox: Vec::new(), channel };
        let ghost k = hostid@;
        let ghost v = host@;
        self.hosts.insert(hostid, host);
        assert(v =~= HostView { inbox: Seq::empty(), channel });
        assert(self@ =~= old(self)@.insert(k, v));
    }

    /// Puts a message into the inbox of a host.
    pub fn push(&mut self, hostid: &ServerId, msg: Message) -> (r: Result<(), NotRegistered>)
        requires
            old(self).wf(),
        ensures
            final(self).wf(),
            match r {
                Ok(_) => {
                    &&& old(self)@.contains_key(hostid@)
                    &&& final(self)@ == with_message(old(self)@, hostid@, msg)
                },
                Err(e) => {
                    &&& !old(self)@.contains_key(hostid@)
                    &&& e == NotRegistered(*hostid)
                    &&& final(self)@ == old(self)@
                },
            },
    {
        match self.hosts.remove(hostid.as_str()) {
            None => {
                assert(self@ =~= old(self)@);
                Err(NotRegistered(hostid.clone()))
            },
            Some(host) => {
                let mut host = host;
                host.inbox.push(msg);
                self.hosts.insert(hostid.clone(), host);
                assert(self@ =~= with_message(old(self)@, hostid@, msg));
                Ok(())
            },
        }
    }

    /// Takes all messages out of the inbox of a host. Returns them with the
    /// number of the channel that leads to it.
    pub fn drain(&mut self, hostid: &ServerId) -> (r: Result<(Vec<Message>, u64), NotRegistered>)
        requires
            old(self).wf(),
        ensures
            final(self).wf(),
            match r {
                Ok((inbox, channel)) => {
                    &&& old(self)@.contains_key(hostid@)
                    &&& old(self)@[hostid@] == (HostView { inbox: inbox@, channel })
                    &&& final(self)@ == emptied(old(self)@, hostid@)
                },
                Err(e) => {
                    &&& !old(self)@.contains_key(hostid@)
                    &&& e == NotRegistered(*hostid)
                    &&& final(self)@ == old(self)@
                },
            },
    {
        match self.hosts.remove(hostid.as_str()) {
            None => {
                assert(self@ =~= old(self)@);
                Err(NotRegistered(hostid.clone()))
            },
            Some(host) => {
                let channel: u64 = host.channel;
                self.register(hostid.clone(), channel);
                assert(self@ =~= emptied(old(self)@, hostid@));
                Ok((host.inbox, channel))
            },
        }
    }
}

impl Default for FactoryState {
    fn default() -> (r: Self)
        ensures
            r.wf(),
            r@ == Map::<Seq<char>, HostView>::empty(),
    {
        FactoryState::new()
    }
}

/// What follows once a message lies in the inbox of a host.
#[derive(Debug, Clone, Copy, PartialEq, Eq, Structural)]
pub enum DeliverPlan {
    /// It is delivered at once.
    Now,
    /// It is delivered after that many milliseconds.
    Later(u64),
}

/// Puts a message into the inbox of a host and decides when it is delivered.
pub fn route_message(state: &mut FactoryState, peer: &ServerId, msg: Message, delay_ms: u64) -> (r:
    Result<DeliverPlan, NotRegistered>)
    requires
        old(state).wf(),
    ensures
        final(state).wf(),
        match r {
            Ok(plan) => {
                &&& old(state)@.contains_key(peer@)
                &&& final(state)@ == with_message(old(state)@, peer@, msg)
                &&& plan == if delay_ms == 0 {
                    DeliverPlan::Now
                } else {
                    DeliverPlan::Later(delay_ms)
                }
            },
            Err(e) => {
                &&& !old(state)@.contains_key(peer@)
                &&& e == NotRegistered(*peer)
                &&& final(state)@ == old(state)@
            },
        },
{
    match state.push(peer, msg) {
        Err(e) => Err(e),
        Ok(_) => if delay_ms == 0 {
            Ok(DeliverPlan::Now)
        } else {
            Ok(DeliverPlan::Later(delay_ms))
        },
    }
}

} // verus!
