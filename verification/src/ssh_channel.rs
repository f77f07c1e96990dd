//! A channel whose peers are all reached by a command over ssh.

use crate::assoc::TextMap;
use crate::message::{Msg, RequestId};
use crate::split;
use crate::text;
use crate::types::ServerId;
use crate::webchannel;
use crate::webchannel::io_remote;
use crate::webchannel::Message;
use vstd::prelude::*;
use vstd::string::*;

verus! {

/// A host's side of its connections over ssh.
pub struct SshMsgChannel {
    my_hostid: ServerId,
    remote_command: Vec<String>,
    peers: TextMap<u64>,
}

/// What a host knows of its connections over ssh.
#[verifier::ext_equal]
pub struct SshChannelView {
    /// The host.
    pub me: Seq<char>,
    /// The command to run, with the program first.
    pub command: Seq<String>,
    /// The handles, by peer.
    pub peers: Map<Seq<char>, u64>,
}

impl View for SshMsgChannel {
    type V = SshChannelView;

    closed spec fn view(&self) -> SshChannelView {
        SshChannelView {
            me: self.my_hostid@,
            command: self.remote_command@,
            peers: self.peers@,
        }
    }
}

/// A transport that a channel is asked to use.
#[derive(Debug, PartialEq, Eq)]
pub enum TransportKind {
    /// A sock of the signaling client.
    Sock,
    /// A host for ssh.
    Ssh { ssh_host: String },
    /// None.
    Dummy,
}

/// Where a message goes.
pub enum SshSendPlan {
    /// To the host itself.
    Loopback(Message),
    /// To a peer.
    Forward { handle: u64, message: Message },
    /// Nowhere, for the reason given.
    NotConnected(String),
}

/// Why a command does not run over ssh.
#[derive(Debug, PartialEq, Eq)]
pub enum SshFailure {
    /// The session could not be opened, with the description.
    Connect(String),
    /// The program could not be started, with the description.
    Spawn(String),
    /// It has no standard input.
    NoStdin,
    /// It has no standard output.
    NoStdout,
    /// Nothing was heard of it.
    Ended,
}

impl SshFailure {
    /// The message of the failure, with the host and the program.
    pub fn message(&self, ssh_host: &str, program: &str) -> (r: String)
        ensures
            r@ == match self {
                SshFailure::Connect(_) => "openssh connect to "@ + ssh_host@,
                SshFailure::Spawn(_) => "openssh spawn "@ + program@ + " on "@ + ssh_host@,
                SshFailure::NoStdin => "openssh child missing stdin"@,
                SshFailure::NoStdout => "openssh child missing stdout"@,
                SshFailure::Ended => "openssh spawn task ended before sending result"@,
            },
    {
        match self {
            SshFailure::Connect(_) => text::concat("openssh connect to ", ssh_host),
            SshFailure::Spawn(_) => {
                let mut r = text::concat3("openssh spawn ", program, " on ");
                r.append(ssh_host);
                r
            },
            SshFailure::NoStdin => "openssh child missing stdin".to_owned(),
            SshFailure::NoStdout => "openssh child missing stdout".to_owned(),
            SshFailure::Ended => "openssh spawn task ended before sending result".to_owned(),
        }
    }
}

/// How far a command over ssh has come. `I` stands for its standard input, and
/// `O` for its standard output.
pub enum SshProgress<I, O> {
    /// The command is known.
    Start,
    /// A session was asked for.
    Session(Result<(), String>),
    /// The program was asked to start.
    Program(Result<(), String>),
    /// Its standard input was asked for.
    Stdin(Option<I>),
    /// Its standard output was asked for, after the standard input came.
    Stdout(I, Option<O>),
}

/// What to do next for a command over ssh.
pub enum SshNext<I, O> {
    /// Open the session.
    Connect,
    /// Start the program with its arguments.
    Spawn { program: String, args: Vec<String> },
    /// Take its standard input.
    TakeStdin,
    /// Take its standard output.
    TakeStdout(I),
    /// Talk over both.
    Ready { stdin: I, stdout: O },
    /// Give up.
    Fail(SshFailure),
}

/// Decides what to do next for a command over ssh. Each step is taken once the
/// one before it has gone well; the first that does not is the failure.
pub fn ssh_reader_writer<I, O>(command: &[String], progress: SshProgress<I, O>) -> (r: SshNext<
    I,
    O,
>)
    requires
        command@.len() > 0,
    ensures
        match progress {
            SshProgress::Start => r is Connect,
            SshProgress::Session(Err(e)) => r == SshNext::<I, O>::Fail(SshFailure::Connect(e)),
            SshProgress::Session(Ok(_)) => r matches SshNext::Spawn { program, args } && seq![
                program,
            ] + args@ == command@,
            SshProgress::Program(Err(e)) => r == SshNext::<I, O>::Fail(SshFailure::Spawn(e)),
            SshProgress::Program(Ok(_)) => r is TakeStdin,
            SshProgress::Stdin(None) => r == SshNext::<I, O>::Fail(SshFailure::NoStdin),
            SshProgress::Stdin(Some(i)) => r == SshNext::<I, O>::TakeStdout(i),
            SshProgress::Stdout(_, None) => r == SshNext::<I, O>::Fail(SshFailure::NoStdout),
            SshProgress::Stdout(i, Some(o)) => r == (SshNext::Ready { stdin: i, stdout: o }),
        },
{
    match progress {
        SshProgress::Start => SshNext::Connect,
        SshProgress::Session(Err(e)) => SshNext::Fail(SshFailure::Connect(e)),
        SshProgress::Session(Ok(_)) => {
            let (program, args) = io_remote::split_command(command);
            SshNext::Spawn { program, args }
        },
        SshProgress::Program(Err(e)) => SshNext::Fail(SshFailure::Spawn(e)),
        SshProgress::Program(Ok(_)) => SshNext::TakeStdin,
        SshProgress::Stdin(None) => SshNext::Fail(SshFailure::NoStdin),
        SshProgress::Stdin(Some(i)) => SshNext::TakeStdout(i),
        SshProgress::Stdout(_, None) => SshNext::Fail(SshFailure::NoStdout),
        SshProgress::Stdout(i, Some(o)) => SshNext::Ready { stdin: i, stdout: o },
    }
}

/// The message for a host that cannot be reached over ssh.
pub fn connect_error(ssh_host: &str) -> (r: String)
    ensures
        r@ == "Spawning ssh to "@ + ssh_host@,
{
    text::concat("Spawning ssh to ", ssh_host)
}

impl SshMsgChannel {
    /// Whether the command has a program, and no peer is in the table twice.
    pub closed spec fn wf(&self) -> bool {
        self.peers.wf() && self.remote_command@.len() > 0
    }

    /// A channel that runs a command, which has at least the name of a program.
    pub fn new(my_hostid: ServerId, remote_command: Vec<String>) -> (r: Self)
        requires
            remote_command@.len() > 0,
        ensures
            r.wf(),
            r@ == (SshChannelView {
                me: my_hostid@,
                command: remote_command@,
                peers: Map::empty(),
            }),
    {
        SshMsgChannel { my_hostid, remote_command, peers: TextMap::new() }
    }

    /// Decides where a message goes.
    pub fn send(&self, recipient: &ServerId, req_id: Option<RequestId>, msg: Msg) -> (r:
        SshSendPlan)
        requires
            self.wf(),
        ensures
            match r {
                SshSendPlan::Loopback(m) => {
                    &&& recipient@ == self@.me
                    &&& webchannel::own_message(self@.me, req_id, msg, m)
                },
                SshSendPlan::Forward { handle, message } => {
                    &&& recipient@ != self@.me
                    &&& self@.peers.contains_key(recipient@)
                    &&& handle == self@.peers[recipient@]
                    &&& webchannel::own_message(self@.me, req_id, msg, message)
                },
                SshSendPlan::NotConnected(reason) => {
                    &&& recipient@ != self@.me
                    &&& !self@.peers.contains_key(recipient@)
                    &&& reason@ == "Not connected to "@ + recipient@
                },
            },
    {
        let message = Message { host: self.my_hostid.clone(), body: msg, req_id };
        if *recipient == self.my_hostid {
            return SshSendPlan::Loopback(message);
        }
        match self.peers.get(recipient.as_str()) {
            Some(h) => SshSendPlan::Forward { handle: *h, message },
            None => SshSendPlan::NotConnected(
                text::concat("Not connected to ", recipient.as_str()),
            ),
        }
    }

    /// The host to reach by a transport; only ssh will do.
    pub fn connect_target(transport: TransportKind) -> (r: Result<String, String>)
        ensures
            match (transport, r) {
                (TransportKind::Ssh { ssh_host }, Ok(host)) => host == ssh_host,
                (TransportKind::Sock, Err(e)) => e@
                    == "SshMsgChannel does not handle Sock transports"@,
                (TransportKind::Dummy, Err(e)) => e@
                    == "SshMsgChannel does not handle Dummy transport"@,
                _ => false,
            },
    {
        match transport {
            TransportKind::Ssh { ssh_host } => Ok(ssh_host),
            TransportKind::Sock => Err("SshMsgChannel does not handle Sock transports".to_owned()),
            TransportKind::Dummy => Err("SshMsgChannel does not handle Dummy transport".to_owned()),
        }
    }

    /// Adds a peer; an earlier handle is replaced.
    pub fn add_peer(&mut self, peer: ServerId, handle: u64)
        requires
            old(self).wf(),
        ensures
            final(self).wf(),
            final(self)@ == (SshChannelView {
                peers: old(self)@.peers.insert(peer@, handle),
                ..old(self)@
            }),
    {
        self.peers.insert(peer, handle);
    }

    /// The peers in the order in which they came.
    pub closed spec fn peer_list(&self) -> Seq<Seq<char>> {
        self.peers.keys()
    }

    /// The peers that a message to everybody goes to, one after the other, until
    /// one of them cannot be reached.
    pub fn broadcast(&self) -> (r: Vec<ServerId>)
        requires
            self.wf(),
        ensures
            split::texts(r@) == self.peer_list(),
            forall|i: int|
                0 <= i < r@.len() ==> self@.peers.contains_key((#[trigger] r@[i])@),
    {
        let mut r: Vec<ServerId> = Vec::new();
        let n: usize = self.peers.len();
        for i in 0..n
            invariant
                self.wf(),
                n == self.peer_list().len(),
                r@.len() == i,
                forall|j: int|
                    0 <= j < i ==> (#[trigger] r@[j])@ == self.peer_list()[j]
                        && self@.peers.contains_key(r@[j]@),
        {
            let (peer, _handle) = self.peers.entry(i);
            r.push(peer.to_owned());
        }
        assert(split::texts(r@) =~= self.peer_list());
        r
    }

    /// Removes a peer and returns its handle.
    pub fn disconnect(&mut self, peer: &str) -> (r: Option<u64>)
        requires
            old(self).wf(),
        ensures
            final(self).wf(),
            final(self)@ == (SshChannelView {
                peers: old(self)@.peers.remove(peer@),
                ..old(self)@
            }),
            match r {
                Some(h) => old(self)@.peers.contains_key(peer@) && old(self)@.peers[peer@] == h,
                None => !old(self)@.peers.contains_key(peer@),
            },
    {
        self.peers.remove(peer)
    }
}

} // verus!
