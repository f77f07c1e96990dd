//! One connection to a peer over a byte stream, which may be the standard
//! streams of a command that runs over ssh.

use crate::types::ServerId;
use crate::webchannel;
use crate::webchannel::Message;
use vstd::prelude::*;

verus! {

/// Why a connection ended.
#[derive(Debug, Clone, Copy, PartialEq, Eq, Structural)]
pub enum IoExit {
    /// It was told to.
    Shutdown,
    /// A message could not be written.
    OutgoingErr,
    /// Nothing more can be read, or nobody takes what was read.
    InboundClosed,
    /// Nobody can give it messages any more.
    SenderDropped,
}

/// What happens to a connection.
#[derive(Debug, Clone, Copy, PartialEq, Eq, Structural)]
pub enum IoEvent {
    /// It is told to shut down.
    Shutdown,
    /// There is a message to write.
    Outgoing,
    /// A message could not be written.
    WriteFailed,
    /// Nobody can give it messages any more.
    SenderDropped,
    /// A message was read.
    Inbound,
    /// Nobody takes what was read.
    ForwardFailed,
    /// Nothing could be read.
    ReadFailed,
}

/// What a connection does.
#[derive(Debug, Clone, Copy, PartialEq, Eq, Structural)]
pub enum IoAction {
    /// Writes the message.
    Write,
    /// Hands on the message that was read.
    Forward,
    /// Ends.
    Exit(IoExit),
}

/// What an event leads to.
pub open spec fn io_after(event: IoEvent) -> IoAction {
    match event {
        IoEvent::Shutdown => IoAction::Exit(IoExit::Shutdown),
        IoEvent::Outgoing => IoAction::Write,
        IoEvent::WriteFailed => IoAction::Exit(IoExit::OutgoingErr),
        IoEvent::SenderDropped => IoAction::Exit(IoExit::SenderDropped),
        IoEvent::Inbound => IoAction::Forward,
        IoEvent::ForwardFailed => IoAction::Exit(IoExit::InboundClosed),
        IoEvent::ReadFailed => IoAction::Exit(IoExit::InboundClosed),
    }
}

/// Decides what to do about an event.
pub fn io_step(event: IoEvent) -> (r: IoAction)
    ensures
        r == io_after(event),
{
    match event {
        IoEvent::Shutdown => IoAction::Exit(IoExit::Shutdown),
        IoEvent::Outgoing => IoAction::Write,
        IoEvent::WriteFailed => IoAction::Exit(IoExit::OutgoingErr),
        IoEvent::SenderDropped => IoAction::Exit(IoExit::SenderDropped),
        IoEvent::Inbound => IoAction::Forward,
        IoEvent::ForwardFailed => IoAction::Exit(IoExit::InboundClosed),
        IoEvent::ReadFailed => IoAction::Exit(IoExit::InboundClosed),
    }
}

/// The message that tells the host of the end of a connection; none is due
/// where the end was asked for.
pub fn io_exit_notice(exit: IoExit, peer: &ServerId) -> (r: Option<Message>)
    ensures
        match r {
            None => exit is Shutdown,
            Some(m) => !(exit is Shutdown) && webchannel::is_broke(m, peer@),
        },
{
    match exit {
        IoExit::Shutdown => None,
        _ => Some(webchannel::connection_broke(peer)),
    }
}

// *** Over ssh

/// How far a command over ssh has come.
#[derive(Debug, Clone, Copy, PartialEq, Eq, Structural)]
pub enum SshStage {
    /// The command is known.
    Start,
    /// The session is open.
    Connected,
    /// The command runs.
    Spawned,
    /// Its standard streams are there.
    Piped,
}

/// A connection to a peer over the standard streams of a command that runs over
/// ssh.
pub struct SshRemote {
    /// The peer.
    pub peer_id: ServerId,
    /// The host that the command runs on.
    pub ssh_host: String,
    /// The command, with the program first.
    pub command: Vec<String>,
    /// The number of the connection.
    pub connection_id: u128,
}

/// What to do next for a command over ssh.
#[derive(Debug, PartialEq, Eq)]
pub enum SshAction {
    /// Opens the session.
    Connect,
    /// Runs the program with its arguments.
    Spawn { program: String, args: Vec<String> },
    /// Takes the standard streams.
    TakePipes,
    /// Talks to the peer over them.
    Run,
    /// Tells the host that the connection with this number is not there, and
    /// ends.
    Broke { notice: Message, connection_id: u128 },
}

/// The program and the arguments of a command.
pub fn split_command(command: &[String]) -> (r: (String, Vec<String>))
    requires
        command@.len() > 0,
    ensures
        seq![r.0] + r.1@ == command@,
{
    let program = command[0].clone();
    let mut args: Vec<String> = Vec::new();
    for i in 1..command.len()
        invariant
            1 <= i <= command@.len(),
            args@ == command@.subrange(1, i as int),
    {
        args.push(command[i].clone());
    }
    assert(seq![program] + args@ =~= command@);
    (program, args)
}

impl SshRemote {
    /// A connection that is to be made.
    pub fn new(
        peer_id: ServerId,
        ssh_host: String,
        command: Vec<String>,
        connection_id: u128,
    ) -> (r: SshRemote)
        ensures
            r == (SshRemote { peer_id, ssh_host, command, connection_id }),
    {
        SshRemote { peer_id, ssh_host, command, connection_id }
    }

    /// Decides what to do next, given whether the stage was reached without
    /// failure. Any failure, and a command without a program, means that there
    /// is no connection.
    pub fn step(&self, stage: SshStage, ok: bool) -> (r: SshAction)
        ensures
            match r {
                SshAction::Broke { notice, connection_id } => {
                    &&& !ok || self.command@.len() == 0
                    &&& webchannel::is_broke(notice, self.peer_id@)
                    &&& connection_id == self.connection_id
                },
                SshAction::Connect => ok && self.command@.len() > 0 && stage is Start,
                SshAction::Spawn { program, args } => {
                    &&& ok && self.command@.len() > 0 && stage is Connected
                    &&& seq![program] + args@ == self.command@
                },
                SshAction::TakePipes => ok && self.command@.len() > 0 && stage is Spawned,
                SshAction::Run => ok && self.command@.len() > 0 && stage is Piped,
            },
    {
        if !ok || self.command.len() == 0 {
            return SshAction::Broke {
                notice: webchannel::connection_broke(&self.peer_id),
                connection_id: self.connection_id,
            };
        }
        match stage {
            SshStage::Start => SshAction::Connect,
            SshStage::Connected => {
                let (program, args) = split_command(&self.command);
                SshAction::Spawn { program, args }
            },
            SshStage::Spawned => SshAction::TakePipes,
            SshStage::Piped => SshAction::Run,
        }
    }
}

} // verus!
