//! One connection to a peer over SCTP: which streams it uses, when it pings, and
//! when it gives up.

use crate::clock;
use crate::signaling::auth;
use crate::signaling::CertDerHash;
use crate::text;
use crate::types::ServerId;
use crate::webchannel;
use crate::webchannel::byte_stream::ReadError;
use crate::webchannel::{Message, STREAM_ID_SERVER_INIT};
use vstd::prelude::*;
use vstd::string::*;

verus! {

/// The stream for pings, which both sides open. Receipt of any byte on it is a
/// sign of life.
pub const PING_STREAM_ID: u16 = 0;

/// Seconds between pings.
pub const PING_INTERVAL_SECS: u64 = 10;

/// After how many seconds without a sign of life a connection is broken.
pub const PING_TIMEOUT_SECS: u64 = 30;

/// Seconds between looks at the clock.
pub const PING_CHECK_SECS: u64 = 3;

/// Seconds since the Unix epoch, or zero where the clock shows an earlier time.
/// Any value may come back: it is up to the clock.
pub fn now_secs() -> (r: u64) {
    clock::or_zero(clock::unix_seconds())
}

// *** Stream ids

/// What is done about a stream that the other side announces.
#[derive(Debug, Clone, Copy, PartialEq, Eq, Structural)]
pub enum StreamUse {
    /// It is the ping stream, which is open already.
    Ping,
    /// It is one of our own, which comes back: nothing is read from it.
    Own,
    /// It brings a message.
    Message,
}

/// What is done about a stream, on the side whose first stream id is `init`.
pub open spec fn stream_use(stream_id: u16, init: u16) -> StreamUse {
    if stream_id == PING_STREAM_ID {
        StreamUse::Ping
    } else if stream_id % 2 == init % 2 {
        StreamUse::Own
    } else {
        StreamUse::Message
    }
}

/// Decides what to do about a stream.
pub fn classify_stream(stream_id: u16, init: u16) -> (r: StreamUse)
    ensures
        r == stream_use(stream_id, init),
{
    if stream_id == PING_STREAM_ID {
        StreamUse::Ping
    } else if stream_id % 2 == init % 2 {
        StreamUse::Own
    } else {
        StreamUse::Message
    }
}

/// The stream id after `id`: two more, and after the last one the first of the
/// same parity again, which is never that of the ping stream.
pub open spec fn stream_after(id: u16) -> u16 {
    if id + 2 <= u16::MAX {
        (id + 2) as u16
    } else if id % 2 == 0 {
        2
    } else {
        1
    }
}

/// Gives the stream id after `id`.
pub fn next_stream(id: u16) -> (r: u16)
    ensures
        r == stream_after(id),
{
    if id <= u16::MAX - 2 {
        id + 2
    } else if id % 2 == 0 {
        2
    } else {
        1
    }
}

/// The stream id of the `n`th message on the side whose first one is `init`.
pub open spec fn nth_stream(init: u16, n: nat) -> u16
    decreases n,
{
    if n == 0 {
        init
    } else {
        stream_after(nth_stream(init, (n - 1) as nat))
    }
}

/// All streams of a side have the parity of its first one.
pub proof fn lemma_parity_kept(init: u16, n: nat)
    ensures
        nth_stream(init, n) % 2 == init % 2,
    decreases n,
{
    if n > 0 {
        lemma_parity_kept(init, (n - 1) as nat);
    }
}

/// The two sides of a connection never use the same stream, and each reads what
/// the other sends.
pub proof fn lemma_streams_apart(a: Seq<char>, b: Seq<char>, n: nat, m: nat)
    requires
        a != b,
    ensures
        ({
            let x = webchannel::first_stream(a, b);
            let y = webchannel::first_stream(b, a);
            &&& nth_stream(x, n) != nth_stream(y, m)
            &&& stream_use(nth_stream(x, n), y) is Message
            &&& stream_use(nth_stream(x, n), x) is Own
        }),
{
    webchannel::lemma_sides_agree(a, b);
    lemma_spares_ping(webchannel::first_stream(a, b), n);
    lemma_parity_kept(webchannel::first_stream(a, b), n);
    lemma_parity_kept(webchannel::first_stream(b, a), m);
}

/// No message goes out on the ping stream, however many a side sends.
pub proof fn lemma_spares_ping(init: u16, n: nat)
    requires
        init != PING_STREAM_ID,
    ensures
        nth_stream(init, n) != PING_STREAM_ID,
{
}

// *** The connection

/// Why a connection ended.
#[derive(Debug, Clone, Copy, PartialEq, Eq, Structural)]
pub enum Exit {
    /// It was told to.
    Shutdown,
    /// A message or a ping could not be sent.
    OutgoingErr,
    /// The other side opens no more streams.
    IncomingClosed,
    /// Nobody can give it messages any more.
    SenderDropped,
    /// There was no sign of life for too long, or the ping stream ended.
    PingTimeout,
    /// The ping stream could not be opened.
    NoPingStream,
}

/// What happens to a connection.
#[derive(Debug, Clone, Copy, PartialEq, Eq, Structural)]
pub enum RemoteEvent {
    /// The ping stream could not be opened at the start.
    PingOpenFailed,
    /// It is told to shut down.
    Shutdown,
    /// There is a message to send.
    Outgoing,
    /// Nobody can give it messages any more.
    SenderDropped,
    /// A message could not be sent.
    WriteFailed,
    /// The other side announces a stream.
    Stream(u16),
    /// The other side opens no more streams.
    StreamsClosed,
    /// It is time to look at the clock, which shows this.
    Tick(u64),
    /// A ping could not be sent.
    PingFailed,
    /// A ping was sent at this time.
    PingSent(u64),
    /// That many bytes came over the ping stream at this time.
    PingRead(usize, u64),
    /// The ping stream could not be read.
    PingReadFailed,
    /// That many bytes of a message came over its stream at this time.
    BytesRead(usize, u64),
    /// A message was complete at this time.
    MessageRead(u64),
}

/// What a connection does.
#[derive(Debug, Clone, Copy, PartialEq, Eq, Structural)]
pub enum RemoteAction {
    /// Nothing.
    Quiet,
    /// Sends the message over the stream.
    Write(u16),
    /// Closes the receiving half of the stream.
    CloseRead,
    /// Reads a message from the stream.
    Read,
    /// Sends a ping.
    Ping,
    /// Ends.
    Exit(Exit),
}

/// One side of a connection.
#[derive(Debug, Clone, Copy, PartialEq, Eq, Structural)]
pub struct SctpRemote {
    /// The stream of the next message.
    pub next_stream_id: u16,
    /// The first stream, whose parity all have.
    pub stream_id_parity: u16,
    /// When the last ping was sent.
    pub last_ping_sent: u64,
    /// When the last sign of life came: a byte on any stream.
    pub last_ping_recv: u64,
}

/// The time from `then` to `now`, or nothing where the clock went back.
pub open spec fn since(now: u64, then: u64) -> int {
    if now >= then {
        now - then
    } else {
        0
    }
}

impl SctpRemote {
    /// A connection that starts at the time `now`.
    pub open spec fn started(stream_id_init: u16, now: u64) -> SctpRemote {
        SctpRemote {
            next_stream_id: stream_id_init,
            stream_id_parity: stream_id_init,
            last_ping_sent: if now >= PING_INTERVAL_SECS {
                (now - PING_INTERVAL_SECS) as u64
            } else {
                0
            },
            last_ping_recv: now,
        }
    }

    /// A connection that starts at the time `now`. Its first ping is due at
    /// once.
    pub fn new(stream_id_init: u16, now: u64) -> (r: SctpRemote)
        ensures
            r == SctpRemote::started(stream_id_init, now),
    {
        SctpRemote {
            next_stream_id: stream_id_init,
            stream_id_parity: stream_id_init,
            last_ping_sent: if now >= PING_INTERVAL_SECS {
                now - PING_INTERVAL_SECS
            } else {
                0
            },
            last_ping_recv: now,
        }
    }

    /// Whether this side acts as the server when the connection is made.
    pub fn as_server(&self) -> (r: bool)
        ensures
            r == (self.stream_id_parity == STREAM_ID_SERVER_INIT),
    {
        self.stream_id_parity == STREAM_ID_SERVER_INIT
    }

    /// What a look at the clock leads to.
    pub open spec fn ticked(self, now: u64) -> RemoteAction {
        if since(now, self.last_ping_recv) > PING_TIMEOUT_SECS {
            RemoteAction::Exit(Exit::PingTimeout)
        } else if since(now, self.last_ping_sent) < PING_INTERVAL_SECS {
            RemoteAction::Quiet
        } else {
            RemoteAction::Ping
        }
    }

    /// What an event leads to.
    pub open spec fn after(self, event: RemoteEvent) -> (SctpRemote, RemoteAction) {
        match event {
            RemoteEvent::PingOpenFailed => (self, RemoteAction::Exit(Exit::NoPingStream)),
            RemoteEvent::Shutdown => (self, RemoteAction::Exit(Exit::Shutdown)),
            RemoteEvent::Outgoing => (
                SctpRemote { next_stream_id: stream_after(self.next_stream_id), ..self },
                RemoteAction::Write(self.next_stream_id),
            ),
            RemoteEvent::SenderDropped => (self, RemoteAction::Exit(Exit::SenderDropped)),
            RemoteEvent::WriteFailed => (self, RemoteAction::Exit(Exit::OutgoingErr)),
            RemoteEvent::Stream(id) => (
                self,
                match stream_use(id, self.stream_id_parity) {
                    StreamUse::Ping => RemoteAction::Quiet,
                    StreamUse::Own => RemoteAction::CloseRead,
                    StreamUse::Message => RemoteAction::Read,
                },
            ),
            RemoteEvent::StreamsClosed => (self, RemoteAction::Exit(Exit::IncomingClosed)),
            RemoteEvent::Tick(now) => (self, self.ticked(now)),
            RemoteEvent::PingFailed => (self, RemoteAction::Exit(Exit::OutgoingErr)),
            RemoteEvent::PingSent(now) => (
                SctpRemote { last_ping_sent: now, ..self },
                RemoteAction::Quiet,
            ),
            RemoteEvent::PingRead(n, now) => if n == 0 {
                (self, RemoteAction::Exit(Exit::PingTimeout))
            } else {
                (SctpRemote { last_ping_recv: now, ..self }, RemoteAction::Quiet)
            },
            RemoteEvent::PingReadFailed => (self, RemoteAction::Exit(Exit::PingTimeout)),
            RemoteEvent::BytesRead(n, now) => (
                if n > 0 {
                    SctpRemote { last_ping_recv: now, ..self }
                } else {
                    self
                },
                RemoteAction::Quiet,
            ),
            RemoteEvent::MessageRead(now) => (
                SctpRemote { last_ping_recv: now, ..self },
                RemoteAction::Quiet,
            ),
        }
    }

    /// Looks at the clock: gives up where there was no sign of life for too
    /// long, and pings where it is time to.
    pub fn handle_ping_tick(&self, now: u64) -> (r: RemoteAction)
        ensures
            r == self.ticked(now),
    {
        let quiet: u64 = if now >= self.last_ping_recv {
            now - self.last_ping_recv
        } else {
            0
        };
        let idle: u64 = if now >= self.last_ping_sent {
            now - self.last_ping_sent
        } else {
            0
        };
        if quiet > PING_TIMEOUT_SECS {
            RemoteAction::Exit(Exit::PingTimeout)
        } else if idle < PING_INTERVAL_SECS {
            RemoteAction::Quiet
        } else {
            RemoteAction::Ping
        }
    }

    /// Decides what to do about an event.
    pub fn step(&mut self, event: RemoteEvent) -> (r: RemoteAction)
        ensures
            (*final(self), r) == old(self).after(event),
    {
        match event {
            RemoteEvent::PingOpenFailed => RemoteAction::Exit(Exit::NoPingStream),
            RemoteEvent::Shutdown => RemoteAction::Exit(Exit::Shutdown),
            RemoteEvent::Outgoing => {
                let id: u16 = self.next_stream_id;
                self.next_stream_id = next_stream(id);
                RemoteAction::Write(id)
            },
            RemoteEvent::SenderDropped => RemoteAction::Exit(Exit::SenderDropped),
            RemoteEvent::WriteFailed => RemoteAction::Exit(Exit::OutgoingErr),
            RemoteEvent::Stream(id) => match classify_stream(id, self.stream_id_parity) {
                StreamUse::Ping => RemoteAction::Quiet,
                StreamUse::Own => RemoteAction::CloseRead,
                StreamUse::Message => RemoteAction::Read,
            },
            RemoteEvent::StreamsClosed => RemoteAction::Exit(Exit::IncomingClosed),
            RemoteEvent::Tick(now) => self.handle_ping_tick(now),
            RemoteEvent::PingFailed => RemoteAction::Exit(Exit::OutgoingErr),
            RemoteEvent::PingSent(now) => {
                self.last_ping_sent = now;
                RemoteAction::Quiet
            },
            RemoteEvent::PingRead(n, now) => {
                if n == 0 {
                    RemoteAction::Exit(Exit::PingTimeout)
                } else {
                    self.last_ping_recv = now;
                    RemoteAction::Quiet
                }
            },
            RemoteEvent::PingReadFailed => RemoteAction::Exit(Exit::PingTimeout),
            RemoteEvent::BytesRead(n, now) => {
                if n > 0 {
                    self.last_ping_recv = now;
                }
                RemoteAction::Quiet
            },
            RemoteEvent::MessageRead(now) => {
                self.last_ping_recv = now;
                RemoteAction::Quiet
            },
        }
    }
}

/// Whatever happens to a connection that does not start on the ping stream, it
/// never sends a message over that stream.
pub proof fn lemma_step_spares_ping(r: SctpRemote, event: RemoteEvent)
    requires
        r.next_stream_id != PING_STREAM_ID,
    ensures
        r.after(event).0.next_stream_id != PING_STREAM_ID,
        r.after(event).1 != RemoteAction::Write(PING_STREAM_ID),
{
}

/// The message that tells the host of the end of a connection; none is due
/// where the end was asked for.
pub fn exit_notice(exit: Exit, peer: &ServerId) -> (r: Option<Message>)
    ensures
        match r {
            None => exit is Shutdown,
            Some(m) => !(exit is Shutdown) && webchannel::is_broke(m, peer@),
        },
{
    match exit {
        Exit::Shutdown => None,
        _ => Some(webchannel::connection_broke(peer)),
    }
}

/// A new connection pings at its first look at the clock, as long as that shows
/// at least one interval.
pub proof fn lemma_first_ping(init: u16, start: u64, now: u64)
    requires
        start <= now <= start + PING_TIMEOUT_SECS,
        now >= PING_INTERVAL_SECS,
    ensures
        SctpRemote::started(init, start).ticked(now) is Ping,
{
}

/// A peer that sends a ping whenever it is due, and looks at the clock as often
/// as it should, is not taken for dead.
pub proof fn lemma_pings_keep_alive(r: SctpRemote, now: u64)
    requires
        r.last_ping_recv <= now <= r.last_ping_recv + PING_INTERVAL_SECS + PING_CHECK_SECS,
    ensures
        r.ticked(now) != RemoteAction::Exit(Exit::PingTimeout),
{
}

/// A peer that is silent is taken for dead at the first look at the clock after
/// the time is up, and every byte that comes, on whatever stream, puts that off.
pub proof fn lemma_silence_ends(r: SctpRemote, n: usize, t: u64, now: u64)
    requires
        n > 0,
        t <= now,
    ensures
        r.after(RemoteEvent::PingRead(n, t)).0.ticked(now) == RemoteAction::Exit(Exit::PingTimeout)
            <==> now - t > PING_TIMEOUT_SECS,
        r.after(RemoteEvent::BytesRead(n, t)).0.ticked(now) == RemoteAction::Exit(Exit::PingTimeout)
            <==> now - t > PING_TIMEOUT_SECS,
{
}

// *** Messages that cannot be read

/// The message that tells that a stream of a peer could not be read.
pub fn read_failure(peer: &ServerId, error: ReadError) -> (r: Message)
    ensures
        webchannel::is_serialization_err(r, peer@, error.text()),
{
    webchannel::serialization_err(peer, error.message())
}

/// The message that tells that what a peer sent is no message.
pub fn decode_failure(peer: &ServerId, error: &str) -> (r: Message)
    ensures
        webchannel::is_serialization_err(
            r,
            peer@,
            "Failed to deserialize message: "@ + error@,
        ),
{
    webchannel::serialization_err(peer, text::concat("Failed to deserialize message: ", error))
}

/// The message that tells that a message to a peer could not be written down.
pub fn encode_failure(peer: &ServerId) -> (r: Message)
    ensures
        webchannel::is_serialization_err(r, peer@, peer@),
{
    webchannel::serialization_err(peer, peer.clone())
}

// *** Certificates

/// Why the certificates of a peer were not accepted.
#[derive(Debug)]
pub enum CertError {
    /// There were none.
    Empty,
    /// The first one is not the one expected.
    Mismatch { expected: CertDerHash, provided: CertDerHash },
}

impl CertError {
    /// The message of the error.
    pub fn message(&self) -> (r: String)
        ensures
            r@ == match self {
                CertError::Empty => "Remote host provided empty certificate"@,
                CertError::Mismatch { expected, provided } =>
                "Certificate hash mismatch, cert from signaling server = "@ + expected@
                    + ", cert provided by DTLS = "@ + provided@,
            },
    {
        match self {
            CertError::Empty => "Remote host provided empty certificate".to_owned(),
            CertError::Mismatch { expected, provided } => {
                let mut r = text::concat3(
                    "Certificate hash mismatch, cert from signaling server = ",
                    expected.as_str(),
                    ", cert provided by DTLS = ",
                );
                r.append(provided.as_str());
                r
            },
        }
    }
}

/// Checks that the first certificate that a peer provides is the one whose hash
/// came through the signaling server.
pub fn verify_dtls_cert(expected: &CertDerHash, certs: &[Vec<u8>]) -> (r: Result<(), CertError>)
    requires
        certs@.len() > 0 ==> certs@[0]@.len() < auth::HASH_INPUT_LIMIT,
    ensures
        match r {
            Ok(_) => {
                &&& certs@.len() > 0
                &&& expected@ == auth::colon_hex(auth::sha256(certs@[0]@))
            },
            Err(CertError::Empty) => certs@.len() == 0,
            Err(CertError::Mismatch { expected: e, provided }) => {
                &&& certs@.len() > 0
                &&& e == *expected
                &&& provided@ == auth::colon_hex(auth::sha256(certs@[0]@))
                &&& provided@ != expected@
            },
        },
{
    if certs.len() == 0 {
        return Err(CertError::Empty);
    }
    let provided = auth::hash_der(&certs[0]);
    if provided != *expected {
        return Err(CertError::Mismatch { expected: expected.clone(), provided });
    }
    Ok(())
}

} // verus!
