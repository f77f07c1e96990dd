//! What holds of the connections between hosts: who uses which streams, what a
//! frame looks like, when a peer is taken for dead, and where messages go.

use crate::message::{Msg, RequestId};
use crate::number;
use crate::text;
use crate::webchannel::byte_stream;
use crate::webchannel::byte_stream::{ReadError, ReadState};
use crate::webchannel::io_remote;
use crate::webchannel::io_remote::{IoAction, IoEvent, IoExit};
use crate::webchannel::sctp_remote;
use crate::webchannel::sctp_remote::{Exit, RemoteAction, RemoteEvent, SctpRemote};
use crate::webchannel::test_transport;
use crate::webchannel::test_transport::{HostView, TravelTime};
use crate::webchannel::{first_stream, is_broke, is_serialization_err, own_message};
use crate::webchannel::{ChannelView, Message, Target};
use vstd::prelude::*;
use vstd::string::*;

verus! {

// *** Streams

/// The host whose id comes first in dictionary order starts with stream 1, the
/// other with stream 2.
pub proof fn lemma_first_streams(a: Seq<char>, b: Seq<char>, k: int)
    requires
        0 <= k <= a.len(),
        k < b.len(),
        forall|i: int| 0 <= i < k ==> a[i] == b[i],
        k < a.len() ==> (a[k] as int) < (b[k] as int),
    ensures
        first_stream(a, b) == 1,
        first_stream(b, a) == 2,
{
    text::lemma_lex_at(a, b, k);
}

/// Messages go over every second stream: the first ones count up from the
/// first stream, and after the last the count starts again with the same
/// parity, without stream 0.
pub proof fn lemma_streams_count_up(init: u16, n: nat)
    requires
        init == 1 || init == 2,
    ensures
        n <= 32766 ==> sctp_remote::nth_stream(init, n) == init + 2 * n,
        init == 1 && n == 32767 ==> sctp_remote::nth_stream(init, n) == 65535,
        init == 1 && n == 32768 ==> sctp_remote::nth_stream(init, n) == 1,
        init == 2 && n == 32767 ==> sctp_remote::nth_stream(init, n) == 2,
    decreases n,
{
    if n > 0 {
        lemma_streams_count_up(init, (n - 1) as nat);
    }
}

/// Two messages of a side share no stream unless more than thirty-two thousand
/// lie between them.
pub proof fn lemma_streams_distinct(init: u16, n: nat, m: nat)
    requires
        init == 1 || init == 2,
        n < m <= 32766,
    ensures
        sctp_remote::nth_stream(init, n) != sctp_remote::nth_stream(init, m),
{
    lemma_streams_count_up(init, n);
    lemma_streams_count_up(init, m);
}

/// A message that is sent takes the stream whose turn it is, and the next
/// message the one behind it; nothing else moves on.
pub proof fn lemma_each_message_its_stream(r: SctpRemote)
    ensures
        r.after(RemoteEvent::Outgoing).1 == RemoteAction::Write(r.next_stream_id),
        r.next_stream_id <= 65533 ==> r.after(RemoteEvent::Outgoing).0.next_stream_id
            == r.next_stream_id + 2,
        r.next_stream_id == 65534 ==> r.after(RemoteEvent::Outgoing).0.next_stream_id == 2,
        r.next_stream_id == 65535 ==> r.after(RemoteEvent::Outgoing).0.next_stream_id == 1,
        r.after(RemoteEvent::Outgoing).0.stream_id_parity == r.stream_id_parity,
        r.after(RemoteEvent::Outgoing).0.last_ping_sent == r.last_ping_sent,
        r.after(RemoteEvent::Outgoing).0.last_ping_recv == r.last_ping_recv,
{
}

/// A stream brings a message if it is one of the other side; one of our own is
/// closed for reading, and the ping stream is left alone. The state stays.
pub proof fn lemma_which_streams_are_read(r: SctpRemote, id: u16)
    ensures
        id == 0 ==> r.after(RemoteEvent::Stream(id)).1 is Quiet,
        id != 0 && id % 2 != r.stream_id_parity % 2 ==> r.after(RemoteEvent::Stream(id)).1 is Read,
        id != 0 && id % 2 == r.stream_id_parity % 2 ==> r.after(
            RemoteEvent::Stream(id),
        ).1 is CloseRead,
        r.after(RemoteEvent::Stream(id)).0 == r,
{
}

// *** Pings

/// A new connection counts from its start: its first ping is due at once, and
/// the peer has thirty seconds to give a sign of life.
pub proof fn lemma_start(init: u16, start: u64, now: u64)
    requires
        start <= now,
    ensures
        SctpRemote::started(init, start).next_stream_id == init,
        SctpRemote::started(init, start).stream_id_parity == init,
        now - start > 30 ==> SctpRemote::started(init, start).after(RemoteEvent::Tick(now)).1
            == RemoteAction::Exit(Exit::PingTimeout),
        now - start <= 30 && start >= 10 ==> SctpRemote::started(init, start).after(
            RemoteEvent::Tick(now),
        ).1 is Ping,
{
}

/// At a look at the clock a peer that was silent for more than thirty seconds
/// is given up. Otherwise a ping is sent if the last one is ten seconds old.
/// Looking changes nothing.
pub proof fn lemma_clock(r: SctpRemote, now: u64)
    requires
        r.last_ping_recv <= now,
        r.last_ping_sent <= now,
    ensures
        r.after(RemoteEvent::Tick(now)).0 == r,
        now - r.last_ping_recv > 30 ==> r.after(RemoteEvent::Tick(now)).1 == RemoteAction::Exit(
            Exit::PingTimeout,
        ),
        now - r.last_ping_recv <= 30 && now - r.last_ping_sent >= 10 ==> r.after(
            RemoteEvent::Tick(now),
        ).1 is Ping,
        now - r.last_ping_recv <= 30 && now - r.last_ping_sent < 10 ==> r.after(
            RemoteEvent::Tick(now),
        ).1 is Quiet,
{
}

/// Once a ping was sent, none is due for ten seconds, and one is due after that.
pub proof fn lemma_ping_pause(r: SctpRemote, t: u64, now: u64)
    requires
        t <= now,
        r.last_ping_recv <= now <= r.last_ping_recv + 30,
    ensures
        now - t < 10 ==> r.after(RemoteEvent::PingSent(t)).0.after(RemoteEvent::Tick(now)).1 is Quiet,
        now - t >= 10 ==> r.after(RemoteEvent::PingSent(t)).0.after(RemoteEvent::Tick(now)).1 is Ping,
        r.after(RemoteEvent::PingSent(t)).1 is Quiet,
        r.after(RemoteEvent::PingSent(t)).0.next_stream_id == r.next_stream_id,
        r.after(RemoteEvent::PingSent(t)).0.stream_id_parity == r.stream_id_parity,
        r.after(RemoteEvent::PingSent(t)).0.last_ping_recv == r.last_ping_recv,
{
}

/// Every byte that is read, on the ping stream or with a message, is a sign of
/// life from which the thirty seconds count anew, and changes nothing else.
pub proof fn lemma_signs_of_life(r: SctpRemote, event: RemoteEvent, n: usize, t: u64, now: u64)
    requires
        n > 0,
        event == RemoteEvent::PingRead(n, t) || event == RemoteEvent::BytesRead(n, t) || event
            == RemoteEvent::MessageRead(t),
        t <= now,
    ensures
        r.after(event).1 is Quiet,
        r.after(event).0.after(RemoteEvent::Tick(now)).1 == RemoteAction::Exit(Exit::PingTimeout)
            <==> now - t > 30,
        r.after(event).0.last_ping_sent == r.last_ping_sent,
        r.after(event).0.next_stream_id == r.next_stream_id,
        r.after(event).0.stream_id_parity == r.stream_id_parity,
{
}

/// What ends a connection, and with what reason. Nothing else ends it but
/// silence.
pub proof fn lemma_ends_of_a_connection(r: SctpRemote, event: RemoteEvent, now: u64)
    ensures
        r.after(RemoteEvent::Shutdown).1 == RemoteAction::Exit(Exit::Shutdown),
        r.after(RemoteEvent::PingOpenFailed).1 == RemoteAction::Exit(Exit::NoPingStream),
        r.after(RemoteEvent::SenderDropped).1 == RemoteAction::Exit(Exit::SenderDropped),
        r.after(RemoteEvent::WriteFailed).1 == RemoteAction::Exit(Exit::OutgoingErr),
        r.after(RemoteEvent::PingFailed).1 == RemoteAction::Exit(Exit::OutgoingErr),
        r.after(RemoteEvent::StreamsClosed).1 == RemoteAction::Exit(Exit::IncomingClosed),
        r.after(RemoteEvent::PingReadFailed).1 == RemoteAction::Exit(Exit::PingTimeout),
        r.after(RemoteEvent::PingRead(0, now)).1 == RemoteAction::Exit(Exit::PingTimeout),
        r.after(RemoteEvent::BytesRead(0, now)).1 is Quiet,
        r.after(RemoteEvent::BytesRead(0, now)).0 == r,
        r.after(event).1 is Exit ==> event is Shutdown || event is PingOpenFailed
            || event is SenderDropped || event is WriteFailed || event is PingFailed
            || event is StreamsClosed || event is PingReadFailed || event is PingRead
            || event is Tick,
        r.after(event).1 == RemoteAction::Exit(Exit::Shutdown) ==> event is Shutdown,
{
}

// *** Connections over byte streams

/// Every message to write is written and every message that was read is handed
/// on; anything that fails ends the connection, for its own reason.
pub proof fn lemma_io(event: IoEvent)
    ensures
        io_remote::io_after(event) is Write <==> event is Outgoing,
        io_remote::io_after(event) is Forward <==> event is Inbound,
        io_remote::io_after(event) == IoAction::Exit(IoExit::Shutdown) <==> event is Shutdown,
        io_remote::io_after(event) == IoAction::Exit(IoExit::OutgoingErr) <==> event is WriteFailed,
        io_remote::io_after(event) == IoAction::Exit(IoExit::SenderDropped)
            <==> event is SenderDropped,
        io_remote::io_after(event) == IoAction::Exit(IoExit::InboundClosed) <==> (
        event is ForwardFailed || event is ReadFailed),
{
}

// *** Frames

/// A frame is the length of the payload in eight bytes, the most significant
/// first, and then the payload.
pub proof fn lemma_frame_layout(data: Seq<u8>)
    requires
        data.len() < 0x1_0000_0000_0000_0000,
    ensures
        ({
            let f = byte_stream::frame(data);
            let n = data.len();
            &&& f.len() == n + 8
            &&& f.skip(8) == data
            &&& f[0] as nat * 0x100_0000_0000_0000 + f[1] as nat * 0x1_0000_0000_0000 + f[2] as nat
                * 0x100_0000_0000 + f[3] as nat * 0x1_0000_0000 + f[4] as nat * 0x100_0000
                + f[5] as nat * 0x1_0000 + f[6] as nat * 0x100 + f[7] as nat == n
        }),
{
    let n = data.len();
    let b = number::be_bytes(n, 8);
    number::lemma_be_len(n, 8);
    let f = byte_stream::frame(data);
    assert(f.skip(8) =~= data);
    assert(f.take(8) =~= b);
    number::lemma_be_range_eight();
    number::lemma_be_round_trip(n, 8);
    number::lemma_be_value_eight(b);
}

/// What is written for a payload: first its length in eight bytes, then the
/// payload in pieces of 65536 bytes, the last of which may be shorter.
pub proof fn lemma_writes(data: Seq<u8>)
    ensures
        byte_stream::writes(data)[0] == byte_stream::frame(data).take(8),
        forall|i: int|
            1 <= i < byte_stream::writes(data).len() - 1 ==> (#[trigger] byte_stream::writes(
                data,
            )[i]).len() == 65536,
        forall|i: int|
            1 <= i < byte_stream::writes(data).len() ==> 0 < (#[trigger] byte_stream::writes(
                data,
            )[i]).len() <= 65536,
        byte_stream::flattened(byte_stream::writes(data)) == byte_stream::frame(data),
{
    byte_stream::lemma_writes_are_frame(data);
    byte_stream::lemma_chunks(data);
    number::lemma_be_len(data.len(), 8);
    assert(byte_stream::frame(data).take(8) =~= number::be_bytes(data.len(), 8));
    lemma_full_chunks(data);
    let w = byte_stream::writes(data);
    let c = byte_stream::chunked(data);
    assert forall|i: int| 1 <= i < w.len() - 1 implies (#[trigger] w[i]).len() == 65536 by {
        assert(w[i] == c[i - 1]);
    }
    assert forall|i: int| 1 <= i < w.len() implies 0 < (#[trigger] w[i]).len() <= 65536 by {
        assert(w[i] == c[i - 1]);
    }
}

proof fn lemma_full_chunks(data: Seq<u8>)
    ensures
        forall|i: int|
            0 <= i < byte_stream::chunked(data).len() - 1 ==> (#[trigger] byte_stream::chunked(
                data,
            )[i]).len() == 65536,
    decreases data.len(),
{
    if data.len() > 65536 {
        let c = byte_stream::chunked(data);
        let rest = byte_stream::chunked(data.skip(65536));
        lemma_full_chunks(data.skip(65536));
        assert forall|i: int| 0 <= i < c.len() - 1 implies (#[trigger] c[i]).len() == 65536 by {
            if i > 0 {
                assert(c[i] == rest[i - 1]);
            }
        }
    }
}

/// Lists of bytes are read one by one.
pub proof fn lemma_byte_views(v: Seq<Vec<u8>>)
    ensures
        byte_stream::byte_views(v).len() == v.len(),
        forall|i: int| 0 <= i < v.len() ==> #[trigger] byte_stream::byte_views(v)[i] == v[i]@,
{
}

/// Pieces flow together in their order.
pub proof fn lemma_flattened(parts: Seq<Seq<u8>>, first: Seq<u8>)
    ensures
        byte_stream::flattened(seq![first] + parts) == first + byte_stream::flattened(parts),
        byte_stream::flattened(Seq::<Seq<u8>>::empty()) == Seq::<u8>::empty(),
{
    assert((seq![first] + parts).drop_first() =~= parts);
}

/// A frame with anything behind it is taken off whole, and what is behind it
/// is left. A frame of which the end is missing is not taken off.
pub proof fn lemma_frame_taken(data: Seq<u8>, rest: Seq<u8>, cut: int)
    requires
        data.len() < 0x1_0000_0000_0000_0000,
        0 <= cut < data.len() + 8,
    ensures
        byte_stream::unframed(byte_stream::frame(data) + rest) == Some((data, rest)),
        byte_stream::unframed(byte_stream::frame(data).take(cut)) is None,
{
    let n = data.len();
    let b = number::be_bytes(n, 8);
    number::lemma_be_len(n, 8);
    number::lemma_be_range_eight();
    number::lemma_be_round_trip(n, 8);
    let f = byte_stream::frame(data);
    let all = f + rest;
    assert(all.take(8) =~= b);
    assert(all.subrange(8, 8 + n as int) =~= data);
    assert(all.skip(8 + n as int) =~= rest);
    let short = f.take(cut);
    if cut >= 8 {
        assert(short.take(8) =~= b);
    }
}

/// A reader asks for the eight bytes of the length first, then for what is
/// missing of the payload but never for more than 65536 bytes at once. Once it
/// is done or has failed it asks for nothing.
pub proof fn lemma_what_is_asked_for(expected: nat, got: Seq<u8>, e: ReadError)
    requires
        got.len() <= expected,
    ensures
        ReadState::Prefix.wanted() == 8,
        expected - got.len() <= 65536 ==> (ReadState::Body { expected, got }).wanted() == expected
            - got.len(),
        expected - got.len() > 65536 ==> (ReadState::Body { expected, got }).wanted() == 65536,
        ReadState::Done(got).wanted() == 0,
        ReadState::Failed(e).wanted() == 0,
{
}

/// A length that is cut short, and a stream that ends before the payload is
/// complete, are failures that tell how much came. What came is kept in order
/// until the payload is complete, and then nothing more is taken.
pub proof fn lemma_reads(expected: nat, got: Seq<u8>, bytes: Seq<u8>, e: ReadError)
    requires
        got.len() < expected <= u64::MAX,
        bytes.len() <= usize::MAX,
        got.len() <= usize::MAX,
    ensures
        bytes.len() < 8 ==> ReadState::Prefix.fed(bytes) == ReadState::Failed(
            ReadError::ShortPrefix { got: bytes.len() as usize },
        ),
        (ReadState::Body { expected, got }).fed(Seq::empty()) == ReadState::Failed(
            ReadError::Eof { expected: expected as u64, got: got.len() as usize },
        ),
        0 < bytes.len() < expected - got.len() ==> (ReadState::Body { expected, got }).fed(bytes) == (
        ReadState::Body { expected, got: got + bytes }),
        0 < bytes.len() && bytes.len() == expected - got.len() ==> (ReadState::Body {
            expected,
            got,
        }).fed(bytes) == ReadState::Done(got + bytes),
        ReadState::Done(got).fed(bytes) == ReadState::Done(got),
        ReadState::Failed(e).fed(bytes) == ReadState::Failed(e),
{
}

/// The eight bytes of a length lead to a payload of that many bytes; one of
/// none is complete at once.
pub proof fn lemma_length_is_read(data: Seq<u8>)
    requires
        data.len() < 0x1_0000_0000_0000_0000,
    ensures
        data.len() > 0 ==> ReadState::Prefix.fed(byte_stream::frame(data).take(8)) == (
        ReadState::Body { expected: data.len(), got: Seq::empty() }),
        data.len() == 0 ==> ReadState::Prefix.fed(byte_stream::frame(data).take(8))
            == ReadState::Done(Seq::empty()),
{
    let n = data.len();
    number::lemma_be_len(n, 8);
    number::lemma_be_range_eight();
    number::lemma_be_round_trip(n, 8);
    assert(byte_stream::frame(data).take(8) =~= number::be_bytes(n, 8));
}

/// What is said of a message that could not be read.
pub proof fn lemma_read_errors_say(got: usize, expected: u64)
    ensures
        (ReadError::ShortPrefix { got }).text()
            == "Failed to read full length (8 bytes) prefix: only got "@ + number::decimal(got as nat)
            + " bytes"@,
        (ReadError::Eof { expected, got }).text() == "EOF while reading content: expected "@
            + number::decimal(expected as nat) + " bytes, got "@ + number::decimal(got as nat),
{
}

// *** Messages and peers

/// What the notices of a channel hold: the peer as the sender, the peer or the
/// reason in the body, and no request.
pub proof fn lemma_notices(m: Message, peer: Seq<char>, reason: Seq<char>)
    ensures
        is_broke(m, peer) <==> (m.host@ == peer && m.body is ConnectionBroke && (
        m.body->ConnectionBroke_peer)@ == peer && m.req_id is None),
        is_serialization_err(m, peer, reason) <==> (m.host@ == peer && m.body is SerializationErr && (
        m.body->SerializationErr_reason)@ == reason && m.req_id is None),
{
}

/// A message that a host sends says who sent it, and holds body and request as
/// they were given.
pub proof fn lemma_messages_are_signed(
    me: Seq<char>,
    req_id: Option<RequestId>,
    msg: Msg,
    m: Message,
)
    ensures
        own_message(me, req_id, msg, m) <==> (m.host@ == me && m.body == msg && m.req_id == req_id),
{
}

/// A peer with a live connection keeps its handle, and no second connection is
/// made. Any other peer gets the new handle.
pub proof fn lemma_one_connection_per_peer(
    c: ChannelView,
    peer: Seq<char>,
    other: Seq<char>,
    handle: u64,
    live: bool,
)
    requires
        other != peer,
    ensures
        c.reserved(peer, handle, live) is None <==> live && c.remotes.contains_key(peer),
        match c.reserved(peer, handle, live) {
            Some(d) => {
                &&& d.me == c.me
                &&& d.remotes.contains_key(peer)
                &&& d.remotes[peer] == handle
                &&& d.remotes.contains_key(other) == c.remotes.contains_key(other)
                &&& c.remotes.contains_key(other) ==> d.remotes[other] == c.remotes[other]
            },
            None => true,
        },
{
}

/// A peer that is disconnected is gone, and every other peer stays.
pub proof fn lemma_disconnected(c: ChannelView, peer: Seq<char>, other: Seq<char>)
    requires
        other != peer,
    ensures
        c.disconnected(peer).me == c.me,
        !c.disconnected(peer).remotes.contains_key(peer),
        c.disconnected(peer).remotes.contains_key(other) == c.remotes.contains_key(other),
        c.remotes.contains_key(other) ==> c.disconnected(peer).remotes[other] == c.remotes[other],
        peer != c.me ==> c.disconnected(peer).target(peer) is Nowhere,
{
}

/// A message to the host itself never leaves it. Any other goes to the handle
/// that the recipient was last connected with, and nowhere without one.
pub proof fn lemma_where_messages_go(
    c: ChannelView,
    peer: Seq<char>,
    handle: u64,
    live: bool,
    recipient: Seq<char>,
)
    ensures
        c.target(c.me) is Loopback,
        recipient != c.me && !c.remotes.contains_key(recipient) ==> c.target(recipient) is Nowhere,
        recipient != c.me && c.remotes.contains_key(recipient) ==> c.target(recipient)
            == Target::Remote(c.remotes[recipient]),
        match c.reserved(peer, handle, live) {
            Some(d) => peer != c.me ==> d.target(peer) == Target::Remote(handle),
            None => true,
        },
{
}

// *** Transport within one process

/// A delay that was asked for is the delay; one at random lies between its
/// bounds, and each number of milliseconds between them comes up for some draw.
pub proof fn lemma_delays(min: u64, max: u64, ms: u64, drawn: u64)
    requires
        min <= max,
        max - min < u64::MAX,
    ensures
        TravelTime::Instant.delay_for(drawn) == 0,
        TravelTime::Ms(ms).delay_for(drawn) == ms,
        min <= TravelTime::Random(min, max).delay_for(drawn) <= max,
        drawn <= max - min ==> TravelTime::Random(min, max).delay_for(drawn) == min + drawn,
{
    let span = max - min + 1;
    assert(0 <= drawn as int % span < span) by (nonlinear_arith)
        requires
            span > 0,
    ;
    if drawn <= max - min {
        vstd::arithmetic::div_mod::lemma_small_mod(drawn as nat, span as nat);
    }
}

/// A message goes to the end of one inbox, and emptying an inbox leaves nothing
/// in it. The channel of the host and every other host stay as they are.
pub proof fn lemma_inboxes(
    t: Map<Seq<char>, HostView>,
    host: Seq<char>,
    other: Seq<char>,
    msg: Message,
)
    requires
        t.contains_key(host),
        other != host,
    ensures
        test_transport::with_message(t, host, msg)[host].inbox == t[host].inbox + seq![msg],
        test_transport::with_message(t, host, msg)[host].channel == t[host].channel,
        test_transport::emptied(t, host)[host].inbox.len() == 0,
        test_transport::emptied(t, host)[host].channel == t[host].channel,
        test_transport::with_message(t, host, msg).contains_key(other) == t.contains_key(other),
        test_transport::emptied(t, host).contains_key(other) == t.contains_key(other),
        t.contains_key(other) ==> test_transport::with_message(t, host, msg)[other] == t[other]
            && test_transport::emptied(t, host)[other] == t[other],
{
    assert(t[host].inbox.push(msg) =~= t[host].inbox + seq![msg]);
}

} // verus!
