//! Frames on byte streams: eight bytes with the length of the payload, most
//! significant first, then the payload.

use crate::number;
use vstd::prelude::*;
use vstd::string::*;

verus! {

/// Most bytes that are written or read at once.
pub const MAX_FRAME_SIZE: usize = 65536;

/// How many bytes the length takes.
pub const PREFIX_LEN: usize = 8;

// *** Writing

/// A payload with its length in front.
pub open spec fn frame(data: Seq<u8>) -> Seq<u8> {
    number::be_bytes(data.len(), 8) + data
}

/// A payload in pieces: all of the largest size but the last.
pub open spec fn chunked(data: Seq<u8>) -> Seq<Seq<u8>>
    decreases data.len(),
{
    if data.len() == 0 {
        Seq::empty()
    } else if data.len() <= MAX_FRAME_SIZE {
        seq![data]
    } else {
        seq![data.take(MAX_FRAME_SIZE as int)] + chunked(data.skip(MAX_FRAME_SIZE as int))
    }
}

/// What is written for a payload, one write after the other.
pub open spec fn writes(data: Seq<u8>) -> Seq<Seq<u8>> {
    seq![number::be_bytes(data.len(), 8)] + chunked(data)
}

/// The contents of byte vectors.
pub open spec fn byte_views(v: Seq<Vec<u8>>) -> Seq<Seq<u8>> {
    Seq::new(v.len(), |i: int| v[i]@)
}

/// All writes one after the other.
pub open spec fn flattened(parts: Seq<Seq<u8>>) -> Seq<u8>
    decreases parts.len(),
{
    if parts.len() == 0 {
        Seq::empty()
    } else {
        parts[0] + flattened(parts.drop_first())
    }
}

fn bytes_between(data: &[u8], from: usize, to: usize) -> (r: Vec<u8>)
    requires
        from <= to <= data@.len(),
    ensures
        r@ == data@.subrange(from as int, to as int),
{
    let mut r: Vec<u8> = Vec::new();
    for i in from..to
        invariant
            from <= i <= to <= data@.len(),
            r@ == data@.subrange(from as int, i as int),
    {
        r.push(data[i]);
    }
    r
}

/// Puts the length in front of a payload.
pub fn frame_bytes(data: &[u8]) -> (r: Vec<u8>)
    ensures
        r@ == frame(data@),
{
    let n: usize = data.len();
    let mut r = number::be_bytes_of(n as u64);
    let ghost head = r@;
    for i in 0..n
        invariant
            n == data@.len(),
            r@ == head + data@.take(i as int),
    {
        r.push(data[i]);
        assert(r@ =~= head + data@.take(i + 1));
    }
    assert(data@.take(n as int) =~= data@);
    r
}

/// The writes that bring a payload over a stream: its length, then the payload
/// in pieces.
pub fn outgoing_writes(data: &[u8]) -> (r: Vec<Vec<u8>>)
    ensures
        byte_views(r@) == writes(data@),
{
    let n: usize = data.len();
    let mut r: Vec<Vec<u8>> = Vec::new();
    r.push(number::be_bytes_of(n as u64));
    assert(byte_views(r@) =~= seq![number::be_bytes(n as nat, 8)]);
    let mut offset: usize = 0;
    assert(data@.skip(0) =~= data@);
    while offset < n
        invariant
            n == data@.len(),
            offset <= n,
            writes(data@) == byte_views(r@) + chunked(data@.skip(offset as int)),
        decreases n - offset,
    {
        let end: usize = if n - offset > MAX_FRAME_SIZE {
            offset + MAX_FRAME_SIZE
        } else {
            n
        };
        let ghost before = r@;
        let ghost rest = data@.skip(offset as int);
        let chunk = bytes_between(data, offset, end);
        let ghost seen = chunk@;
        r.push(chunk);
        assert(byte_views(r@) =~= byte_views(before).push(seen));
        proof {
            if rest.len() <= MAX_FRAME_SIZE {
                assert(seen =~= rest);
                assert(data@.skip(end as int) =~= Seq::<u8>::empty());
                assert(byte_views(before) + seq![rest] =~= byte_views(r@) + Seq::<Seq<u8>>::empty());
            } else {
                assert(seen =~= rest.take(MAX_FRAME_SIZE as int));
                assert(data@.skip(end as int) =~= rest.skip(MAX_FRAME_SIZE as int));
                assert(byte_views(before) + (seq![seen] + chunked(data@.skip(end as int)))
                    =~= byte_views(r@) + chunked(data@.skip(end as int)));
            }
        }
        offset = end;
    }
    assert(byte_views(r@) + Seq::<Seq<u8>>::empty() =~= byte_views(r@));
    r
}

/// The pieces are neither empty nor too large, and together they are the
/// payload.
pub proof fn lemma_chunks(data: Seq<u8>)
    ensures
        flattened(chunked(data)) == data,
        forall|i: int|
            0 <= i < chunked(data).len() ==> 0 < (#[trigger] chunked(data)[i]).len()
                <= MAX_FRAME_SIZE,
    decreases data.len(),
{
    if data.len() == 0 {
        assert(data =~= Seq::<u8>::empty());
    } else if data.len() <= MAX_FRAME_SIZE {
        let c = seq![data];
        assert(c.drop_first() =~= Seq::<Seq<u8>>::empty());
        assert(flattened(c.drop_first()) == Seq::<u8>::empty());
        assert(flattened(c) =~= data);
    } else {
        let head = data.take(MAX_FRAME_SIZE as int);
        let tail = data.skip(MAX_FRAME_SIZE as int);
        lemma_chunks(tail);
        let c = chunked(data);
        assert(c.drop_first() =~= chunked(tail));
        assert(head + tail =~= data);
        assert forall|i: int| 0 <= i < c.len() implies 0 < (#[trigger] c[i]).len()
            <= MAX_FRAME_SIZE by {
            if i > 0 {
                assert(c[i] == chunked(tail)[i - 1]);
            }
        }
    }
}

/// What goes over a stream is the frame of the payload.
pub proof fn lemma_writes_are_frame(data: Seq<u8>)
    ensures
        flattened(writes(data)) == frame(data),
{
    lemma_chunks(data);
    let w = writes(data);
    assert(w.drop_first() =~= chunked(data));
}

// *** Taking a frame off a buffer

/// What is at the start of a buffer: a payload and the rest, or nothing yet.
pub open spec fn unframed(bytes: Seq<u8>) -> Option<(Seq<u8>, Seq<u8>)> {
    if bytes.len() < PREFIX_LEN {
        None
    } else {
        let len = number::be_value(bytes.take(8)) as int;
        if bytes.len() - PREFIX_LEN < len {
            None
        } else {
            Some((bytes.subrange(8, 8 + len), bytes.skip(8 + len)))
        }
    }
}

/// Takes the first payload off a buffer, if all of it is there. Returns it with
/// the number of bytes that it took.
pub fn take_frame(bytes: &[u8]) -> (r: Option<(Vec<u8>, usize)>)
    ensures
        match r {
            Some((data, used)) => {
                &&& used <= bytes@.len()
                &&& unframed(bytes@) == Some((data@, bytes@.skip(used as int)))
            },
            None => unframed(bytes@) is None,
        },
{
    let n: usize = bytes.len();
    if n < PREFIX_LEN {
        return None;
    }
    let prefix = bytes_between(bytes, 0, 8);
    assert(prefix@ =~= bytes@.take(8));
    let len: u64 = number::be_value_of(&prefix);
    if ((n - PREFIX_LEN) as u64) < len {
        return None;
    }
    let end: usize = 8 + len as usize;
    Some((bytes_between(bytes, 8, end), end))
}

/// What was framed comes out again, whatever follows it.
pub proof fn lemma_frame_round_trip(data: Seq<u8>, rest: Seq<u8>)
    requires
        data.len() <= u64::MAX,
    ensures
        unframed(frame(data) + rest) == Some((data, rest)),
{
    let all = frame(data) + rest;
    number::lemma_be_round_trip_64(data.len() as u64);
    assert(all.take(8) =~= number::be_bytes(data.len(), 8));
    assert(all.subrange(8, 8 + data.len() as int) =~= data);
    assert(all.skip(8 + data.len() as int) =~= rest);
}

/// As long as the frame is not complete nothing comes out.
pub proof fn lemma_partial_frame(data: Seq<u8>, n: int)
    requires
        data.len() <= u64::MAX,
        0 <= n < frame(data).len(),
    ensures
        unframed(frame(data).take(n)) is None,
{
    number::lemma_be_round_trip_64(data.len() as u64);
    let part = frame(data).take(n);
    if n >= 8 {
        assert(part.take(8) =~= number::be_bytes(data.len(), 8));
    }
}

// *** Reading a message off a stream

/// Why a message could not be read.
#[derive(Debug, Clone, Copy, PartialEq, Eq, Structural)]
pub enum ReadError {
    /// The stream ended within the length.
    ShortPrefix { got: usize },
    /// The stream ended within the payload.
    Eof { expected: u64, got: usize },
    /// The stream could not be read.
    Broken,
}

impl ReadError {
    /// The message of the error.
    pub open spec fn text(self) -> Seq<char> {
        match self {
            ReadError::ShortPrefix { got } =>
            "Failed to read full length (8 bytes) prefix: only got "@ + number::decimal(got as nat)
                + " bytes"@,
            ReadError::Eof { expected, got } => "EOF while reading content: expected "@
                + number::decimal(expected as nat) + " bytes, got "@ + number::decimal(got as nat),
            ReadError::Broken =>
            "Failed to read from stream because buffer too short which should never happen"@,
        }
    }

    /// The message of the error.
    pub fn message(self) -> (r: String)
        ensures
            r@ == self.text(),
    {
        match self {
            ReadError::ShortPrefix { got } => {
                let mut r = "Failed to read full length (8 bytes) prefix: only got ".to_owned();
                r.append(number::decimal_text(got as u64).as_str());
                r.append(" bytes");
                r
            },
            ReadError::Eof { expected, got } => {
                let mut r = "EOF while reading content: expected ".to_owned();
                r.append(number::decimal_text(expected).as_str());
                r.append(" bytes, got ");
                r.append(number::decimal_text(got as u64).as_str());
                r
            },
            ReadError::Broken =>
            "Failed to read from stream because buffer too short which should never happen".to_owned(),
        }
    }
}

/// How far a message has been read.
pub enum ReadState {
    /// Nothing yet.
    Prefix,
    /// A part of the payload.
    Body { expected: nat, got: Seq<u8> },
    /// All of it.
    Done(Seq<u8>),
    /// It failed.
    Failed(ReadError),
}

/// The state of a payload of which a part has arrived.
pub open spec fn body_state(expected: nat, got: Seq<u8>) -> ReadState {
    if got.len() >= expected {
        ReadState::Done(got)
    } else {
        ReadState::Body { expected, got }
    }
}

impl ReadState {
    /// How many bytes to ask for.
    pub open spec fn wanted(self) -> nat {
        match self {
            ReadState::Prefix => 8,
            ReadState::Body { expected, got } => if expected - got.len() > MAX_FRAME_SIZE {
                MAX_FRAME_SIZE as nat
            } else {
                (expected - got.len()) as nat
            },
            _ => 0,
        }
    }

    /// The state once bytes arrived; none means that the stream ended.
    pub open spec fn fed(self, bytes: Seq<u8>) -> ReadState {
        match self {
            ReadState::Prefix => if bytes.len() < PREFIX_LEN {
                ReadState::Failed(ReadError::ShortPrefix { got: bytes.len() as usize })
            } else {
                body_state(number::be_value(bytes), Seq::empty())
            },
            ReadState::Body { expected, got } => if bytes.len() == 0 {
                ReadState::Failed(
                    ReadError::Eof { expected: expected as u64, got: got.len() as usize },
                )
            } else {
                body_state(expected, got + bytes)
            },
            _ => self,
        }
    }

    /// The state after several reads.
    pub open spec fn fed_all(self, reads: Seq<Seq<u8>>) -> ReadState
        decreases reads.len(),
    {
        if reads.len() == 0 {
            self
        } else {
            self.fed(reads[0]).fed_all(reads.drop_first())
        }
    }
}

enum Progress {
    Prefix,
    Body { expected: u64 },
    Done,
    Failed(ReadError),
}

/// Reads one message off a stream.
pub struct StreamReader {
    progress: Progress,
    buffer: Vec<u8>,
}

impl View for StreamReader {
    type V = ReadState;

    closed spec fn view(&self) -> ReadState {
        match self.progress {
            Progress::Prefix => ReadState::Prefix,
            Progress::Body { expected } => ReadState::Body {
                expected: expected as nat,
                got: self.buffer@,
            },
            Progress::Done => ReadState::Done(self.buffer@),
            Progress::Failed(e) => ReadState::Failed(e),
        }
    }
}

impl StreamReader {
    /// Whether the reader is in order: it has less than it wants.
    pub closed spec fn wf(&self) -> bool {
        match self.progress {
            Progress::Prefix => self.buffer@.len() == 0,
            Progress::Body { expected } => self.buffer@.len() < expected,
            _ => true,
        }
    }

    /// A reader that has read nothing.
    pub fn new() -> (r: StreamReader)
        ensures
            r.wf(),
            r@ is Prefix,
    {
        StreamReader { progress: Progress::Prefix, buffer: Vec::new() }
    }

    /// How many bytes to ask the stream for; none where nothing is left to read.
    pub fn want(&self) -> (r: usize)
        requires
            self.wf(),
        ensures
            r == self@.wanted(),
            r <= MAX_FRAME_SIZE,
    {
        match &self.progress {
            Progress::Prefix => PREFIX_LEN,
            Progress::Body { expected } => {
                let left: u64 = *expected - self.buffer.len() as u64;
                if left > MAX_FRAME_SIZE as u64 {
                    MAX_FRAME_SIZE
                } else {
                    left as usize
                }
            },
            _ => 0,
        }
    }

    /// Takes the bytes that the stream gave; none means that it ended.
    pub fn feed(&mut self, bytes: &[u8])
        requires
            old(self).wf(),
            bytes@.len() <= old(self)@.wanted(),
        ensures
            final(self).wf(),
            final(self)@ == old(self)@.fed(bytes@),
    {
        let n: usize = bytes.len();
        match &self.progress {
            Progress::Prefix => {
                if n < PREFIX_LEN {
                    self.progress = Progress::Failed(ReadError::ShortPrefix { got: n });
                } else {
                    let expected: u64 = number::be_value_of(bytes);
                    assert(self.buffer@ =~= Seq::<u8>::empty());
                    self.progress = if expected == 0 {
                        Progress::Done
                    } else {
                        Progress::Body { expected }
                    };
                }
            },
            Progress::Body { expected } => {
                let expected: u64 = *expected;
                if n == 0 {
                    self.progress = Progress::Failed(
                        ReadError::Eof { expected, got: self.buffer.len() },
                    );
                } else {
                    self.buffer.extend_from_slice(bytes);
                    assert(self.buffer@ =~= old(self).buffer@ + bytes@);
                    self.progress = if self.buffer.len() as u64 >= expected {
                        Progress::Done
                    } else {
                        Progress::Body { expected }
                    };
                }
            },
            _ => {},
        }
    }

    /// Notes that the stream could not be read.
    pub fn fail(&mut self)
        requires
            !(old(self)@ is Done),
            !(old(self)@ is Failed),
        ensures
            final(self).wf(),
            final(self)@ == ReadState::Failed(ReadError::Broken),
    {
        self.progress = Progress::Failed(ReadError::Broken);
    }

    /// The payload, or why there is none; nothing while there is more to read.
    pub fn outcome(&self) -> (r: Option<Result<&[u8], ReadError>>)
        ensures
            match r {
                None => self@ is Prefix || self@ is Body,
                Some(Ok(data)) => self@ == ReadState::Done(data@),
                Some(Err(e)) => self@ == ReadState::Failed(e),
            },
    {
        match &self.progress {
            Progress::Prefix => None,
            Progress::Body { .. } => None,
            Progress::Done => Some(Ok(self.buffer.as_slice())),
            Progress::Failed(e) => Some(Err(*e)),
        }
    }
}

/// Whether none of several reads came back empty.
pub open spec fn all_full(reads: Seq<Seq<u8>>) -> bool {
    forall|i: int| 0 <= i < reads.len() ==> (#[trigger] reads[i]).len() > 0
}

proof fn lemma_fed_all_then(s: ReadState, a: Seq<Seq<u8>>, b: Seq<Seq<u8>>)
    ensures
        s.fed_all(a + b) == s.fed_all(a).fed_all(b),
    decreases a.len(),
{
    if a.len() == 0 {
        assert(a + b =~= b);
    } else {
        assert((a + b).drop_first() =~= a.drop_first() + b);
        lemma_fed_all_then(s.fed(a[0]), a.drop_first(), b);
    }
}

proof fn lemma_body_fed(expected: nat, done: Seq<u8>, reads: Seq<Seq<u8>>)
    requires
        all_full(reads),
        done.len() < expected,
        done.len() + flattened(reads).len() <= expected,
    ensures
        (ReadState::Body { expected, got: done }).fed_all(reads) == body_state(
            expected,
            done + flattened(reads),
        ),
    decreases reads.len(),
{
    if reads.len() == 0 {
        assert(done + flattened(reads) =~= done);
    } else {
        let rest = reads.drop_first();
        let now = done + reads[0];
        assert(flattened(reads) == reads[0] + flattened(rest));
        assert(now + flattened(rest) =~= done + flattened(reads));
        if rest.len() == 0 {
            assert(now + flattened(rest) =~= now);
        } else {
            assert(rest[0] == reads[1]);
            assert(all_full(rest)) by {
                assert forall|i: int| 0 <= i < rest.len() implies (#[trigger] rest[i]).len() > 0 by {
                    assert(rest[i] == reads[i + 1]);
                }
            }
            lemma_body_fed(expected, now, rest);
        }
    }
}

/// Whoever reads the length and then the payload gets the payload, in whatever
/// pieces it arrives.
pub proof fn lemma_read_gives_written(data: Seq<u8>, pieces: Seq<Seq<u8>>)
    requires
        data.len() <= u64::MAX,
        all_full(pieces),
        flattened(pieces) == data,
    ensures
        ReadState::Prefix.fed_all(seq![number::be_bytes(data.len(), 8)] + pieces)
            == ReadState::Done(data),
{
    number::lemma_be_round_trip_64(data.len() as u64);
    let all = seq![number::be_bytes(data.len(), 8)] + pieces;
    assert(all.drop_first() =~= pieces);
    let s = ReadState::Prefix.fed(all[0]);
    if data.len() == 0 {
        if pieces.len() > 0 {
            assert(pieces[0].len() > 0);
        }
        assert(s.fed_all(pieces) == s);
        assert(data =~= Seq::<u8>::empty());
    } else {
        lemma_body_fed(data.len(), Seq::empty(), pieces);
        assert(Seq::<u8>::empty() + flattened(pieces) =~= data);
    }
}

/// In particular whoever reads the writes of a payload one by one gets the
/// payload.
pub proof fn lemma_read_gives_writes(data: Seq<u8>)
    requires
        data.len() <= u64::MAX,
    ensures
        ReadState::Prefix.fed_all(writes(data)) == ReadState::Done(data),
{
    lemma_chunks(data);
    lemma_read_gives_written(data, chunked(data));
}

/// A stream that ends within the payload never yields a message: it fails, and
/// the failure tells how much was expected and how much came.
pub proof fn lemma_early_end_fails(len: u64, pieces: Seq<Seq<u8>>)
    requires
        all_full(pieces),
        flattened(pieces).len() < len,
    ensures
        ReadState::Prefix.fed_all(
            seq![number::be_bytes(len as nat, 8)] + pieces + seq![Seq::<u8>::empty()],
        ) == ReadState::Failed(
            ReadError::Eof { expected: len, got: flattened(pieces).len() as usize },
        ),
{
    number::lemma_be_round_trip_64(len);
    let end = seq![Seq::<u8>::empty()];
    let head = seq![number::be_bytes(len as nat, 8)];
    assert((head + pieces).drop_first() =~= pieces);
    lemma_fed_all_then(ReadState::Prefix, head + pieces, end);
    lemma_body_fed(len as nat, Seq::empty(), pieces);
    assert(Seq::<u8>::empty() + flattened(pieces) =~= flattened(pieces));
    let s = ReadState::Body { expected: len as nat, got: flattened(pieces) };
    assert(end.drop_first() =~= Seq::<Seq<u8>>::empty());
    assert(s.fed(end[0]).fed_all(end.drop_first()) == s.fed(end[0]));
}

} // verus!
