use vstd::prelude::*;
use md5::Digest;
use crate::checksum::{md5_fed, Md5Stream};
use crate::text::{chars_of, decimal, decimal_string, push_char, starts_with, starts_with_text, string_from_chars};

verus! {

broadcast use vstd::string::group_string_axioms;

/// The MD5 digest of a byte string, as computed by the `md-5` crate.
pub uninterp spec fn md5_of(data: Seq<u8>) -> Seq<u8>;

/// The 16-byte MD5 digest of `data` (`md5::Md5::digest`, whose output size is
/// sixteen bytes).
#[verifier::external_body]
fn md5_digest(data: &[u8]) -> (d: Vec<u8>)
    ensures
        d@ == md5_of(data@),
        d@.len() == 16,
{
    md5::Md5::digest(data).to_vec()
}

/// A lowercase hexadecimal digit.
pub open spec fn hex_digit(n: int) -> char {
    if n < 10 { (n + 48) as char } else { (n + 87) as char }
}

/// Bytes spelled in lowercase hexadecimal, two digits per byte, high digit
/// first (what `{:x}` prints for a digest).
pub open spec fn lower_hex(bytes: Seq<u8>) -> Seq<char>
    decreases bytes.len(),
{
    if bytes.len() == 0 {
        Seq::empty()
    } else {
        lower_hex(bytes.drop_last()) + seq![hex_digit((bytes.last() / 16) as int), hex_digit((bytes.last() % 16) as int)]
    }
}

/// The hexadecimal digit for a value below sixteen.
fn hex_char(n: u8) -> (c: char)
    requires
        n < 16,
    ensures
        c == hex_digit(n as int),
{
    if n < 10 { (n + 48u8) as char } else { (n + 87u8) as char }
}

/// Bytes spelled in lowercase hexadecimal.
pub fn to_lower_hex(bytes: &Vec<u8>) -> (s: String)
    ensures
        s@ == lower_hex(bytes@),
{
    let mut s = String::new();
    let mut i: usize = 0;
    while i < bytes.len()
        invariant
            i <= bytes@.len(),
            s@ == lower_hex(bytes@.take(i as int)),
        decreases bytes@.len() - i,
    {
        let b = bytes[i];
        let ghost t = bytes@.take(i + 1);
        assert(t.drop_last() =~= bytes@.take(i as int));
        push_char(&mut s, hex_char(b / 16));
        push_char(&mut s, hex_char(b % 16));
        assert(s@ =~= lower_hex(t));
        i = i + 1;
    }
    assert(bytes@.take(bytes@.len() as int) =~= bytes@);
    s
}

/// The MD5 digest of `data` in lowercase hexadecimal.
pub fn md5_hex(data: &[u8]) -> (s: String)
    ensures
        s@ == lower_hex(md5_of(data@)),
{
    let d = md5_digest(data);
    to_lower_hex(&d)
}

/// The trailer a peer sends after the data of a chunk.
pub open spec fn md5_trailer_text(data: Seq<u8>) -> Seq<char> {
    "MD5:"@ + lower_hex(md5_of(data))
}

/// The trailer announcing an already computed digest.
pub fn digest_trailer(digest: &Vec<u8>) -> (s: String)
    ensures
        s@ == "MD5:"@ + lower_hex(digest@),
{
    let mut s = "MD5:".to_owned();
    let h = to_lower_hex(digest);
    s.append(h.as_str());
    s
}

/// The trailer announcing the MD5 digest of the data sent for a chunk.
pub fn md5_trailer(data: &[u8]) -> (s: String)
    ensures
        s@ == md5_trailer_text(data@),
{
    digest_trailer(&md5_digest(data))
}

/// The HTTP `Range` value asking for bytes `start..=end`.
pub open spec fn range_text(start: u64, end: u64) -> Seq<char> {
    "bytes="@ + decimal(start as nat) + "-"@ + decimal(end as nat)
}

/// The HTTP `Range` value asking for bytes `start..=end`.
pub fn range_header_value(start: u64, end: u64) -> (s: String)
    ensures
        s@ == range_text(start, end),
{
    let mut s = "bytes=".to_owned();
    s.append(decimal_string(start).as_str());
    s.append("-");
    s.append(decimal_string(end).as_str());
    s
}

/// The serving side of a chunk stream: it hands out the file offset of each
/// data message and, at the end, the trailer announcing the digest of every
/// byte it sent. The hasher is fed exactly the bytes sent.
pub struct ChunkSender {
    hasher: Md5Stream,
    start: u64,
    next_offset: u64,
}

impl ChunkSender {
    /// The bytes sent so far.
    pub closed spec fn sent(&self) -> Seq<u8> {
        md5_fed(self.hasher)
    }

    /// The offset of the first byte of the chunk.
    pub closed spec fn start(&self) -> u64 {
        self.start
    }

    /// Well formed: the next offset is just past the bytes sent.
    pub closed spec fn wf(&self) -> bool {
        self.next_offset == self.start + md5_fed(self.hasher).len()
    }

    /// A chunk starting at file offset `start`, nothing sent yet.
    pub fn new(start: u64) -> (s: Self)
        ensures
            s.wf(),
            s.start() == start,
            s.sent() == Seq::<u8>::empty(),
    {
        ChunkSender { hasher: Md5Stream::new(), start, next_offset: start }
    }

    /// Records that `data` is sent next and returns the file offset it
    /// starts at.
    pub fn send(&mut self, data: &[u8]) -> (offset: u64)
        requires
            old(self).wf(),
            old(self).start() + old(self).sent().len() + data@.len() <= u64::MAX,
        ensures
            final(self).wf(),
            final(self).start() == old(self).start(),
            final(self).sent() == old(self).sent() + data@,
            offset == old(self).start() + old(self).sent().len(),
    {
        let offset = self.next_offset;
        self.hasher.update(data);
        self.next_offset = offset + data.len() as u64;
        offset
    }

    /// The offset just past the bytes sent.
    pub fn end_offset(&self) -> (o: u64)
        requires
            self.wf(),
        ensures
            o == self.start() + self.sent().len(),
    {
        self.next_offset
    }

    /// The trailer closing the chunk: the digest of every byte sent.
    pub fn trailer(self) -> (t: String)
        ensures
            t@ == md5_trailer_text(self.sent()),
    {
        self.hasher.trailer()
    }
}

/// A chunk stream may hold at most this many unwritten bytes.
pub const MAX_BUFFERED: usize = 10 * 1024 * 1024;

/// Why a chunk stream was abandoned.
pub enum StreamError {
    /// The digest announced by the peer differs from that of the data.
    Md5Mismatch { remote: String, local: String },
    /// The peer reported an error instead of data.
    PeerError(String),
    /// More unwritten data arrived than a chunk may hold.
    TooLarge,
}

/// What to do after a message of a chunk stream.
pub enum StreamStep {
    /// Nothing to write yet.
    Continue,
    /// Write `bytes` at file offset `offset`.
    Write { offset: u64, bytes: Vec<u8> },
}

/// Collects the data of one chunk as a peer streams it: every byte received
/// (the digest covers them all), how many of them were already handed out
/// for writing, and the file offset of the first data message.
pub struct ChunkAssembler {
    pub received: Vec<u8>,
    pub flushed: usize,
    pub write_offset: u64,
    pub first_chunk: bool,
}

/// The plain contents of a `ChunkAssembler`.
pub struct AssemblyState {
    pub received: Seq<u8>,
    pub flushed: nat,
    pub write_offset: u64,
    pub first_chunk: bool,
}

impl View for ChunkAssembler {
    type V = AssemblyState;

    open spec fn view(&self) -> AssemblyState {
        AssemblyState {
            received: self.received@,
            flushed: self.flushed as nat,
            write_offset: self.write_offset,
            first_chunk: self.first_chunk,
        }
    }
}

/// The outcome of one message, as plain values.
pub enum StepOutcome {
    Continue,
    Write { offset: u64, bytes: Seq<u8> },
    Md5Mismatch { remote: Seq<char>, local: Seq<char> },
    PeerError(Seq<char>),
    TooLarge,
}

/// The plain outcome of an `on_message` result.
pub open spec fn outcome_of(r: Result<StreamStep, StreamError>) -> StepOutcome {
    match r {
        Ok(StreamStep::Continue) => StepOutcome::Continue,
        Ok(StreamStep::Write { offset, bytes }) => StepOutcome::Write { offset, bytes: bytes@ },
        Err(StreamError::Md5Mismatch { remote, local }) => StepOutcome::Md5Mismatch { remote: remote@, local: local@ },
        Err(StreamError::PeerError(m)) => StepOutcome::PeerError(m@),
        Err(StreamError::TooLarge) => StepOutcome::TooLarge,
    }
}

/// The messages of a chunk stream: `MD5:` followed by a digest closes the
/// data; any other non-empty text is an error from the peer.
pub open spec fn is_trailer(msg: Seq<char>) -> bool {
    starts_with_text(msg, "MD5:"@)
}

/// An assembler that has received nothing.
pub open spec fn fresh_assembly() -> AssemblyState {
    AssemblyState { received: Seq::empty(), flushed: 0, write_offset: 0, first_chunk: true }
}

/// One message of a chunk stream (`data`, its file `offset` and the text
/// `msg`) taken by an assembler in state `a`: the next state and the outcome.
/// A trailer is checked against the digest of everything received: on a
/// match the unwritten bytes are handed out for writing at the offset of the
/// first data message, on a mismatch the stream fails. Another non-empty text
/// fails the stream with the peer's error. Data is appended (the first data
/// message fixes the write offset), and the stream fails once more than
/// `MAX_BUFFERED` bytes wait to be written. An empty message changes nothing.
pub open spec fn feed(a: AssemblyState, data: Seq<u8>, offset: u64, msg: Seq<char>) -> (AssemblyState, StepOutcome) {
    if is_trailer(msg) {
        let local = lower_hex(md5_of(a.received));
        let remote = msg.skip(4);
        if remote == local {
            (
                AssemblyState { flushed: a.received.len(), ..a },
                if a.flushed < a.received.len() {
                    StepOutcome::Write { offset: a.write_offset, bytes: a.received.skip(a.flushed as int) }
                } else {
                    StepOutcome::Continue
                },
            )
        } else {
            (a, StepOutcome::Md5Mismatch { remote, local })
        }
    } else if msg.len() > 0 {
        (a, StepOutcome::PeerError(msg))
    } else if data.len() == 0 {
        (a, StepOutcome::Continue)
    } else {
        let b = AssemblyState {
            received: a.received + data,
            flushed: a.flushed,
            write_offset: if a.first_chunk { offset } else { a.write_offset },
            first_chunk: false,
        };
        (b, if b.received.len() - b.flushed > MAX_BUFFERED { StepOutcome::TooLarge } else { StepOutcome::Continue })
    }
}

impl ChunkAssembler {
    /// An assembler that has received nothing.
    pub fn new() -> (a: Self)
        ensures
            a@ == fresh_assembly(),
    {
        let a = ChunkAssembler { received: Vec::new(), flushed: 0, write_offset: 0, first_chunk: true };
        assert(a@.received =~= fresh_assembly().received);
        a
    }

    /// Well formed: no more bytes handed out than received.
    pub open spec fn wf(&self) -> bool {
        self.flushed <= self.received@.len()
    }

    /// Bytes received so far.
    pub fn total_bytes(&self) -> (n: u64)
        ensures
            n == self.received@.len(),
    {
        self.received.len() as u64
    }

    /// Takes one message of the stream, as `feed` says.
    pub fn on_message(&mut self, data: &Vec<u8>, offset: u64, error_msg: &str) -> (r: Result<StreamStep, StreamError>)
        requires
            old(self).wf(),
            old(self).received@.len() + data@.len() <= usize::MAX,
        ensures
            final(self).wf(),
            (final(self)@, outcome_of(r)) == feed(old(self)@, data@, offset, error_msg@),
    {
        if starts_with(error_msg, "MD5:") {
            proof {
                reveal_strlit("MD5:");
            }
            let chars = chars_of(error_msg);
            let mut rest: Vec<char> = Vec::new();
            let mut i: usize = 4;
            while i < chars.len()
                invariant
                    chars@ == error_msg@,
                    4 <= i <= chars@.len(),
                    rest@ == error_msg@.subrange(4, i as int),
                decreases chars@.len() - i,
            {
                rest.push(chars[i]);
                assert(rest@ =~= error_msg@.subrange(4, i + 1));
                i = i + 1;
            }
            let remote = string_from_chars(&rest);
            let local = md5_hex(self.received.as_slice());
            if remote != local {
                return Err(StreamError::Md5Mismatch { remote, local });
            }
            let n = self.received.len();
            if self.flushed < n {
                let mut bytes: Vec<u8> = Vec::new();
                let mut k: usize = self.flushed;
                while k < n
                    invariant
                        n == self.received@.len(),
                        self.flushed <= k <= n,
                        bytes@ == self.received@.subrange(self.flushed as int, k as int),
                    decreases n - k,
                {
                    bytes.push(self.received[k]);
                    assert(bytes@ =~= self.received@.subrange(self.flushed as int, k + 1));
                    k = k + 1;
                }
                let offset = self.write_offset;
                self.flushed = n;
                return Ok(StreamStep::Write { offset, bytes });
            }
            self.flushed = n;
            return Ok(StreamStep::Continue);
        }
        if !error_msg.is_empty() {
            return Err(StreamError::PeerError(error_msg.to_owned()));
        }
        if data.len() == 0 {
            return Ok(StreamStep::Continue);
        }
        if self.first_chunk {
            self.write_offset = offset;
            self.first_chunk = false;
        }
        let ghost before = self.received@;
        let ghost wo = self.write_offset;
        let mut j: usize = 0;
        while j < data.len()
            invariant
                self.received@ == before + data@.take(j as int),
                self.flushed == old(self).flushed,
                self.flushed <= before.len(),
                self.write_offset == wo,
                !self.first_chunk,
                before.len() + data@.len() <= usize::MAX,
                j <= data@.len(),
            decreases data@.len() - j,
        {
            self.received.push(data[j]);
            assert(self.received@ =~= before + data@.take(j + 1));
            j = j + 1;
        }
        assert(data@.take(data@.len() as int) =~= data@);
        if self.received.len() - self.flushed > MAX_BUFFERED {
            return Err(StreamError::TooLarge);
        }
        Ok(StreamStep::Continue)
    }
}

} // verus!

verus! {

/// Law of chunk integrity: the trailer a peer sends after the bytes `data`
/// is recognised as a trailer, and the digest it announces is exactly the
/// one a receiver computes over the same bytes; so a receiver that got the
/// bytes intact accepts the chunk, and `on_message` flags a mismatch only
/// when the bytes differ in digest.
pub proof fn lemma_trailer_matches_intact_data(data: Seq<u8>)
    ensures
        is_trailer(md5_trailer_text(data)),
        md5_trailer_text(data).skip(4) == lower_hex(md5_of(data)),
{
    reveal_strlit("MD5:");
    let t = md5_trailer_text(data);
    assert(t.subrange(0, 4) =~= "MD5:"@);
    assert(t.skip(4) =~= lower_hex(md5_of(data)));
}

} // verus!

verus! {

/// The bytes of a stream's data messages, in order.
pub open spec fn joined(parts: Seq<(Seq<u8>, u64)>) -> Seq<u8>
    decreases parts.len(),
{
    if parts.len() == 0 { Seq::empty() } else { joined(parts.drop_last()) + parts.last().0 }
}

/// The assembler after taking each data message of `parts` (with no text) in
/// order, starting from `a`.
pub open spec fn feed_parts(a: AssemblyState, parts: Seq<(Seq<u8>, u64)>) -> AssemblyState
    decreases parts.len(),
{
    if parts.len() == 0 {
        a
    } else {
        feed(feed_parts(a, parts.drop_last()), parts.last().0, parts.last().1, Seq::empty()).0
    }
}

proof fn lemma_joined_prefix_grows(parts: Seq<(Seq<u8>, u64)>, k: int)
    requires
        0 <= k <= parts.len(),
    ensures
        joined(parts.take(k)).len() <= joined(parts).len(),
    decreases parts.len() - k,
{
    if k < parts.len() {
        lemma_joined_prefix_grows(parts, k + 1);
        assert(parts.take(k + 1).drop_last() =~= parts.take(k));
    } else {
        assert(parts.take(k) =~= parts);
    }
}

proof fn lemma_feed_prefix(parts: Seq<(Seq<u8>, u64)>, k: int)
    requires
        0 <= k <= parts.len(),
        forall|i: int| 0 <= i < parts.len() ==> (#[trigger] parts[i]).0.len() > 0,
        joined(parts).len() <= MAX_BUFFERED,
    ensures
        feed_parts(fresh_assembly(), parts.take(k)) == (AssemblyState {
            received: joined(parts.take(k)),
            flushed: 0,
            write_offset: if k == 0 { 0 } else { parts[0].1 },
            first_chunk: k == 0,
        }),
        forall|j: int|
            0 <= j < k ==> #[trigger] feed(feed_parts(fresh_assembly(), parts.take(j)), parts[j].0, parts[j].1, Seq::empty()).1
                == StepOutcome::Continue,
    decreases k,
{
    if k == 0 {
        assert(parts.take(0) =~= Seq::<(Seq<u8>, u64)>::empty());
        assert(joined(parts.take(0)) =~= Seq::<u8>::empty());
    } else {
        lemma_feed_prefix(parts, k - 1);
        let t = parts.take(k);
        assert(t.drop_last() =~= parts.take(k - 1));
        assert(t.last() == parts[k - 1]);
        lemma_joined_prefix_grows(parts, k);
        reveal_strlit("MD5:");
        assert(!is_trailer(Seq::<char>::empty()));
    }
}

/// Law of chunk transfer: when a peer streams the bytes of a chunk as
/// non-empty data messages and closes with the trailer of exactly those
/// bytes, no message before the trailer fails, and the trailer hands out
/// every byte, in order, for writing at the offset of the first message
/// (within the `MAX_BUFFERED` bound a chunk may hold).
pub proof fn lemma_intact_stream_is_written(parts: Seq<(Seq<u8>, u64)>, end_offset: u64)
    requires
        parts.len() > 0,
        forall|i: int| 0 <= i < parts.len() ==> (#[trigger] parts[i]).0.len() > 0,
        joined(parts).len() <= MAX_BUFFERED,
    ensures
        forall|j: int|
            0 <= j < parts.len() ==> #[trigger] feed(feed_parts(fresh_assembly(), parts.take(j)), parts[j].0, parts[j].1, Seq::empty()).1
                == StepOutcome::Continue,
        feed(feed_parts(fresh_assembly(), parts), Seq::empty(), end_offset, md5_trailer_text(joined(parts))).1
            == (StepOutcome::Write { offset: parts[0].1, bytes: joined(parts) }),
{
    let n = parts.len() as int;
    lemma_feed_prefix(parts, n);
    assert(parts.take(n) =~= parts);
    lemma_trailer_matches_intact_data(joined(parts));
    let j = joined(parts);
    assert(j.len() > 0) by {
        assert(parts.drop_last() + seq![parts.last()] =~= parts);
        assert(parts.last() == parts[n - 1]);
    }
    assert(j.skip(0) =~= j);
}

} // verus!

verus! {

/// The bytes of a list of pieces, in order.
pub open spec fn concat_pieces(parts: Seq<Seq<u8>>) -> Seq<u8>
    decreases parts.len(),
{
    if parts.len() == 0 { Seq::empty() } else { concat_pieces(parts.drop_last()) + parts.last() }
}

/// The data messages a `ChunkSender` started at `start` produces for the
/// pieces `parts`: each piece with the offset `send` hands out for it.
pub open spec fn served_parts(start: u64, parts: Seq<Seq<u8>>) -> Seq<(Seq<u8>, u64)> {
    Seq::new(parts.len(), |i: int| (parts[i], (start + concat_pieces(parts.take(i)).len()) as u64))
}

proof fn lemma_served_joined(start: u64, parts: Seq<Seq<u8>>)
    ensures
        joined(served_parts(start, parts)) == concat_pieces(parts),
    decreases parts.len(),
{
    if parts.len() > 0 {
        let d = parts.drop_last();
        assert(served_parts(start, parts).drop_last() =~= served_parts(start, d)) by {
            assert forall|i: int| 0 <= i < d.len() implies d.take(i) == parts.take(i) by {
                assert(d.take(i) =~= parts.take(i));
            }
        }
        lemma_served_joined(start, d);
    }
}

/// Law of serving a chunk: the messages a `ChunkSender` started at `start`
/// produces for non-empty pieces, closed by its trailer, make a receiver
/// write exactly the bytes sent, in order, at `start`, with no message
/// failing before (within the `MAX_BUFFERED` bound a chunk may hold).
pub proof fn lemma_served_chunk_is_received(start: u64, parts: Seq<Seq<u8>>, end_offset: u64)
    requires
        parts.len() > 0,
        forall|i: int| 0 <= i < parts.len() ==> (#[trigger] parts[i]).len() > 0,
        concat_pieces(parts).len() <= MAX_BUFFERED,
    ensures
        forall|j: int|
            0 <= j < parts.len() ==> #[trigger] feed(
                feed_parts(fresh_assembly(), served_parts(start, parts).take(j)),
                parts[j],
                served_parts(start, parts)[j].1,
                Seq::empty(),
            ).1 == StepOutcome::Continue,
        feed(feed_parts(fresh_assembly(), served_parts(start, parts)), Seq::empty(), end_offset, md5_trailer_text(concat_pieces(parts))).1
            == (StepOutcome::Write { offset: start, bytes: concat_pieces(parts) }),
{
    let sp = served_parts(start, parts);
    lemma_served_joined(start, parts);
    assert(parts.take(0) =~= Seq::<Seq<u8>>::empty());
    assert(sp[0].1 == start);
    assert forall|i: int| 0 <= i < sp.len() implies (#[trigger] sp[i]).0.len() > 0 by {
        assert(sp[i].0 == parts[i]);
    }
    lemma_intact_stream_is_written(sp, end_offset);
    assert forall|j: int| 0 <= j < parts.len() implies #[trigger] feed(
        feed_parts(fresh_assembly(), sp.take(j)),
        parts[j],
        sp[j].1,
        Seq::empty(),
    ).1 == StepOutcome::Continue by {
        assert(sp[j].0 == parts[j]);
    }
}

} // verus!
