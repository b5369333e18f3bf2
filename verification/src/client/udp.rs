//! The UDP client: it packs the lines of a write into datagrams. Queries
//! cannot be made over UDP.

use crate::client::batch::{batch, chunks, lemma_chunks_of_views, slices};
use crate::client::http::MAX_BATCH;
use crate::client::{answered, ClientError, ClientErrorView, Precision};
use crate::measurement::{Measurement, MeasurementView};
use crate::serializer::{measured, serialize_all, serialized, Serializer};
use crate::text::texts;
use vstd::prelude::*;
use vstd::seq_lib::lemma_flatten_concat;
use vstd::utf8::encode_utf8;

verus! {

/// The number of bytes that a datagram is meant to hold at most.
pub const MAX_UDP_PACKET_LEN: usize = 65535;

/// The byte that ends each line of a datagram.
pub const NEWLINE: u8 = 10;

/// Datagrams that are complete, and the buffer that is being filled.
pub struct Packing {
    pub sent: Seq<Seq<u8>>,
    pub buffer: Seq<u8>,
}

/// Takes one more line. Where line and buffer together stay under the limit,
/// the line and its newline go to the end of the buffer. Where they do not,
/// the buffer is sent as it is, even if it is empty, and a new buffer starts
/// with the line.
pub open spec fn pack_line(state: Packing, line: Seq<u8>, limit: int) -> Packing {
    if line.len() + state.buffer.len() < limit {
        Packing { sent: state.sent, buffer: state.buffer + line.push(NEWLINE) }
    } else {
        Packing { sent: state.sent.push(state.buffer), buffer: line.push(NEWLINE) }
    }
}

/// Takes all lines in their order, from an empty buffer.
pub open spec fn pack_lines(lines: Seq<Seq<u8>>, limit: int) -> Packing
    decreases lines.len(),
{
    if lines.len() == 0 {
        Packing { sent: Seq::empty(), buffer: Seq::empty() }
    } else {
        pack_line(pack_lines(lines.drop_last(), limit), lines.last(), limit)
    }
}

/// The datagrams for the lines of one chunk: those that were sent while the
/// lines were taken, and the buffer that is left unless it is empty.
pub open spec fn datagrams_of(lines: Seq<Seq<u8>>, limit: int) -> Seq<Seq<u8>> {
    let state = pack_lines(lines, limit);
    if state.buffer.len() > 0 {
        state.sent.push(state.buffer)
    } else {
        state.sent
    }
}

/// All lines one after the other, each with its newline.
pub open spec fn stream_of(lines: Seq<Seq<u8>>) -> Seq<u8>
    decreases lines.len(),
{
    if lines.len() == 0 {
        Seq::empty()
    } else {
        stream_of(lines.drop_last()) + lines.last().push(NEWLINE)
    }
}

proof fn lemma_packing_keeps_lines(lines: Seq<Seq<u8>>, limit: int)
    ensures
        pack_lines(lines, limit).sent.flatten() + pack_lines(lines, limit).buffer == stream_of(
            lines,
        ),
    decreases lines.len(),
{
    if lines.len() == 0 {
        assert(Seq::<Seq<u8>>::empty().flatten() + Seq::<u8>::empty() =~= Seq::<u8>::empty());
    } else {
        let before = pack_lines(lines.drop_last(), limit);
        lemma_packing_keeps_lines(lines.drop_last(), limit);
        let line = lines.last();
        if line.len() + before.buffer.len() < limit {
            assert(before.sent.flatten() + (before.buffer + line.push(NEWLINE)) =~= (
            before.sent.flatten() + before.buffer) + line.push(NEWLINE));
        } else {
            before.sent.lemma_flatten_push(before.buffer);
        }
    }
}

/// The datagrams hold the lines, each with its newline, in their order:
/// nothing is lost and nothing is sent twice.
pub proof fn lemma_datagrams_keep_lines(lines: Seq<Seq<u8>>, limit: int)
    ensures
        datagrams_of(lines, limit).flatten() == stream_of(lines),
{
    let state = pack_lines(lines, limit);
    lemma_packing_keeps_lines(lines, limit);
    if state.buffer.len() > 0 {
        state.sent.lemma_flatten_push(state.buffer);
    } else {
        assert(state.sent.flatten() + state.buffer =~= state.sent.flatten());
    }
}

proof fn lemma_packing_bounded(lines: Seq<Seq<u8>>, limit: int)
    requires
        forall|i: int| 0 <= i < lines.len() ==> (#[trigger] lines[i]).len() < limit,
    ensures
        lines.len() > 0 ==> 0 < pack_lines(lines, limit).buffer.len() <= limit,
        forall|i: int|
            0 <= i < pack_lines(lines, limit).sent.len() ==> 0 < (#[trigger] pack_lines(
                lines,
                limit,
            ).sent[i]).len() <= limit,
    decreases lines.len(),
{
    if lines.len() > 0 {
        let front = lines.drop_last();
        assert forall|i: int| 0 <= i < front.len() implies (#[trigger] front[i]).len() < limit by {
            assert(front[i] == lines[i]);
        }
        lemma_packing_bounded(front, limit);
        let before = pack_lines(front, limit);
        let line = lines.last();
        assert(line == lines[lines.len() - 1]);
        if line.len() + before.buffer.len() < limit {
        } else {
            assert(before.buffer.len() > 0);
            assert(front.len() > 0);
        }
    }
}

/// Where every line is shorter than the limit, no datagram is longer than
/// the limit and none is empty.
pub proof fn lemma_datagrams_bounded(lines: Seq<Seq<u8>>, limit: int)
    requires
        forall|i: int| 0 <= i < lines.len() ==> (#[trigger] lines[i]).len() < limit,
    ensures
        forall|i: int|
            0 <= i < datagrams_of(lines, limit).len() ==> 0 < (#[trigger] datagrams_of(
                lines,
                limit,
            )[i]).len() <= limit,
{
    lemma_packing_bounded(lines, limit);
}

/// The bytes of each line.
pub open spec fn encoded(lines: Seq<Seq<char>>) -> Seq<Seq<u8>> {
    lines.map_values(|line: Seq<char>| encode_utf8(line))
}

/// The bytes of each datagram.
pub open spec fn payloads(datagrams: Seq<Vec<u8>>) -> Seq<Seq<u8>> {
    datagrams.map_values(|d: Vec<u8>| d@)
}

fn push_bytes(buffer: &mut Vec<u8>, bytes: &[u8])
    ensures
        final(buffer)@ == old(buffer)@ + bytes@,
{
    let mut i: usize = 0;
    while i < bytes.len()
        invariant
            i <= bytes.len(),
            buffer@ == old(buffer)@ + bytes@.take(i as int),
        decreases bytes.len() - i,
    {
        buffer.push(bytes[i]);
        assert(bytes@.take(i + 1) =~= bytes@.take(i as int).push(bytes@[i as int]));
        i = i + 1;
    }
    assert(bytes@.take(bytes.len() as int) =~= bytes@);
}

/// Packs the lines of one chunk into datagrams and appends them to
/// `datagrams`.
///
/// A line that alone reaches the limit is not held back: it is sent in a
/// datagram of its own, which is then longer than the limit. Where every
/// line is shorter than the limit, no datagram is longer than the limit and
/// none is empty.
pub fn pack(datagrams: &mut Vec<Vec<u8>>, lines: &Vec<String>, limit: usize)
    ensures
        payloads(final(datagrams)@) == payloads(old(datagrams)@) + datagrams_of(
            encoded(texts(lines@)),
            limit as int,
        ),
{
    let ghost all = encoded(texts(lines@));
    let ghost start = payloads(datagrams@);
    let mut buffer: Vec<u8> = Vec::new();
    let mut i: usize = 0;
    proof {
        assert(start + Seq::<Seq<u8>>::empty() =~= start);
    }
    while i < lines.len()
        invariant
            i <= lines.len(),
            all == encoded(texts(lines@)),
            payloads(datagrams@) == start + pack_lines(all.take(i as int), limit as int).sent,
            buffer@ == pack_lines(all.take(i as int), limit as int).buffer,
        decreases lines.len() - i,
    {
        let line = lines[i].as_str().as_bytes();
        let ghost before = pack_lines(all.take(i as int), limit as int);
        proof {
            assert(all.take(i + 1).drop_last() =~= all.take(i as int));
            assert(all.take(i + 1).last() == line@);
        }
        if line.len() < limit && buffer.len() < limit - line.len() {
            push_bytes(&mut buffer, line);
            buffer.push(NEWLINE);
            assert(buffer@ =~= before.buffer + line@.push(NEWLINE));
        } else {
            let ghost sent = payloads(datagrams@);
            let mut next: Vec<u8> = Vec::new();
            push_bytes(&mut next, line);
            next.push(NEWLINE);
            core::mem::swap(&mut buffer, &mut next);
            datagrams.push(next);
            assert(buffer@ =~= line@.push(NEWLINE));
            assert(payloads(datagrams@) =~= sent.push(before.buffer));
            assert(sent.push(before.buffer) =~= start + before.sent.push(before.buffer));
        }
        i = i + 1;
    }
    proof {
        assert(all.take(lines.len() as int) =~= all);
    }
    if buffer.len() > 0 {
        let ghost sent = payloads(datagrams@);
        datagrams.push(buffer);
        assert(payloads(datagrams@) =~= sent.push(buffer@));
        assert(sent.push(buffer@) =~= start + datagrams_of(all, limit as int));
    }
}

/// The datagrams of several chunks, chunk after chunk: the lines of each
/// chunk are packed for themselves, so that no datagram holds lines of two
/// chunks.
pub open spec fn chunk_datagrams(chunk_lines: Seq<Seq<Seq<char>>>, limit: int) -> Seq<Seq<u8>>
    decreases chunk_lines.len(),
{
    if chunk_lines.len() == 0 {
        Seq::empty()
    } else {
        chunk_datagrams(chunk_lines.drop_last(), limit) + datagrams_of(
            encoded(chunk_lines.last()),
            limit,
        )
    }
}

proof fn lemma_stream_of_concat(a: Seq<Seq<u8>>, b: Seq<Seq<u8>>)
    ensures
        stream_of(a + b) == stream_of(a) + stream_of(b),
    decreases b.len(),
{
    if b.len() == 0 {
        assert(a + b =~= a);
        assert(stream_of(a) + stream_of(b) =~= stream_of(a));
    } else {
        lemma_stream_of_concat(a, b.drop_last());
        assert((a + b).drop_last() =~= a + b.drop_last());
        assert((a + b).last() == b.last());
        assert(stream_of(a + b) =~= stream_of(a) + stream_of(b));
    }
}

/// The datagrams of all chunks hold the lines of all chunks, each with its
/// newline, in their order: nothing is lost and nothing is sent twice.
pub proof fn lemma_chunk_datagrams_keep_lines(chunk_lines: Seq<Seq<Seq<char>>>, limit: int)
    ensures
        chunk_datagrams(chunk_lines, limit).flatten() == stream_of(encoded(chunk_lines.flatten())),
    decreases chunk_lines.len(),
{
    if chunk_lines.len() == 0 {
        assert(chunk_lines.flatten() =~= Seq::<Seq<char>>::empty());
        assert(encoded(chunk_lines.flatten()) =~= Seq::<Seq<u8>>::empty());
        assert(chunk_datagrams(chunk_lines, limit).flatten() =~= Seq::<u8>::empty());
    } else {
        let front = chunk_lines.drop_last();
        let last = chunk_lines.last();
        lemma_chunk_datagrams_keep_lines(front, limit);
        lemma_datagrams_keep_lines(encoded(last), limit);
        lemma_flatten_concat(chunk_datagrams(front, limit), datagrams_of(encoded(last), limit));
        assert(chunk_lines =~= front.push(last));
        front.lemma_flatten_push(last);
        assert(encoded(front.flatten() + last) =~= encoded(front.flatten()) + encoded(last));
        lemma_stream_of_concat(encoded(front.flatten()), encoded(last));
    }
}

/// Where every line of every chunk is shorter than the limit, no datagram of
/// any chunk is longer than the limit and none is empty.
pub proof fn lemma_chunk_datagrams_bounded(chunk_lines: Seq<Seq<Seq<char>>>, limit: int)
    requires
        forall|c: int, k: int|
            0 <= c < chunk_lines.len() && 0 <= k < chunk_lines[c].len() ==> encode_utf8(
                #[trigger] chunk_lines[c][k],
            ).len() < limit,
    ensures
        forall|i: int|
            0 <= i < chunk_datagrams(chunk_lines, limit).len() ==> 0 < (#[trigger] chunk_datagrams(
                chunk_lines,
                limit,
            )[i]).len() <= limit,
    decreases chunk_lines.len(),
{
    if chunk_lines.len() > 0 {
        let front = chunk_lines.drop_last();
        let last = chunk_lines.last();
        assert forall|c: int, k: int|
            0 <= c < front.len() && 0 <= k < front[c].len() implies encode_utf8(
            #[trigger] front[c][k],
        ).len() < limit by {
            assert(front[c] == chunk_lines[c]);
        }
        lemma_chunk_datagrams_bounded(front, limit);
        assert forall|k: int| 0 <= k < encoded(last).len() implies (#[trigger] encoded(
            last,
        )[k]).len() < limit by {
            assert(last == chunk_lines[chunk_lines.len() - 1]);
            assert(encoded(last)[k] == encode_utf8(chunk_lines[chunk_lines.len() - 1][k]));
        }
        lemma_datagrams_bounded(encoded(last), limit);
        let before = chunk_datagrams(front, limit);
        let here = datagrams_of(encoded(last), limit);
        assert forall|i: int| 0 <= i < chunk_datagrams(chunk_lines, limit).len() implies 0 < (
        #[trigger] chunk_datagrams(chunk_lines, limit)[i]).len() <= limit by {
            if i < before.len() {
                assert(chunk_datagrams(chunk_lines, limit)[i] == before[i]);
            } else {
                assert(chunk_datagrams(chunk_lines, limit)[i] == here[i - before.len()]);
            }
        }
    }
}

/// The UDP client: it serializes measurements with `S` and packs the lines
/// into datagrams for the first of its hosts.
pub struct UdpClient<'a, S> {
    serializer: S,
    hosts: Vec<&'a str>,
    pub max_batch: u16,
}

/// What a `UdpClient` stands for, but for its serializer.
pub struct UdpClientView {
    pub hosts: Seq<Seq<char>>,
    pub max_batch: u16,
}

impl<'a, S> View for UdpClient<'a, S> {
    type V = UdpClientView;

    closed spec fn view(&self) -> UdpClientView {
        UdpClientView { hosts: self.hosts@.map_values(|h: &'a str| h@), max_batch: self.max_batch }
    }
}

/// What a query over UDP is answered with.
pub open spec fn query_refused() -> Result<Seq<char>, ClientErrorView> {
    Err(ClientErrorView::CouldNotComplete("querying is not supported over UDP"@))
}

impl<'a, S> UdpClient<'a, S> {
    /// The serializer that writes the lines.
    pub closed spec fn writer(&self) -> S {
        self.serializer
    }

    /// A client without hosts that serializes up to `MAX_BATCH` measurements
    /// at a time.
    pub fn new(serializer: S) -> (r: UdpClient<'a, S>)
        ensures
            r@ == (UdpClientView { hosts: Seq::empty(), max_batch: MAX_BATCH }),
            r.writer() == serializer,
    {
        let r = UdpClient { serializer: serializer, hosts: Vec::new(), max_batch: MAX_BATCH };
        assert(r.hosts@.map_values(|h: &'a str| h@) =~= Seq::<Seq<char>>::empty());
        r
    }

    /// Adds a host. Datagrams go to the host that was added first.
    pub fn add_host(&mut self, host: &'a str)
        ensures
            final(self)@ == (UdpClientView { hosts: old(self)@.hosts.push(host@), ..old(self)@ }),
            final(self).writer() == old(self).writer(),
    {
        self.hosts.push(host);
        assert(self.hosts@.map_values(|h: &'a str| h@) =~= old(self).hosts@.map_values(
            |h: &'a str| h@,
        ).push(host@));
    }

    /// The number of hosts that were added.
    pub fn host_count(&self) -> (r: usize)
        ensures
            r == self@.hosts.len(),
    {
        self.hosts.len()
    }

    /// The host that datagrams go to: the first one.
    pub fn get_host(&self) -> (r: &'a str)
        requires
            self@.hosts.len() > 0,
        ensures
            r@ == self@.hosts[0],
    {
        self.hosts[0]
    }

    /// Queries cannot be made over UDP: every query is refused.
    pub fn query(&self, _q: String, _epoch: Option<Precision>) -> (r: Result<String, ClientError>)
        ensures
            answered(r) == query_refused(),
    {
        Err(ClientError::CouldNotComplete("querying is not supported over UDP".to_owned()))
    }
}

impl<'a, S: Serializer> UdpClient<'a, S> {
    /// The lines are what the serializer of the client writes for the
    /// measurements, chunk by chunk.
    pub open spec fn serialized_in_chunks(
        &self,
        measurements: Seq<MeasurementView>,
        chunk_lines: Seq<Seq<Seq<char>>>,
    ) -> bool {
        let pieces = chunks(measurements, self@.max_batch as int);
        &&& chunk_lines.len() == pieces.len()
        &&& forall|c: int|
            0 <= c < pieces.len() ==> serialized(&self.writer(), pieces[c], #[trigger] chunk_lines[c])
    }

    /// The datagrams that write the measurements: the measurements are taken
    /// in chunks of at most `max_batch`, the serializer writes one line for
    /// each measurement of a chunk, and the lines of each chunk are packed
    /// as `pack` does it, with `MAX_UDP_PACKET_LEN` as the limit.
    pub fn datagrams(&self, measurements: &[Measurement<'_>]) -> (r: Vec<Vec<u8>>)
        requires
            self@.max_batch > 0,
        ensures
            exists|chunk_lines: Seq<Seq<Seq<char>>>|
                self.serialized_in_chunks(measured(measurements@), chunk_lines) && payloads(r@)
                    == #[trigger] chunk_datagrams(chunk_lines, MAX_UDP_PACKET_LEN as int),
            measurements@.len() == 0 ==> r@.len() == 0,
    {
        let pieces = batch(measurements, self.max_batch as usize);
        let ghost all = chunks(measured(measurements@), self@.max_batch as int);
        proof {
            lemma_chunks_of_views(measurements@, self@.max_batch as int);
            assert(slices(pieces@).len() == pieces@.len());
            assert forall|c: int| 0 <= c < pieces@.len() implies measured(
                #[trigger] pieces@[c]@,
            ) == all[c] by {
                assert(slices(pieces@)[c] == pieces@[c]@);
            }
        }
        let mut out: Vec<Vec<u8>> = Vec::new();
        let ghost mut written: Seq<Seq<Seq<char>>> = Seq::empty();
        let mut i: usize = 0;
        proof {
            assert(payloads(out@) =~= Seq::<Seq<u8>>::empty());
        }
        while i < pieces.len()
            invariant
                i <= pieces.len(),
                all.len() == pieces@.len(),
                forall|c: int| 0 <= c < pieces@.len() ==> measured(#[trigger] pieces@[c]@) == all[c],
                written.len() == i,
                forall|c: int|
                    0 <= c < i ==> serialized(&self.writer(), all[c], #[trigger] written[c]),
                payloads(out@) == chunk_datagrams(written, MAX_UDP_PACKET_LEN as int),
            decreases pieces.len() - i,
        {
            let lines = serialize_all(&self.serializer, pieces[i]);
            pack(&mut out, &lines, MAX_UDP_PACKET_LEN);
            proof {
                let before = written;
                written = written.push(texts(lines@));
                assert(written.drop_last() =~= before);
            }
            i = i + 1;
        }
        proof {
            assert(self.serialized_in_chunks(measured(measurements@), written));
            if measurements@.len() == 0 {
                assert(payloads(out@).len() == out@.len());
            }
        }
        out
    }
}

} // verus!
