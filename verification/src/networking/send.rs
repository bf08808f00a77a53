//! The sending side of a connection: passing on what the workers have queued.
//!
//! The intended communication pattern is a sequence of (header, message)^* for valid
//! messages, followed by a header for a zero length message indicating the end of stream.

use vstd::prelude::*;

use crate::networking::bytes::{be_bytes, be_u64};
use crate::networking::delivery::{
    law_handing_over_loses_nothing, law_stream_is_delivered, well_formed_stream,
};
use crate::networking::framing::{
    all_messages, concat, frames, headers_in, is_message, law_header_and_data_are_message,
    lemma_concat_append,
};
use crate::networking::handshake::{QUEUE_MAGIC, law_queue_greeting_accepted};
use crate::networking::header::{MessageHeader, decode};
use crate::networking::receive::{
    ReceiverView, Verdict, delivered, for_local_workers, law_local_targets, lemma_filter_one,
    lemma_stops_append, lemma_stops_one, stops,
};

verus! {

/// The header that announces the end of a stream.
pub open spec fn end_header() -> MessageHeader {
    MessageHeader { channel: 0, source: 0, target_lower: 0, target_upper: 0, length: 0, seqno: 0 }
}

/// Bytes to write, and the headers of the messages in them.
pub struct Outgoing {
    /// The bytes.
    pub bytes: Vec<u8>,
    /// The headers of the messages in the bytes, which are to be logged.
    pub headers: Vec<MessageHeader>,
}

/// What a sending thread does next.
pub enum SendStep {
    /// Drain all sources.
    Drain,
    /// Write what has been drained, in order.
    Write(Vec<Outgoing>),
    /// Flush what has been written, and ask each source whether it is complete.
    Flush,
    /// Wait to be woken.
    Park,
    /// Write the last header as these bytes, flush, and shut down.
    Finish(MessageHeader, Vec<u8>),
}

/// The sources that are not complete.
pub open spec fn incomplete<S>(sources: Seq<S>, complete: Seq<bool>) -> Seq<S>
    recommends
        sources.len() == complete.len(),
    decreases sources.len(),
{
    if sources.len() == 0 {
        Seq::empty()
    } else {
        let before = incomplete(sources.drop_last(), complete.drop_last());
        if complete.last() {
            before
        } else {
            before.push(sources.last())
        }
    }
}

/// What is written for a stash of bytes.
pub open spec fn is_outgoing(outgoing: Seq<Outgoing>, stash: Seq<Vec<u8>>) -> bool {
    &&& outgoing.len() == stash.len()
    &&& forall|i: int|
        0 <= i < stash.len() ==> {
            &&& (#[trigger] outgoing[i]).bytes@ == stash[i]@
            &&& outgoing[i].headers@ == frames(stash[i]@).map_values(
                |frame: Seq<u8>| decode(frame),
            )
        }
}

/// What a sender does with `sources` left.
pub open spec fn is_next<S>(step: SendStep, sources: Seq<S>) -> bool {
    if sources.len() > 0 {
        step == SendStep::Drain
    } else {
        step matches SendStep::Finish(header, bytes) && header == end_header() && bytes@
            == end_header().encode()
    }
}

/// Sends what a number of sources hold, until all of them are complete.
pub struct Sender<S> {
    /// The sources that are not complete.
    pub sources: Vec<S>,
}

impl<S> Sender<S> {
    /// What to do next: as long as there are sources they are drained, and then the stream is ended
    /// with a header for a zero length message.
    pub fn next(&self) -> (step: SendStep)
        ensures
            is_next(step, self.sources@),
            self.sources@.len() > 0 ==> step == SendStep::Drain,
            self.sources@.len() == 0 ==> {
                &&& step matches SendStep::Finish(header, bytes)
                &&& header.length == 0
                &&& bytes@ == header.encode()
            },
    {
        if self.sources.len() > 0 {
            SendStep::Drain
        } else {
            // Would be better with meaningful metadata, but as this stream merges many
            // workers it isn't clear that there is anything specific to write here.
            let header = MessageHeader {
                channel: 0,
                source: 0,
                target_lower: 0,
                target_upper: 0,
                length: 0,
                seqno: 0,
            };
            let mut bytes: Vec<u8> = Vec::new();
            header.write_to(&mut bytes);
            assert(bytes@ =~= end_header().encode());
            SendStep::Finish(header, bytes)
        }
    }

    /// What to do with what has been drained from the sources. Where it is nothing, there is time
    /// to flush and to look for sources that are complete.
    pub fn drained(&self, stash: Vec<Vec<u8>>) -> (step: SendStep)
        ensures
            stash@.len() == 0 ==> step == SendStep::Flush,
            stash@.len() > 0 ==> (step matches SendStep::Write(outgoing) && is_outgoing(
                outgoing@,
                stash@,
            )),
            step matches SendStep::Write(outgoing) ==> {
                &&& outgoing@.len() == stash@.len()
                &&& forall|i: int|
                    0 <= i < stash@.len() ==> (#[trigger] outgoing@[i]).bytes@ == stash@[i]@
                &&& forall|i: int|
                    0 <= i < stash@.len() ==> (#[trigger] outgoing@[i]).headers@ == frames(
                        stash@[i]@,
                    ).map_values(|frame: Seq<u8>| decode(frame))
            },
    {
        if stash.len() == 0 {
            return SendStep::Flush;
        }
        let ghost all = stash@;
        let mut outgoing: Vec<Outgoing> = Vec::new();
        for bytes in iter: stash
            invariant
                iter.seq() == all,
                is_outgoing(outgoing@, all.take(iter.index() as int)),
        {
            let headers = headers_in(bytes.as_slice());
            let ghost before = outgoing@;
            outgoing.push(Outgoing { bytes, headers });
            assert forall|i: int| 0 <= i < outgoing@.len() implies {
                &&& (#[trigger] outgoing@[i]).bytes@ == all[i]@
                &&& outgoing@[i].headers@ == frames(all[i]@).map_values(
                    |frame: Seq<u8>| decode(frame),
                )
            } by {
                if i < before.len() {
                    assert(outgoing@[i] == before[i]);
                    assert(all.take(iter.index() as int)[i] == all[i]);
                }
            }
        }
        assert(all.take(all.len() as int) =~= all);
        SendStep::Write(outgoing)
    }

    /// Lets go of the sources that are complete, and tells what to do next: there is a signal to
    /// wait for only if some source is left.
    pub fn flushed(&mut self, complete: &Vec<bool>) -> (step: SendStep)
        requires
            complete@.len() == old(self).sources@.len(),
        ensures
            final(self).sources@ == incomplete(old(self).sources@, complete@),
            final(self).sources@.len() == complete@.to_multiset().count(false),
            forall|i: int|
                0 <= i < complete@.len() && !complete@[i] ==> final(self).sources@[complete@.take(
                    i,
                ).to_multiset().count(false) as int] == #[trigger] old(self).sources@[i],
            final(self).sources@.len() > 0 ==> step == SendStep::Park,
            final(self).sources@.len() == 0 ==> is_next(step, final(self).sources@),
    {
        let ghost all = self.sources@;
        let mut sources: Vec<S> = Vec::new();
        sources.append(&mut self.sources);
        assert(sources@ =~= all);
        let mut kept: Vec<S> = Vec::new();
        let total: usize = complete.len();
        let mut i: usize = 0;
        for source in iter: sources
            invariant
                iter.seq() == all,
                i == iter.index(),
                complete@.len() == all.len(),
                total == all.len(),
                kept@ == incomplete(all.take(i as int), complete@.take(i as int)),
        {
            assert(all.take(i + 1).drop_last() =~= all.take(i as int));
            assert(complete@.take(i + 1).drop_last() =~= complete@.take(i as int));
            if !complete[i] {
                kept.push(source);
            }
            i = i + 1;
        }
        assert(all.take(all.len() as int) =~= all);
        assert(complete@.take(all.len() as int) =~= complete@);
        proof {
            lemma_incomplete_len(all, complete@);
            assert forall|i: int|
                0 <= i < complete@.len() && !complete@[i] implies kept@[complete@.take(
                i,
            ).to_multiset().count(false) as int] == #[trigger] all[i] by {
                law_incomplete_sources_are_kept(all, complete@, i);
            }
        }
        self.sources = kept;
        if self.sources.len() > 0 {
            SendStep::Park
        } else {
            self.next()
        }
    }
}

/// Where no source is complete all are kept, and where all are none is.
pub proof fn law_incomplete_extremes<S>(sources: Seq<S>, complete: Seq<bool>)
    requires
        sources.len() == complete.len(),
    ensures
        (forall|i: int| 0 <= i < complete.len() ==> !#[trigger] complete[i]) ==> incomplete(
            sources,
            complete,
        ) == sources,
        (forall|i: int| 0 <= i < complete.len() ==> #[trigger] complete[i]) ==> incomplete(
            sources,
            complete,
        ).len() == 0,
    decreases sources.len(),
{
    if sources.len() > 0 {
        let (s, c) = (sources.drop_last(), complete.drop_last());
        law_incomplete_extremes(s, c);
        assert(complete[complete.len() - 1] == complete.last());
        if forall|i: int| 0 <= i < complete.len() ==> !#[trigger] complete[i] {
            assert(forall|i: int| 0 <= i < c.len() ==> c[i] == complete[i]);
            assert(incomplete(sources, complete) =~= sources);
        }
        if forall|i: int| 0 <= i < complete.len() ==> #[trigger] complete[i] {
            assert(forall|i: int| 0 <= i < c.len() ==> c[i] == complete[i]);
        }
    } else {
        assert(incomplete(sources, complete) =~= sources);
    }
}

/// The sources that are kept are those that are not complete, in order: each of them is kept, behind
/// as many as there are before it that are not complete either, and there are no others.
pub proof fn law_incomplete_sources_are_kept<S>(sources: Seq<S>, complete: Seq<bool>, i: int)
    requires
        sources.len() == complete.len(),
        0 <= i < complete.len(),
    ensures
        incomplete(sources, complete).len() == complete.to_multiset().count(false),
        !complete[i] ==> {
            let place = complete.take(i).to_multiset().count(false) as int;
            &&& place < incomplete(sources, complete).len()
            &&& incomplete(sources, complete)[place] == sources[i]
        },
    decreases sources.len(),
{
    let (s, c) = (sources.drop_last(), complete.drop_last());
    lemma_incomplete_len(sources, complete);
    lemma_incomplete_len(s, c);
    if i < s.len() {
        law_incomplete_sources_are_kept(s, c, i);
        assert(complete.take(i) =~= c.take(i));
    } else {
        assert(complete.take(i) =~= c);
    }
}

/// As many sources are kept as are not complete.
proof fn lemma_incomplete_len<S>(sources: Seq<S>, complete: Seq<bool>)
    requires
        sources.len() == complete.len(),
    ensures
        incomplete(sources, complete).len() == complete.to_multiset().count(false),
    decreases sources.len(),
{
    broadcast use vstd::seq_lib::group_to_multiset_ensures;

    if sources.len() > 0 {
        let c = complete.drop_last();
        lemma_incomplete_len(sources.drop_last(), c);
        assert(complete =~= c.push(complete.last()));
    } else {
        assert(complete =~= Seq::empty());
    }
}

/// A stream is ended by a header for a message without data, all of whose bytes are zero.
pub proof fn law_end_of_a_stream()
    ensures
        end_header().length == 0,
        end_header().encode().len() == 48,
        forall|i: int| 0 <= i < 48 ==> #[trigger] end_header().encode()[i] == 0,
{
    assert((0u64 >> 56) as u8 == 0 && (0u64 >> 48) as u8 == 0 && (0u64 >> 40) as u8 == 0 && (0u64
        >> 32) as u8 == 0 && (0u64 >> 24) as u8 == 0 && (0u64 >> 16) as u8 == 0 && (0u64
        >> 8) as u8 == 0 && 0u64 as u8 == 0) by (bit_vector);
    let zeros = Seq::new(8, |i: int| 0u8);
    assert(be_bytes(0) =~= zeros);
    assert(end_header().encode() =~= zeros + zeros + zeros + zeros + zeros + zeros);
}

/// Whether `messages` can be sent to the `workers` workers from `first_worker` on: each is a
/// message with data for these workers.
pub open spec fn sendable(messages: Seq<Seq<u8>>, first_worker: int, workers: nat) -> bool {
    &&& all_messages(messages)
    &&& forall|i: int|
        0 <= i < messages.len() ==> {
            &&& decode(#[trigger] messages[i]).length > 0
            &&& for_local_workers(decode(messages[i]), first_worker, workers)
        }
}

/// What can be sent to a process is a list of messages with data, each for workers of this process.
pub proof fn law_what_can_be_sent(messages: Seq<Seq<u8>>, first_worker: int, workers: nat)
    ensures
        sendable(messages, first_worker, workers) <==> forall|i: int|
            0 <= i < messages.len() ==> {
                let header = decode(#[trigger] messages[i]);
                &&& messages[i].len() == 48 + header.length
                &&& header.length > 0
                &&& header.target_lower >= header.target_upper || (first_worker
                    <= header.target_lower && header.target_upper <= first_worker + workers)
            },
{
    assert forall|i: int| 0 <= i < messages.len() implies for_local_workers(
        decode(#[trigger] messages[i]),
        first_worker,
        workers,
    ) == (decode(messages[i]).target_lower >= decode(messages[i]).target_upper || (first_worker
        <= decode(messages[i]).target_lower && decode(messages[i]).target_upper <= first_worker
        + workers)) by {
        law_local_targets(decode(messages[i]), first_worker, workers);
    }
    if sendable(messages, first_worker, workers) {
        assert forall|i: int| 0 <= i < messages.len() implies (#[trigger] messages[i]).len() == 48
            + decode(messages[i]).length by {
            assert(is_message(messages[i]));
        }
    }
}

/// Messages and the header behind them are a well-formed stream, of which each worker gets the
/// messages that are addressed to it.
pub(crate) proof fn lemma_sent_stream(messages: Seq<Seq<u8>>, first_worker: int, workers: nat)
    requires
        sendable(messages, first_worker, workers),
    ensures
        ({
            let parts = messages.push(end_header().encode());
            &&& well_formed_stream(parts, 1, first_worker, workers)
            &&& concat(parts) == concat(messages) + end_header().encode()
            &&& forall|worker: int| #[trigger]
                delivered(parts, worker) == delivered(messages, worker)
        }),
{
    let end = end_header().encode();
    let parts = messages.push(end);
    assert(parts =~= messages + seq![end]);
    law_header_and_data_are_message(end_header(), Seq::empty());
    assert(end + Seq::<u8>::empty() =~= end);
    lemma_concat_append(messages, seq![end]);
    reveal_with_fuel(concat, 2);
    assert(concat(seq![end]) =~= end);
    lemma_no_stops(messages);
    lemma_stops_append(messages, seq![end]);
    lemma_stops_one(end);
    assert forall|i: int| 0 <= i < parts.len() implies is_message(#[trigger] parts[i]) by {
        if i < messages.len() {
            assert(parts[i] == messages[i]);
        }
    }
    assert forall|i: int|
        0 <= i < parts.len() && decode(parts[i]).length > 0 implies for_local_workers(
        decode(#[trigger] parts[i]),
        first_worker,
        workers,
    ) by {
        assert(parts[i] == messages[i]);
    }
    assert forall|worker: int| #[trigger]
        delivered(parts, worker) == delivered(messages, worker) by {
        let pred = |part: Seq<u8>| decode(part).length > 0 && decode(part).targets(worker);
        Seq::filter_distributes_over_add(messages, seq![end], pred);
        lemma_filter_one(end, pred);
        assert(delivered(messages, worker) + Seq::<Seq<u8>>::empty() =~= delivered(
            messages,
            worker,
        ));
    }
}

/// Messages with data announce no end.
proof fn lemma_no_stops(messages: Seq<Seq<u8>>)
    requires
        forall|i: int| 0 <= i < messages.len() ==> decode(#[trigger] messages[i]).length > 0,
    ensures
        stops(messages) == 0,
    decreases messages.len(),
{
    reveal(Seq::filter);
    if messages.len() > 0 {
        let init = messages.drop_last();
        assert forall|i: int| 0 <= i < init.len() implies decode(#[trigger] init[i]).length
            > 0 by {
            assert(init[i] == messages[i]);
        }
        lemma_no_stops(init);
        assert(decode(messages[messages.len() - 1]).length > 0);
    }
}

/// What is sent is received. However the bytes of `messages` are stashed by the sender, and
/// however the stream is cut by the network, each worker of the receiving process is handed
/// exactly the messages that are addressed to it, whole and in the order in which they were sent;
/// the last read is the one that ends the stream, and nothing is left over.
pub proof fn law_sent_is_received(
    v: ReceiverView,
    messages: Seq<Seq<u8>>,
    stashed: Seq<Seq<u8>>,
    reads: Seq<Seq<u8>>,
    k: int,
)
    requires
        v.buffer.len() == 0,
        v.senders == 1,
        v.staged.len() == v.workers,
        0 <= k < v.workers,
        v.staged[k].len() == 0,
        sendable(messages, v.first_worker, v.workers),
        concat(stashed) == concat(messages),
        concat(reads) == concat(stashed) + end_header().encode(),
        forall|i: int| 0 <= i < reads.len() ==> (#[trigger] reads[i]).len() > 0,
    ensures
        reads.len() > 0,
        v.all_open(reads.drop_last()),
        v.absorb_all(reads.drop_last()).judge(reads.last()) == Verdict::Ended,
        v.handed(reads, k) == delivered(messages, v.first_worker + k),
        v.absorb_all(reads).buffer.len() == 0,
{
    let parts = messages.push(end_header().encode());
    lemma_sent_stream(messages, v.first_worker, v.workers);
    law_stream_is_delivered(v, parts, 1, reads);
    law_handing_over_loses_nothing(v, reads, k);
    assert(v.absorb_all(reads).staged[k] == v.staged[k] + delivered(parts, v.first_worker + k));
    assert(delivered(parts, v.first_worker + k) == delivered(messages, v.first_worker + k));
    assert(v.staged[k] + delivered(messages, v.first_worker + k) =~= delivered(
        messages,
        v.first_worker + k,
    ));
}

/// All that is written to one of several streams of a connection: the greeting of the stream, what
/// has been drained from the sources, and the header that ends the stream.
pub open spec fn queue_stream(stashed: Seq<Seq<u8>>) -> Seq<u8> {
    be_bytes(QUEUE_MAGIC) + concat(stashed) + end_header().encode()
}

/// What is sent over one of several streams of a connection is received. The stream begins as its
/// receiver asks for, and however what follows is cut by the network, each worker of the receiving
/// process is handed exactly the messages that are addressed to it, whole and in the order in which
/// they were sent; the last read is the one that ends the stream, and nothing is left over.
pub proof fn law_queued_is_received(
    v: ReceiverView,
    messages: Seq<Seq<u8>>,
    stashed: Seq<Seq<u8>>,
    reads: Seq<Seq<u8>>,
    k: int,
)
    requires
        v.buffer.len() == 0,
        v.senders == 1,
        v.staged.len() == v.workers,
        0 <= k < v.workers,
        v.staged[k].len() == 0,
        sendable(messages, v.first_worker, v.workers),
        concat(stashed) == concat(messages),
        concat(reads) == queue_stream(stashed).skip(8),
        forall|i: int| 0 <= i < reads.len() ==> (#[trigger] reads[i]).len() > 0,
    ensures
        be_u64(queue_stream(stashed).take(8), 0) == QUEUE_MAGIC,
        reads.len() > 0,
        v.all_open(reads.drop_last()),
        v.absorb_all(reads.drop_last()).judge(reads.last()) == Verdict::Ended,
        v.handed(reads, k) == delivered(messages, v.first_worker + k),
        v.absorb_all(reads).buffer.len() == 0,
{
    law_queue_greeting_accepted();
    assert(queue_stream(stashed).take(8) =~= be_bytes(QUEUE_MAGIC));
    assert(queue_stream(stashed).skip(8) =~= concat(stashed) + end_header().encode());
    law_sent_is_received(v, messages, stashed, reads, k);
}

/// The messages that are for one worker each.
pub open spec fn are_point_to_point(messages: Seq<Seq<u8>>) -> bool {
    &&& all_messages(messages)
    &&& forall|i: int|
        0 <= i < messages.len() ==> {
            &&& decode(#[trigger] messages[i]).length > 0
            &&& decode(messages[i]).target_upper == decode(messages[i]).target_lower + 1
        }
}

/// What of `messages` goes to the process of the `workers` workers from `first_worker` on.
pub open spec fn to_process(
    messages: Seq<Seq<u8>>,
    first_worker: int,
    workers: nat,
) -> Seq<Seq<u8>> {
    messages.filter(
        |m: Seq<u8>| first_worker <= decode(m).target_lower < first_worker + workers,
    )
}

/// What of `messages` is addressed to worker `worker`.
pub open spec fn to_worker(messages: Seq<Seq<u8>>, worker: int) -> Seq<Seq<u8>> {
    messages.filter(|m: Seq<u8>| decode(m).target_lower == worker)
}

/// What of `messages` belongs to channel `channel`.
pub open spec fn on_channel(messages: Seq<Seq<u8>>, channel: usize) -> Seq<Seq<u8>> {
    messages.filter(|m: Seq<u8>| decode(m).channel == channel)
}

/// What goes to a process is for its workers, and each gets what is addressed to it.
#[verifier::spinoff_prover]
#[verifier::rlimit(40)]
proof fn lemma_to_process(messages: Seq<Seq<u8>>, first_worker: int, workers: nat, worker: int)
    requires
        are_point_to_point(messages),
        first_worker <= worker < first_worker + workers,
    ensures
        sendable(to_process(messages, first_worker, workers), first_worker, workers),
        delivered(to_process(messages, first_worker, workers), worker) == to_worker(
            messages,
            worker,
        ),
    decreases messages.len(),
{
    reveal(Seq::filter);
    let parts = to_process(messages, first_worker, workers);
    if messages.len() > 0 {
        let (init, last) = (messages.drop_last(), messages.last());
        assert forall|i: int| 0 <= i < init.len() implies is_message(#[trigger] init[i]) && decode(
            init[i],
        ).length > 0 && decode(init[i]).target_upper == decode(init[i]).target_lower + 1 by {
            assert(init[i] == messages[i]);
        }
        lemma_to_process(init, first_worker, workers, worker);
        let before = to_process(init, first_worker, workers);
        assert(last == messages[messages.len() - 1]);
        if first_worker <= decode(last).target_lower < first_worker + workers {
            assert(parts == before.push(last));
            assert(parts.drop_last() =~= before);
            assert forall|i: int| 0 <= i < parts.len() implies is_message(#[trigger] parts[i])
                && decode(parts[i]).length > 0 && for_local_workers(
                decode(parts[i]),
                first_worker,
                workers,
            ) by {
                if i < before.len() {
                    assert(parts[i] == before[i]);
                }
            }
        }
    }
}

/// What is sent to a worker reaches it, and no other worker. Of the messages that a process sends
/// to all workers, each for one of them, those for the workers of another process go over the stream
/// to that process; and however this stream is cut by the network, each worker there is handed
/// exactly the messages that are addressed to it, each as often as it was sent and in the same
/// order, and on each channel exactly those of this channel.
pub proof fn law_sent_to_a_worker_reaches_it_alone(
    v: ReceiverView,
    messages: Seq<Seq<u8>>,
    stashed: Seq<Seq<u8>>,
    reads: Seq<Seq<u8>>,
    k: int,
    channel: usize,
)
    requires
        v.buffer.len() == 0,
        v.senders == 1,
        v.staged.len() == v.workers,
        0 <= k < v.workers,
        v.staged[k].len() == 0,
        are_point_to_point(messages),
        concat(stashed) == concat(to_process(messages, v.first_worker, v.workers)),
        concat(reads) == concat(stashed) + end_header().encode(),
        forall|i: int| 0 <= i < reads.len() ==> (#[trigger] reads[i]).len() > 0,
    ensures
        v.handed(reads, k) == to_worker(messages, v.first_worker + k),
        on_channel(v.handed(reads, k), channel) == on_channel(
            to_worker(messages, v.first_worker + k),
            channel,
        ),
        forall|m: Seq<u8>| #[trigger]
            v.handed(reads, k).contains(m) <==> messages.contains(m) && decode(m).target_lower
                == v.first_worker + k,
{
    let worker = v.first_worker + k;
    let parts = to_process(messages, v.first_worker, v.workers);
    lemma_to_process(messages, v.first_worker, v.workers, worker);
    law_sent_is_received(v, parts, stashed, reads, k);
    let pred = |m: Seq<u8>| decode(m).target_lower == worker;
    let kept = to_worker(messages, worker);
    assert forall|m: Seq<u8>| #[trigger] kept.contains(m) <==> messages.contains(m) && pred(
        m,
    ) by {
        if kept.contains(m) {
            messages.lemma_filter_contains_rev(pred, m);
            let i = choose|i: int| 0 <= i < kept.len() && kept[i] == m;
            messages.lemma_filter_pred(pred, i);
        }
        if messages.contains(m) && pred(m) {
            let i = choose|i: int| 0 <= i < messages.len() && messages[i] == m;
            messages.lemma_filter_contains(pred, i);
        }
    }
}

} // verus!
