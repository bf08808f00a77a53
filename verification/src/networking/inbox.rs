//! What the inbox of a process makes of the streams of several senders.
//!
//! Each sender hands over whole messages, one after the other. The messages of different senders
//! come in any order.

use vstd::prelude::*;

use crate::networking::delivery::{
    law_handing_over_loses_nothing, law_stream_is_delivered, well_formed_stream,
};
use crate::networking::framing::{concat, is_message, law_header_and_data_are_message};
use crate::networking::header::decode;
use crate::networking::receive::{
    ReceiverView, Verdict, delivered, for_local_workers, lemma_no_parts, lemma_stops_append,
    stops,
};
use crate::networking::send::{end_header, lemma_sent_stream, sendable};

verus! {

/// What sender `sender` has handed over, in order, among `arrivals`, each a sender and a message.
pub open spec fn sent_by(arrivals: Seq<(int, Seq<u8>)>, sender: int) -> Seq<Seq<u8>>
    decreases arrivals.len(),
{
    if arrivals.len() == 0 {
        Seq::empty()
    } else {
        let before = sent_by(arrivals.drop_last(), sender);
        if arrivals.last().0 == sender {
            before.push(arrivals.last().1)
        } else {
            before
        }
    }
}

/// The messages of all senders, in the order in which they arrive.
pub open spec fn parts_of(arrivals: Seq<(int, Seq<u8>)>) -> Seq<Seq<u8>> {
    arrivals.map_values(|a: (int, Seq<u8>)| a.1)
}

/// What of `arrivals` is for worker `worker`.
pub open spec fn arrivals_for(arrivals: Seq<(int, Seq<u8>)>, worker: int) -> Seq<
    (int, Seq<u8>),
> {
    arrivals.filter(
        |a: (int, Seq<u8>)| decode(a.1).length > 0 && decode(a.1).targets(worker),
    )
}

/// Whether `arrivals` is made of the streams of all senders: the messages of each in order, and
/// the header that ends its stream behind them.
pub open spec fn is_merged(
    arrivals: Seq<(int, Seq<u8>)>,
    streams: Seq<Seq<Seq<u8>>>,
) -> bool {
    &&& forall|a: int|
        0 <= a < arrivals.len() ==> 0 <= (#[trigger] arrivals[a]).0 < streams.len()
    &&& forall|s: int|
        0 <= s < streams.len() ==> sent_by(arrivals, s) == (#[trigger] streams[s]).push(
            end_header().encode(),
        )
}

/// What arrives has been handed over by its sender.
proof fn lemma_arrival_was_sent(arrivals: Seq<(int, Seq<u8>)>, a: int)
    requires
        0 <= a < arrivals.len(),
    ensures
        sent_by(arrivals, arrivals[a].0).contains(arrivals[a].1),
    decreases arrivals.len(),
{
    let (init, s) = (arrivals.drop_last(), arrivals[a].0);
    let all = sent_by(arrivals, s);
    if a == init.len() {
        assert(all[all.len() - 1] == arrivals[a].1);
    } else {
        lemma_arrival_was_sent(init, a);
        let before = sent_by(init, s);
        let j = choose|j: int| 0 <= j < before.len() && before[j] == arrivals[a].1;
        assert(all[j] == arrivals[a].1);
    }
}

/// The ends in the streams of the first `n` senders.
spec fn ends_of(arrivals: Seq<(int, Seq<u8>)>, n: nat) -> nat
    decreases n,
{
    if n == 0 {
        0
    } else {
        ends_of(arrivals, (n - 1) as nat) + stops(sent_by(arrivals, n - 1))
    }
}

/// One more arrival adds its end to those of its sender.
proof fn lemma_ends_step(arrivals: Seq<(int, Seq<u8>)>, n: nat)
    requires
        arrivals.len() > 0,
    ensures
        ends_of(arrivals, n) == ends_of(arrivals.drop_last(), n) + (if 0 <= arrivals.last().0 < n {
            stops(seq![arrivals.last().1])
        } else {
            0
        }),
    decreases n,
{
    if n > 0 {
        let (init, last) = (arrivals.drop_last(), arrivals.last());
        lemma_ends_step(arrivals, (n - 1) as nat);
        if last.0 == n - 1 {
            let before = sent_by(init, n - 1);
            assert(before.push(last.1) =~= before + seq![last.1]);
            lemma_stops_append(before, seq![last.1]);
        }
    }
}

/// All ends are those of the senders.
proof fn lemma_ends(arrivals: Seq<(int, Seq<u8>)>, n: nat)
    requires
        forall|a: int| 0 <= a < arrivals.len() ==> 0 <= (#[trigger] arrivals[a]).0 < n,
    ensures
        stops(parts_of(arrivals)) == ends_of(arrivals, n),
    decreases arrivals.len(),
{
    lemma_no_parts(Seq::empty(), 0);
    if arrivals.len() == 0 {
        assert(parts_of(arrivals) =~= Seq::empty());
        lemma_no_ends(arrivals, n);
    } else {
        let (init, last) = (arrivals.drop_last(), arrivals.last());
        assert forall|a: int| 0 <= a < init.len() implies 0 <= (#[trigger] init[a]).0 < n by {
            assert(init[a] == arrivals[a]);
        }
        lemma_ends(init, n);
        lemma_ends_step(arrivals, n);
        assert(arrivals[arrivals.len() - 1] == last);
        assert(parts_of(arrivals) =~= parts_of(init) + seq![last.1]);
        lemma_stops_append(parts_of(init), seq![last.1]);
    }
}

/// Where nothing arrives nothing ends.
proof fn lemma_no_ends(arrivals: Seq<(int, Seq<u8>)>, n: nat)
    requires
        arrivals.len() == 0,
    ensures
        ends_of(arrivals, n) == 0,
    decreases n,
{
    lemma_no_parts(Seq::empty(), 0);
    if n > 0 {
        lemma_no_ends(arrivals, (n - 1) as nat);
    }
}

/// Where the stream of each of the first `n` senders ends once, there are `n` ends.
proof fn lemma_one_end_each(arrivals: Seq<(int, Seq<u8>)>, n: nat)
    requires
        forall|s: int| 0 <= s < n ==> stops(#[trigger] sent_by(arrivals, s)) == 1,
    ensures
        ends_of(arrivals, n) == n,
    decreases n,
{
    if n > 0 {
        lemma_one_end_each(arrivals, (n - 1) as nat);
        assert(stops(sent_by(arrivals, n - 1)) == 1);
    }
}

/// Of what a sender has handed over, a worker is handed what is for it.
proof fn lemma_sent_for(arrivals: Seq<(int, Seq<u8>)>, worker: int, s: int)
    ensures
        parts_of(arrivals_for(arrivals, worker)) == delivered(parts_of(arrivals), worker),
        sent_by(arrivals_for(arrivals, worker), s) == delivered(sent_by(arrivals, s), worker),
    decreases arrivals.len(),
{
    reveal(Seq::filter);
    let kept = arrivals_for(arrivals, worker);
    if arrivals.len() == 0 {
        assert(parts_of(kept) =~= delivered(parts_of(arrivals), worker));
        assert(sent_by(kept, s) =~= delivered(sent_by(arrivals, s), worker));
    } else {
        let (init, last) = (arrivals.drop_last(), arrivals.last());
        let before = arrivals_for(init, worker);
        lemma_sent_for(init, worker, s);
        assert(parts_of(arrivals).drop_last() =~= parts_of(init));
        assert(parts_of(arrivals).last() == last.1);
        if decode(last.1).length > 0 && decode(last.1).targets(worker) {
            assert(kept == before.push(last));
            assert(kept.drop_last() =~= before);
            assert(parts_of(kept) =~= parts_of(before).push(last.1));
        }
        if last.0 == s {
            let sent = sent_by(arrivals, s);
            assert(sent.drop_last() =~= sent_by(init, s));
            assert(sent.last() == last.1);
        }
    }
}

/// What is sent to an inbox is received. In whatever order the messages of several senders arrive,
/// and however their bytes are cut into reads, the stream ends when the last sender has announced
/// its end and not before, and each worker of the receiving process is handed, of each sender,
/// exactly the messages that are addressed to it, whole and in the order in which they were sent.
pub proof fn law_inbox_is_received(
    v: ReceiverView,
    streams: Seq<Seq<Seq<u8>>>,
    arrivals: Seq<(int, Seq<u8>)>,
    reads: Seq<Seq<u8>>,
    k: int,
)
    requires
        v.buffer.len() == 0,
        v.senders == streams.len(),
        streams.len() > 0,
        v.staged.len() == v.workers,
        0 <= k < v.workers,
        v.staged[k].len() == 0,
        forall|s: int|
            0 <= s < streams.len() ==> sendable(#[trigger] streams[s], v.first_worker, v.workers),
        is_merged(arrivals, streams),
        concat(reads) == concat(parts_of(arrivals)),
        forall|i: int| 0 <= i < reads.len() ==> (#[trigger] reads[i]).len() > 0,
    ensures
        reads.len() > 0,
        v.all_open(reads.drop_last()),
        v.absorb_all(reads.drop_last()).judge(reads.last()) == Verdict::Ended,
        v.absorb_all(reads).buffer.len() == 0,
        v.handed(reads, k) == parts_of(arrivals_for(arrivals, v.first_worker + k)),
        forall|s: int|
            0 <= s < streams.len() ==> sent_by(arrivals_for(arrivals, v.first_worker + k), s)
                == delivered(#[trigger] streams[s], v.first_worker + k),
{
    let parts = parts_of(arrivals);
    let worker = v.first_worker + k;
    let n = streams.len();
    lemma_merged_is_well_formed(arrivals, streams, v.first_worker, v.workers);
    law_stream_is_delivered(v, parts, n, reads);
    law_handing_over_loses_nothing(v, reads, k);
    lemma_sent_for(arrivals, worker, 0);
    assert(v.absorb_all(reads).staged[k] == v.staged[k] + delivered(parts, worker));
    assert(v.staged[k] + delivered(parts, worker) =~= delivered(parts, worker));
    assert forall|s: int| 0 <= s < n implies sent_by(arrivals_for(arrivals, worker), s)
        == delivered(#[trigger] streams[s], worker) by {
        lemma_sent_for(arrivals, worker, s);
        lemma_sent_stream(streams[s], v.first_worker, v.workers);
        assert(delivered(streams[s].push(end_header().encode()), worker) == delivered(
            streams[s],
            worker,
        ));
    }
}

/// The merged streams of all senders are a well-formed stream.
proof fn lemma_merged_is_well_formed(
    arrivals: Seq<(int, Seq<u8>)>,
    streams: Seq<Seq<Seq<u8>>>,
    first_worker: int,
    workers: nat,
)
    requires
        streams.len() > 0,
        forall|s: int|
            0 <= s < streams.len() ==> sendable(#[trigger] streams[s], first_worker, workers),
        is_merged(arrivals, streams),
    ensures
        well_formed_stream(parts_of(arrivals), streams.len(), first_worker, workers),
{
    let parts = parts_of(arrivals);
    let n = streams.len();
    let end = end_header().encode();
    assert forall|s: int| 0 <= s < n implies stops(#[trigger] sent_by(arrivals, s)) == 1 by {
        lemma_sent_stream(streams[s], first_worker, workers);
    }
    lemma_one_end_each(arrivals, n);
    lemma_ends(arrivals, n);
    assert forall|i: int| 0 <= i < parts.len() implies is_message(#[trigger] parts[i]) && (decode(
        parts[i],
    ).length > 0 ==> for_local_workers(decode(parts[i]), first_worker, workers)) by {
        let s = arrivals[i].0;
        let sent = streams[s].push(end);
        lemma_arrival_was_sent(arrivals, i);
        lemma_sent_stream(streams[s], first_worker, workers);
        let j = choose|j: int| 0 <= j < sent.len() && sent[j] == arrivals[i].1;
        assert(is_message(sent[j]));
        assert(parts[i] == sent[j]);
    }
    if arrivals.len() == 0 {
        assert(sent_by(arrivals, 0) == streams[0].push(end));
    }
    let last = arrivals.last();
    assert(arrivals[arrivals.len() - 1] == last);
    assert(sent_by(arrivals, last.0).last() == last.1);
    assert(streams[last.0].push(end).last() == end);
    law_header_and_data_are_message(end_header(), Seq::empty());
    assert(end + Seq::<u8>::empty() =~= end);
    assert(parts.last() == end);
}

} // verus!
