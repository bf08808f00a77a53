//! What a receiver makes of a stream as a whole, however the stream is cut into reads.

use vstd::prelude::*;

use crate::networking::framing::{
    all_messages, concat, frames, is_message, law_frames_append, law_frames_cover,
    law_frames_of_messages, rest,
};
use crate::networking::header::{decode, has_message, law_header_prefix};
use crate::networking::receive::{
    ReceiverView, Verdict, delivered, for_local_workers, law_verdict_append, lemma_no_parts,
    lemma_stage_append, lemma_stops_append, lemma_stops_one, stops, verdict,
};

verus! {

impl ReceiverView {
    /// Whether the state is one between two reads: what is buffered is less than a message, and
    /// some sender may still send.
    pub open spec fn reading(self) -> bool {
        self.active() && !has_message(self.buffer)
    }

    /// The state after the arrival of each of `chunks` in turn.
    pub open spec fn absorb_all(self, chunks: Seq<Seq<u8>>) -> ReceiverView
        decreases chunks.len(),
    {
        if chunks.len() == 0 {
            self
        } else {
            self.absorb(chunks[0]).absorb_all(chunks.drop_first())
        }
    }

    /// Whether more is to come after each of `chunks`, when they arrive in turn.
    pub open spec fn all_open(self, chunks: Seq<Seq<u8>>) -> bool
        decreases chunks.len(),
    {
        chunks.len() == 0 || (self.judge(chunks[0]) == Verdict::Open && self.absorb(
            chunks[0],
        ).all_open(chunks.drop_first()))
    }
}

/// Two reads one after the other amount to one read that gives the bytes of both.
pub proof fn law_two_reads(v: ReceiverView, a: Seq<u8>, b: Seq<u8>)
    requires
        v.reading(),
        v.judge(a) == Verdict::Open,
    ensures
        v.absorb(a).reading(),
        v.absorb(a).judge(b) == v.judge(a + b),
        v.judge(a + b) !is Fault ==> v.absorb(a).absorb(b) == v.absorb(a + b),
{
    let s = v.buffer + a;
    assert(v.buffer + (a + b) =~= s + b);
    law_verdict_append(s, b, v.senders, v.first_worker, v.workers);
    law_frames_append(s, b);
    law_frames_cover(s);
    let t = rest(s) + b;
    lemma_stage_append(v.staged, frames(s), frames(t), v.first_worker);
    lemma_stops_append(frames(s), frames(t));
    if v.judge(a + b) !is Fault {
        let (once, twice) = (v.absorb(a + b), v.absorb(a).absorb(b));
        assert(twice.buffer == once.buffer);
        assert(twice.staged == once.staged);
        law_verdict_append(t, Seq::empty(), v.absorb(a).senders, v.first_worker, v.workers);
        assert(twice.senders == once.senders);
    }
}

/// Of a stream without a fault every read but the last is open, and what follows it is judged as
/// the whole is.
proof fn lemma_first_read(v: ReceiverView, head: Seq<u8>, later: Seq<u8>)
    requires
        v.reading(),
        later.len() > 0,
        v.judge(head + later) !is Fault,
    ensures
        v.judge(head) == Verdict::Open,
        v.absorb(head).reading(),
        v.absorb(head).judge(later) == v.judge(head + later),
        v.absorb(head).absorb(later) == v.absorb(head + later),
{
    assert(v.buffer + (head + later) =~= (v.buffer + head) + later);
    law_verdict_append(v.buffer + head, later, v.senders, v.first_worker, v.workers);
    law_two_reads(v, head, later);
}

/// How a stream is cut into reads makes no difference to what is delivered: reading `chunks` one
/// after the other, each of them open but the last, amounts to reading all their bytes at once.
pub proof fn law_chunking_is_irrelevant(v: ReceiverView, chunks: Seq<Seq<u8>>)
    requires
        v.reading(),
        chunks.len() > 0,
        forall|i: int| 0 <= i < chunks.len() ==> (#[trigger] chunks[i]).len() > 0,
        v.judge(concat(chunks)) !is Fault,
    ensures
        v.absorb_all(chunks) == v.absorb(concat(chunks)),
        v.absorb_all(chunks.drop_last()).judge(chunks.last()) == v.judge(concat(chunks)),
        v.all_open(chunks.drop_last()),
    decreases chunks.len(),
{
    let (head, tail) = (chunks[0], chunks.drop_first());
    let w = v.absorb(head);
    if tail.len() == 0 {
        assert(concat(tail) =~= Seq::empty());
        assert(concat(chunks) =~= head);
        assert(chunks.drop_last() =~= Seq::empty());
        assert(v.absorb_all(chunks) == w.absorb_all(tail));
        assert(w.absorb_all(tail) == w);
    } else {
        let later = concat(tail);
        assert(tail[0] == chunks[1]);
        assert(later.len() > 0);
        assert forall|i: int| 0 <= i < tail.len() implies (#[trigger] tail[i]).len() > 0 by {
            assert(tail[i] == chunks[i + 1]);
        }
        lemma_first_read(v, head, later);
        law_chunking_is_irrelevant(w, tail);
        assert(chunks.drop_last()[0] == head);
        assert(chunks.drop_last().drop_first() =~= tail.drop_last());
    }
}

/// Whether `parts` is what `senders` senders may send to the `workers` workers from
/// `first_worker` on: messages, each for these workers, and as many ends as there are senders,
/// the last of them behind everything else.
pub open spec fn well_formed_stream(
    parts: Seq<Seq<u8>>,
    senders: nat,
    first_worker: int,
    workers: nat,
) -> bool {
    &&& all_messages(parts)
    &&& forall|i: int|
        0 <= i < parts.len() && decode(parts[i]).length > 0 ==> for_local_workers(
            decode(#[trigger] parts[i]),
            first_worker,
            workers,
        )
    &&& senders > 0
    &&& stops(parts) == senders
    &&& decode(parts.last()).length == 0
}

/// A well-formed stream ends where it should.
proof fn lemma_well_formed_stream_ends(
    parts: Seq<Seq<u8>>,
    senders: nat,
    first_worker: int,
    workers: nat,
)
    requires
        well_formed_stream(parts, senders, first_worker, workers),
    ensures
        verdict(concat(parts), senders, first_worker, workers) == Verdict::Ended,
    decreases parts.len(),
{
    lemma_no_parts(Seq::empty(), first_worker);
    if parts.len() == 0 {
        assert(parts =~= Seq::empty());
        assert(false);
    }
    let (head, tail) = (parts[0], parts.drop_first());
    let s = concat(parts);
    assert(is_message(head));
    law_header_prefix(head, concat(tail));
    assert(s.skip(head.len() as int) =~= concat(tail));
    assert(seq![head] + tail =~= parts);
    lemma_stops_append(seq![head], tail);
    lemma_stops_one(head);
    assert forall|i: int| 0 <= i < tail.len() implies is_message(#[trigger] tail[i]) by {
        assert(tail[i] == parts[i + 1]);
    }
    assert forall|i: int|
        0 <= i < tail.len() && decode(tail[i]).length > 0 implies for_local_workers(
        decode(#[trigger] tail[i]),
        first_worker,
        workers,
    ) by {
        assert(tail[i] == parts[i + 1]);
    }
    if tail.len() > 0 {
        assert(tail.last() == parts.last());
        assert(seq![tail.last()].len() == 1);
        assert(tail.drop_last() + seq![tail.last()] =~= tail);
        lemma_stops_append(tail.drop_last(), seq![tail.last()]);
        lemma_stops_one(tail.last());
        let left = if decode(head).length == 0 { (senders - 1) as nat } else { senders };
        lemma_well_formed_stream_ends(tail, left, first_worker, workers);
    } else {
        assert(tail =~= Seq::empty());
        assert(concat(tail).len() == 0);
    }
}

/// However a well-formed stream is cut into reads, its last read ends it and none before does,
/// nothing is left over, and each worker is handed exactly the messages addressed to it, whole
/// and in the order in which they were sent.
pub proof fn law_stream_is_delivered(
    v: ReceiverView,
    parts: Seq<Seq<u8>>,
    senders: nat,
    chunks: Seq<Seq<u8>>,
)
    requires
        v.buffer.len() == 0,
        v.senders == senders,
        v.staged.len() == v.workers,
        well_formed_stream(parts, senders, v.first_worker, v.workers),
        concat(chunks) == concat(parts),
        forall|i: int| 0 <= i < chunks.len() ==> (#[trigger] chunks[i]).len() > 0,
    ensures
        chunks.len() > 0,
        v.absorb_all(chunks.drop_last()).judge(chunks.last()) == Verdict::Ended,
        v.all_open(chunks.drop_last()),
        v.absorb_all(chunks).buffer.len() == 0,
        v.absorb_all(chunks).senders == 0,
        forall|k: int|
            0 <= k < v.workers ==> #[trigger] v.absorb_all(chunks).staged[k] == v.staged[k]
                + delivered(parts, v.first_worker + k),
{
    let s = concat(parts);
    lemma_well_formed_stream_ends(parts, senders, v.first_worker, v.workers);
    law_frames_of_messages(parts);
    assert(v.buffer + s =~= s);
    lemma_no_parts(v.staged, v.first_worker);
    if chunks.len() == 0 {
        assert(s.len() == 0);
        assert(parts == frames(s));
        assert(parts =~= Seq::empty());
        assert(false);
    }
    law_chunking_is_irrelevant(v, chunks);
}

impl ReceiverView {
    /// All that worker number `k` of the process is handed when each of `chunks` is read in turn
    /// and what is staged is handed over after each read.
    pub open spec fn handed(self, chunks: Seq<Seq<u8>>, k: int) -> Seq<Seq<u8>>
        decreases chunks.len(),
    {
        if chunks.len() == 0 {
            Seq::empty()
        } else {
            let next = self.absorb(chunks[0]);
            next.staged[k] + next.emptied().handed(chunks.drop_first(), k)
        }
    }
}

/// What is staged already does not bear on what later reads add to it.
proof fn lemma_staged_before(v: ReceiverView, chunks: Seq<Seq<u8>>, k: int)
    requires
        0 <= k < v.staged.len(),
    ensures
        v.absorb_all(chunks).staged.len() == v.staged.len(),
        v.absorb_all(chunks).staged[k] == v.staged[k] + v.emptied().absorb_all(chunks).staged[k],
    decreases chunks.len(),
{
    if chunks.len() == 0 {
        assert(v.staged[k] + v.emptied().staged[k] =~= v.staged[k]);
    } else {
        let (c, cs) = (chunks[0], chunks.drop_first());
        let (w, e) = (v.absorb(c), v.emptied().absorb(c));
        assert(w.emptied() == e.emptied());
        assert(w.staged[k] =~= v.staged[k] + e.staged[k]);
        lemma_staged_before(w, cs, k);
        lemma_staged_before(e, cs, k);
        let later = w.emptied().absorb_all(cs).staged[k];
        assert((v.staged[k] + e.staged[k]) + later =~= v.staged[k] + (e.staged[k] + later));
    }
}

/// Handing over after each read, a worker is handed what it would be handed at the end, each
/// message once and in the same order.
pub proof fn law_handing_over_loses_nothing(v: ReceiverView, chunks: Seq<Seq<u8>>, k: int)
    requires
        0 <= k < v.staged.len(),
        chunks.len() > 0,
    ensures
        v.handed(chunks, k) == v.absorb_all(chunks).staged[k],
    decreases chunks.len(),
{
    let (c, cs) = (chunks[0], chunks.drop_first());
    let w = v.absorb(c);
    lemma_staged_before(w, cs, k);
    if cs.len() > 0 {
        law_handing_over_loses_nothing(w.emptied(), cs, k);
    } else {
        assert(w.staged[k] + Seq::<Seq<u8>>::empty() =~= w.staged[k]);
        assert(w.absorb_all(cs) == w);
        assert(w.emptied().handed(cs, k) == Seq::<Seq<u8>>::empty());
    }
}

} // verus!
