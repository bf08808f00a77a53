//! The receiving side of a connection: carving messages out of the bytes that arrive.
//!
//! The intended communication pattern is a sequence of (header, message)^* for valid
//! messages, followed by a header for a zero length message indicating the end of stream.

use vstd::prelude::*;
use vstd::slice::{slice_subrange, slice_to_vec};

use crate::networking::framing::{concat, frames, law_frames_cover, lemma_concat_append, rest};
use crate::networking::header::{MessageHeader, decode, has_message, law_header_prefix};
use crate::networking::names::{communication_error, law_panic_message_prefix, panic_message};

verus! {

/// Why a receiver cannot go on.
#[derive(Debug, PartialEq, Eq, Structural, Clone, Copy)]
pub enum Fault {
    /// The stream ended without being shut down.
    Closed,
    /// Data follows the announced end of the stream.
    DataAfterShutdown,
    /// A message is addressed to a worker of another process.
    WrongTarget,
}

/// What the panic of a receiver says.
pub open spec fn fault_message(fault: Fault) -> Seq<char> {
    match fault {
        Fault::Closed => communication_error("reading data"@, "socket closed"@),
        Fault::DataAfterShutdown => "Clean shutdown followed by data."@,
        Fault::WrongTarget => "Message for a worker of another process."@,
    }
}

impl Fault {
    /// What the panic of the receiver says.
    pub fn message(&self) -> (message: String)
        ensures
            message@ == fault_message(*self),
    {
        match self {
            Fault::Closed => panic_message("reading data", "socket closed"),
            Fault::DataAfterShutdown => "Clean shutdown followed by data.".to_owned(),
            Fault::WrongTarget => "Message for a worker of another process.".to_owned(),
        }
    }
}

/// Why a read from one of several streams of a connection failed.
#[derive(Debug)]
pub enum ReadError {
    /// The connection has been closed, for this reason.
    ConnectionClosed(String),
    /// The stream has ended.
    EndOfStream,
    /// Anything else, in its own words.
    Other(String),
}

/// What the panic of a receiver says when a read has failed. A receiver does not read on once the
/// stream has been shut down, so that even an orderly end comes too early.
pub open spec fn read_error_message(error: ReadError) -> Seq<char> {
    match error {
        ReadError::ConnectionClosed(reason) => if reason@ == "done"@ {
            fault_message(Fault::Closed)
        } else {
            communication_error("opening stream"@, reason@)
        },
        ReadError::EndOfStream => fault_message(Fault::Closed),
        ReadError::Other(cause) => communication_error("opening stream"@, cause@),
    }
}

impl ReadError {
    /// What the panic of the receiver says.
    pub fn message(&self) -> (message: String)
        ensures
            message@ == read_error_message(*self),
    {
        match self {
            ReadError::ConnectionClosed(reason) => {
                if *reason == "done".to_owned() {
                    Fault::Closed.message()
                } else {
                    panic_message("opening stream", reason.as_str())
                }
            },
            ReadError::EndOfStream => Fault::Closed.message(),
            ReadError::Other(cause) => panic_message("opening stream", cause.as_str()),
        }
    }
}

/// What the bytes that have arrived amount to.
#[derive(Debug, PartialEq, Eq, Structural, Clone, Copy)]
pub enum Verdict {
    /// More is to come.
    Open,
    /// Every sender has announced the end of its stream.
    Ended,
    /// The bytes are not what the senders may send.
    Fault(Fault),
}

/// Whether every worker that the message is for is one of the `workers` workers from
/// `first_worker` on.
pub open spec fn for_local_workers(
    header: MessageHeader,
    first_worker: int,
    workers: nat,
) -> bool {
    forall|worker: int| #[trigger]
        header.targets(worker) ==> first_worker <= worker < first_worker + workers
}

/// What the messages in `s` amount to, while `senders` senders have not announced their end.
pub open spec fn verdict(s: Seq<u8>, senders: nat, first_worker: int, workers: nat) -> Verdict
    decreases s.len(),
{
    if !has_message(s) {
        Verdict::Open
    } else {
        let header = decode(s);
        let tail = s.skip(header.message_len() as int);
        if header.length > 0 {
            if for_local_workers(header, first_worker, workers) {
                verdict(tail, senders, first_worker, workers)
            } else {
                Verdict::Fault(Fault::WrongTarget)
            }
        } else if senders > 1 {
            verdict(tail, (senders - 1) as nat, first_worker, workers)
        } else if tail.len() > 0 {
            Verdict::Fault(Fault::DataAfterShutdown)
        } else {
            Verdict::Ended
        }
    }
}

/// The messages in `s` that are looked at: all, or those up to the one at which a fault shows.
pub open spec fn judged(s: Seq<u8>, senders: nat, first_worker: int, workers: nat) -> Seq<Seq<u8>>
    decreases s.len(),
{
    if !has_message(s) {
        Seq::empty()
    } else {
        let header = decode(s);
        let n = header.message_len() as int;
        let (head, tail) = (s.take(n), s.skip(n));
        if header.length > 0 {
            if for_local_workers(header, first_worker, workers) {
                seq![head] + judged(tail, senders, first_worker, workers)
            } else {
                seq![head]
            }
        } else if senders > 1 {
            seq![head] + judged(tail, (senders - 1) as nat, first_worker, workers)
        } else {
            seq![head]
        }
    }
}

/// The messages among `parts` that worker `worker` gets, in order.
pub open spec fn delivered(parts: Seq<Seq<u8>>, worker: int) -> Seq<Seq<u8>> {
    parts.filter(|part: Seq<u8>| decode(part).length > 0 && decode(part).targets(worker))
}

/// How many of `parts` announce the end of a stream.
pub open spec fn stops(parts: Seq<Seq<u8>>) -> nat {
    parts.filter(|part: Seq<u8>| decode(part).length == 0).len()
}

/// How many senders have not announced their end once `parts` have arrived.
pub open spec fn senders_after(senders: nat, parts: Seq<Seq<u8>>) -> nat {
    (senders - stops(parts)) as nat
}

/// What is staged for each worker once `parts` are added behind `staged`.
pub open spec fn stage(
    staged: Seq<Seq<Seq<u8>>>,
    parts: Seq<Seq<u8>>,
    first_worker: int,
) -> Seq<Seq<Seq<u8>>> {
    Seq::new(staged.len(), |k: int| staged[k] + delivered(parts, first_worker + k))
}

/// The state of a [`Receiver`].
pub struct ReceiverView {
    /// Index of the first worker of the receiving process.
    pub first_worker: int,
    /// Number of workers of the receiving process.
    pub workers: nat,
    /// Number of senders that have not announced their end.
    pub senders: nat,
    /// Bytes that have arrived and do not make up a whole message yet.
    pub buffer: Seq<u8>,
    /// For each worker the messages that are to be handed to it.
    pub staged: Seq<Seq<Seq<u8>>>,
}

impl ReceiverView {
    /// What the arrival of `chunk` amounts to.
    pub open spec fn judge(self, chunk: Seq<u8>) -> Verdict {
        verdict(self.buffer + chunk, self.senders, self.first_worker, self.workers)
    }

    /// The headers of the messages that are looked at when `chunk` arrives.
    pub open spec fn headers(self, chunk: Seq<u8>) -> Seq<MessageHeader> {
        judged(self.buffer + chunk, self.senders, self.first_worker, self.workers).map_values(
            |message: Seq<u8>| decode(message),
        )
    }

    /// The state after the arrival of `chunk`. Where it is a fault, the bytes stay where they are.
    pub open spec fn absorb(self, chunk: Seq<u8>) -> ReceiverView {
        let s = self.buffer + chunk;
        match self.judge(chunk) {
            Verdict::Fault(_) => ReceiverView { buffer: s, ..self },
            _ => ReceiverView {
                buffer: rest(s),
                senders: senders_after(self.senders, frames(s)),
                staged: stage(self.staged, frames(s), self.first_worker),
                ..self
            },
        }
    }
}

/// The messages in a list of vectors.
pub open spec fn contents(parts: Seq<Vec<u8>>) -> Seq<Seq<u8>> {
    Seq::new(parts.len(), |i: int| parts[i]@)
}

/// The messages in a list of lists of vectors.
pub open spec fn staged_contents(staged: Seq<Vec<Vec<u8>>>) -> Seq<Seq<Seq<u8>>> {
    Seq::new(staged.len(), |k: int| contents(staged[k]@))
}

/// Carves messages out of the bytes that arrive at a process, and stages each for the workers
/// that it is addressed to.
pub struct Receiver {
    first_worker: usize,
    workers: usize,
    senders: usize,
    buffer: Vec<u8>,
    staged: Vec<Vec<Vec<u8>>>,
}

impl View for Receiver {
    type V = ReceiverView;

    closed spec fn view(&self) -> ReceiverView {
        ReceiverView {
            first_worker: self.first_worker as int,
            workers: self.workers as nat,
            senders: self.senders as nat,
            buffer: self.buffer@,
            staged: staged_contents(self.staged@),
        }
    }
}

/// A list of one element is filtered to itself or to nothing.
pub(crate) proof fn lemma_filter_one<A>(a: A, pred: spec_fn(A) -> bool)
    ensures
        seq![a].filter(pred) == (if pred(a) { seq![a] } else { Seq::<A>::empty() }),
{
    reveal_with_fuel(Seq::filter, 2);
    assert(seq![a].drop_last() =~= Seq::<A>::empty());
    assert(seq![a].filter(pred) =~= (if pred(a) { seq![a] } else { Seq::<A>::empty() }));
}

/// Staging parts one after the other is staging them all.
pub(crate) proof fn lemma_stage_append(
    staged: Seq<Seq<Seq<u8>>>,
    a: Seq<Seq<u8>>,
    b: Seq<Seq<u8>>,
    first_worker: int,
)
    ensures
        stage(stage(staged, a, first_worker), b, first_worker) == stage(staged, a + b, first_worker),
{
    assert forall|k: int| 0 <= k < staged.len() implies #[trigger] delivered(
        a + b,
        first_worker + k,
    ) == delivered(a, first_worker + k) + delivered(b, first_worker + k) by {
        Seq::filter_distributes_over_add(
            a,
            b,
            |part: Seq<u8>| decode(part).length > 0 && decode(part).targets(first_worker + k),
        );
    }
    assert forall|k: int| 0 <= k < staged.len() implies stage(
        stage(staged, a, first_worker),
        b,
        first_worker,
    )[k] == #[trigger] stage(staged, a + b, first_worker)[k] by {
        assert(delivered(a + b, first_worker + k) == delivered(a, first_worker + k) + delivered(
            b,
            first_worker + k,
        ));
        assert(staged[k] + (delivered(a, first_worker + k) + delivered(b, first_worker + k)) =~= (
        staged[k] + delivered(a, first_worker + k)) + delivered(b, first_worker + k));
    }
    assert(stage(stage(staged, a, first_worker), b, first_worker) =~= stage(
        staged,
        a + b,
        first_worker,
    ));
}

/// The ends in two lists of parts are those of the one and those of the other.
pub(crate) proof fn lemma_stops_append(a: Seq<Seq<u8>>, b: Seq<Seq<u8>>)
    ensures
        stops(a + b) == stops(a) + stops(b),
{
    Seq::filter_distributes_over_add(a, b, |part: Seq<u8>| decode(part).length == 0);
}

/// A message is an end, or it is not.
pub(crate) proof fn lemma_stops_one(part: Seq<u8>)
    ensures
        stops(seq![part]) == (if decode(part).length == 0 { 1nat } else { 0nat }),
{
    lemma_filter_one(part, |part: Seq<u8>| decode(part).length == 0);
}

/// A message without data is staged for nobody.
proof fn lemma_stage_stop(staged: Seq<Seq<Seq<u8>>>, part: Seq<u8>, first_worker: int)
    requires
        decode(part).length == 0,
    ensures
        stage(staged, seq![part], first_worker) == staged,
{
    assert forall|k: int| 0 <= k < staged.len() implies #[trigger] stage(
        staged,
        seq![part],
        first_worker,
    )[k] == staged[k] by {
        lemma_filter_one(
            part,
            |part: Seq<u8>| decode(part).length > 0 && decode(part).targets(first_worker + k),
        );
        assert(stage(staged, seq![part], first_worker)[k] =~= staged[k]);
    }
    assert(stage(staged, seq![part], first_worker) =~= staged);
}

/// Without parts nothing changes.
pub(crate) proof fn lemma_no_parts(staged: Seq<Seq<Seq<u8>>>, first_worker: int)
    ensures
        stage(staged, Seq::empty(), first_worker) == staged,
        stops(Seq::empty()) == 0,
{
    reveal(Seq::filter);
    assert forall|k: int| 0 <= k < staged.len() implies #[trigger] stage(
        staged,
        Seq::empty(),
        first_worker,
    )[k] == staged[k] by {
        assert(stage(staged, Seq::empty(), first_worker)[k] =~= staged[k]);
    }
    assert(stage(staged, Seq::empty(), first_worker) =~= staged);
}

/// How the first message of `t` bears on what all its messages amount to.
proof fn lemma_absorb_step(
    t: Seq<u8>,
    staged: Seq<Seq<Seq<u8>>>,
    senders: nat,
    first_worker: int,
    workers: nat,
)
    requires
        has_message(t),
        senders > 0,
        verdict(t, senders, first_worker, workers) !is Fault,
    ensures
        ({
            let header = decode(t);
            let message = t.take(header.message_len() as int);
            let tail = t.skip(header.message_len() as int);
            &&& decode(message) == header
            &&& rest(tail) == rest(t)
            &&& stage(stage(staged, seq![message], first_worker), frames(tail), first_worker)
                == stage(staged, frames(t), first_worker)
            &&& if header.length > 0 {
                &&& for_local_workers(header, first_worker, workers)
                &&& stops(frames(tail)) == stops(frames(t))
                &&& verdict(tail, senders, first_worker, workers) !is Fault
            } else {
                &&& stage(staged, seq![message], first_worker) == staged
                &&& stops(frames(tail)) + 1 == stops(frames(t))
                &&& senders == 1 ==> tail.len() == 0
                &&& senders > 1 ==> verdict(tail, (senders - 1) as nat, first_worker, workers)
                    !is Fault
            }
        }),
{
    let header = decode(t);
    let message = t.take(header.message_len() as int);
    let tail = t.skip(header.message_len() as int);
    assert(message + tail =~= t);
    law_header_prefix(message, tail);
    lemma_stops_append(seq![message], frames(tail));
    lemma_stops_one(message);
    lemma_stage_append(staged, seq![message], frames(tail), first_worker);
    if header.length == 0 {
        lemma_stage_stop(staged, message, first_worker);
    }
}

/// Stages one message for the workers that it is addressed to.
fn stage_message(
    staged: &mut Vec<Vec<Vec<u8>>>,
    first_worker: usize,
    header: MessageHeader,
    message: &[u8],
)
    requires
        decode(message@) == header,
        header.length > 0,
        for_local_workers(header, first_worker as int, old(staged)@.len()),
    ensures
        staged_contents(final(staged)@) == stage(
            staged_contents(old(staged)@),
            seq![message@],
            first_worker as int,
        ),
        final(staged)@.len() == old(staged)@.len(),
        forall|k: int|
            0 <= k < old(staged)@.len() ==> contents((#[trigger] final(staged)@[k])@) == contents(
                old(staged)@[k]@,
            ) + (if header.target_lower <= first_worker + k && first_worker + k
                < header.target_upper {
                seq![message@]
            } else {
                Seq::empty()
            }),
{
    let ghost before = staged@;
    let mut target: usize = header.target_lower;
    while target < header.target_upper
        invariant
            header.target_lower <= target,
            target <= header.target_upper || target == header.target_lower,
            staged@.len() == before.len(),
            for_local_workers(header, first_worker as int, before.len()),
            forall|k: int|
                0 <= k < before.len() ==> contents((#[trigger] staged@[k])@) == contents(before[k]@)
                    + (if header.target_lower <= first_worker + k < target {
                    seq![message@]
                } else {
                    Seq::empty()
                }),
        decreases header.target_upper - target,
    {
        assert(header.targets(target as int));
        let index: usize = target - first_worker;
        let ghost step = staged@;
        staged[index].push(slice_to_vec(message));
        assert(contents(staged@[index as int]@) =~= contents(step[index as int]@).push(message@));
        assert forall|k: int| 0 <= k < before.len() implies contents((#[trigger] staged@[k])@)
            == contents(before[k]@) + (if header.target_lower <= first_worker + k < target + 1 {
            seq![message@]
        } else {
            Seq::empty()
        }) by {
            assert(contents(step[k]@) == contents(before[k]@) + (if header.target_lower
                <= first_worker + k < target {
                seq![message@]
            } else {
                Seq::empty()
            }));
            if k == index {
                assert(contents(staged@[k]@) =~= contents(before[k]@) + seq![message@]);
            } else {
                assert(staged@[k] == step[k]);
            }
        }
        target = target + 1;
    }
    proof {
        let (a, b) = (
            staged_contents(staged@),
            stage(staged_contents(before), seq![message@], first_worker as int),
        );
        assert forall|k: int| 0 <= k < before.len() implies a[k] == b[k] by {
            let worker = first_worker + k;
            lemma_filter_one(
                message@,
                |part: Seq<u8>| decode(part).length > 0 && decode(part).targets(worker),
            );
            assert(contents(staged@[k]@) == contents(before[k]@) + (if header.target_lower
                <= first_worker + k < target {
                seq![message@]
            } else {
                Seq::empty()
            }));
        }
        assert(a =~= b);
    }
}

/// Whether the message is for workers of this process alone.
fn is_for_local_workers(header: &MessageHeader, first_worker: usize, workers: usize) -> (local: bool)
    ensures
        local == for_local_workers(*header, first_worker as int, workers as nat),
{
    let local = header.target_lower >= header.target_upper || (header.target_lower >= first_worker
        && header.target_upper - first_worker <= workers);
    proof {
        if header.target_lower < header.target_upper {
            assert(header.targets(header.target_lower as int));
            assert(header.targets(header.target_upper - 1));
        }
    }
    local
}

impl Receiver {
    /// Whether there is a place for the messages of each worker.
    pub closed spec fn inv(self) -> bool {
        self.staged@.len() == self.workers
    }

    /// A receiver for the `workers` workers from `first_worker` on. `senders` is the number of
    /// senders that share the stream, each of which announces its end.
    pub fn new(first_worker: usize, workers: usize, senders: usize) -> (receiver: Receiver)
        requires
            senders > 0,
        ensures
            receiver.inv(),
            receiver@.first_worker == first_worker,
            receiver@.workers == workers,
            receiver@.senders == senders,
            receiver@.buffer == Seq::<u8>::empty(),
            receiver@.staged == Seq::new(workers as nat, |k: int| Seq::<Seq<u8>>::empty()),
    {
        let staged = empty_stages(workers);
        Receiver { first_worker, workers, senders, buffer: Vec::new(), staged }
    }

    /// What the bytes in the buffer amount to, and the headers of the messages that are looked at.
    fn judge(&self) -> (result: (Verdict, Vec<MessageHeader>))
        requires
            self.inv(),
            self@.senders > 0,
        ensures
            result.0 == self@.judge(Seq::empty()),
            result.1@ == self@.headers(Seq::empty()),
    {
        let bytes = self.buffer.as_slice();
        let first_worker = self.first_worker;
        let workers = self.workers;
        let ghost decoded = |message: Seq<u8>| decode(message);
        let ghost all = self@.headers(Seq::empty());
        let mut headers: Vec<MessageHeader> = Vec::new();
        let mut offset: usize = 0;
        let mut senders: usize = self.senders;
        assert(bytes@.skip(0) =~= self@.buffer + Seq::empty());
        assert(headers@ + all =~= all);
        loop
            invariant
                offset <= bytes@.len(),
                senders > 0,
                decoded == |message: Seq<u8>| decode(message),
                verdict(
                    bytes@.skip(offset as int),
                    senders as nat,
                    first_worker as int,
                    workers as nat,
                ) == self@.judge(Seq::empty()),
                headers@ + judged(
                    bytes@.skip(offset as int),
                    senders as nat,
                    first_worker as int,
                    workers as nat,
                ).map_values(decoded) == all,
                all == self@.headers(Seq::empty()),
            decreases bytes@.len() - offset,
        {
            let ghost s = bytes@.skip(offset as int);
            let ghost before = headers@;
            assert(bytes@.subrange(offset as int, bytes@.len() as int) =~= s);
            let header = match MessageHeader::try_read(slice_subrange(bytes, offset, bytes.len())) {
                Some(header) => header,
                None => {
                    assert(headers@ =~= all);
                    return (Verdict::Open, headers);
                },
            };
            let required = header.required_bytes();
            proof {
                let head = s.take(required as int);
                assert(s.skip(required as int) =~= bytes@.skip(offset + required));
                assert(head + s.skip(required as int) =~= s);
                law_header_prefix(head, s.skip(required as int));
                lemma_headers_step(
                    before,
                    head,
                    s.skip(required as int),
                    first_worker as int,
                    workers as nat,
                );
                assert(before + seq![head].map_values(decoded) =~= before.push(header));
            }
            headers.push(header);
            if header.length > 0 {
                if !is_for_local_workers(&header, first_worker, workers) {
                    return (Verdict::Fault(Fault::WrongTarget), headers);
                }
            } else if senders > 1 {
                senders = senders - 1;
            } else if offset + required < bytes.len() {
                return (Verdict::Fault(Fault::DataAfterShutdown), headers);
            } else {
                return (Verdict::Ended, headers);
            }
            offset = offset + required;
        }
    }
}

/// The header of the first message comes before those of the others.
proof fn lemma_headers_step(
    before: Seq<MessageHeader>,
    head: Seq<u8>,
    tail: Seq<u8>,
    first_worker: int,
    workers: nat,
)
    ensures
        forall|n: nat|
            before + (seq![head] + #[trigger] judged(tail, n, first_worker, workers)).map_values(
                |message: Seq<u8>| decode(message),
            ) == before.push(decode(head)) + judged(tail, n, first_worker, workers).map_values(
                |message: Seq<u8>| decode(message),
            ),
{
    assert forall|n: nat|
        before + (seq![head] + #[trigger] judged(tail, n, first_worker, workers)).map_values(
            |message: Seq<u8>| decode(message),
        ) == before.push(decode(head)) + judged(tail, n, first_worker, workers).map_values(
            |message: Seq<u8>| decode(message),
        ) by {
        let later = judged(tail, n, first_worker, workers);
        assert(before + (seq![head] + later).map_values(|message: Seq<u8>| decode(message))
            =~= before.push(decode(head)) + later.map_values(|message: Seq<u8>| decode(message)));
    }
}

impl Receiver {
    /// Takes in the bytes that have arrived: carves out the whole messages and stages each for
    /// the workers that it is addressed to, unless a message is a fault. Returns what the
    /// arrival amounts to, and the headers of the messages that were looked at.
    pub fn absorb(&mut self, chunk: &[u8]) -> (result: (Verdict, Vec<MessageHeader>))
        requires
            old(self).inv(),
            old(self)@.active(),
        ensures
            final(self).inv(),
            final(self)@ == old(self)@.absorb(chunk@),
            result.0 == old(self)@.judge(chunk@),
            result.1@ == old(self)@.headers(chunk@),
    {
        let ghost before = self@;
        let mut arrived: Vec<u8> = slice_to_vec(chunk);
        self.buffer.append(&mut arrived);
        let ghost s = before.buffer + chunk@;
        assert(self.buffer@ =~= s);
        assert(s + Seq::empty() =~= s);
        let (result, headers) = self.judge();
        match result {
            Verdict::Fault(_) => {},
            _ => self.stage_all(),
        }
        (result, headers)
    }

    /// Stages the whole messages at the front of the buffer.
    fn stage_all(&mut self)
        requires
            old(self).inv(),
            old(self)@.active(),
            old(self)@.judge(Seq::empty()) !is Fault,
        ensures
            final(self).inv(),
            final(self)@ == old(self)@.absorb(Seq::empty()),
    {
        let ghost before = self@;
        let ghost s = self.buffer@;
        assert(s + Seq::empty() =~= s);
        assert(s.skip(0) =~= s);
        let first_worker = self.first_worker;
        let mut offset: usize = 0;
        let mut senders: usize = self.senders;
        let mut staged: Vec<Vec<Vec<u8>>> = Vec::new();
        staged.append(&mut self.staged);
        let mut bytes: Vec<u8> = Vec::new();
        bytes.append(&mut self.buffer);
        assert(bytes@ =~= s);
        assert(staged_contents(staged@) =~= before.staged);
        loop
            invariant
                bytes@ == s,
                offset <= s.len(),
                staged@.len() == before.workers,
                first_worker == before.first_worker,
                senders - stops(frames(s.skip(offset as int))) == before.senders - stops(
                    frames(s),
                ),
                rest(s.skip(offset as int)) == rest(s),
                stage(
                    staged_contents(staged@),
                    frames(s.skip(offset as int)),
                    first_worker as int,
                ) == stage(before.staged, frames(s), first_worker as int),
                offset == s.len() || (senders > 0 && verdict(
                    s.skip(offset as int),
                    senders as nat,
                    first_worker as int,
                    before.workers,
                ) !is Fault),
            ensures
                !has_message(s.skip(offset as int)),
            decreases s.len() - offset,
        {
            let ghost t = s.skip(offset as int);
            assert(bytes@.subrange(offset as int, bytes@.len() as int) =~= t);
            let header = match MessageHeader::try_read(
                slice_subrange(bytes.as_slice(), offset, bytes.len()),
            ) {
                Some(header) => header,
                None => break ,
            };
            let required = header.required_bytes();
            let message = slice_subrange(bytes.as_slice(), offset, offset + required);
            proof {
                assert(message@ =~= t.take(required as int));
                assert(t.skip(required as int) =~= s.skip(offset + required));
                lemma_absorb_step(
                    t,
                    staged_contents(staged@),
                    senders as nat,
                    first_worker as int,
                    before.workers,
                );
            }
            if header.length > 0 {
                stage_message(&mut staged, first_worker, header, message);
            } else {
                senders = senders - 1;
            }
            offset = offset + required;
        }
        self.buffer = bytes.split_off(offset);
        self.senders = senders;
        self.staged = staged;
        proof {
            let t = s.skip(offset as int);
            assert(self.buffer@ =~= t);
            assert(frames(t) == Seq::<Seq<u8>>::empty());
            lemma_no_parts(staged_contents(staged@), first_worker as int);
            let after = before.absorb(Seq::empty());
            assert(self@.staged == after.staged);
            assert(self@.buffer == after.buffer);
            assert(self@.senders == after.senders);
            assert(self@ == after);
        }
    }
}

/// As many empty stages as there are workers.
fn empty_stages(workers: usize) -> (staged: Vec<Vec<Vec<u8>>>)
    ensures
        staged@.len() == workers,
        staged_contents(staged@) == Seq::new(workers as nat, |k: int| Seq::<Seq<u8>>::empty()),
{
    let mut staged: Vec<Vec<Vec<u8>>> = Vec::new();
    let mut k: usize = 0;
    while k < workers
        invariant
            k <= workers,
            staged@.len() == k,
            forall|i: int| 0 <= i < k ==> (#[trigger] staged@[i])@ == Seq::<Vec<u8>>::empty(),
        decreases workers - k,
    {
        staged.push(Vec::new());
        k = k + 1;
    }
    assert forall|i: int| 0 <= i < workers implies contents((#[trigger] staged@[i])@) == Seq::<
        Seq<u8>,
    >::empty() by {
        assert(contents(staged@[i]@) =~= Seq::<Seq<u8>>::empty());
    }
    assert(staged_contents(staged@) =~= Seq::new(
        workers as nat,
        |k: int| Seq::<Seq<u8>>::empty(),
    ));
    staged
}

/// What a receiving thread does next.
pub enum ReceiveStep {
    /// Hand each worker its messages, and go on reading.
    Deliver(Vec<Vec<Vec<u8>>>),
    /// Read once more, to confirm that nothing follows the end of the stream.
    ConfirmEnd,
    /// Hand each worker its messages, and stop.
    Finish(Vec<Vec<Vec<u8>>>),
    /// Take down the computation.
    Panic(Fault),
}

impl ReceiverView {
    /// The state with nothing staged.
    pub open spec fn emptied(self) -> ReceiverView {
        ReceiverView {
            staged: Seq::new(self.staged.len(), |k: int| Seq::<Seq<u8>>::empty()),
            ..self
        }
    }

    /// Whether some sender may still send.
    pub open spec fn active(self) -> bool {
        self.senders > 0
    }
}

impl Receiver {
    /// Takes the messages that are staged for each worker.
    pub fn take_staged(&mut self) -> (staged: Vec<Vec<Vec<u8>>>)
        requires
            old(self).inv(),
        ensures
            final(self).inv(),
            final(self)@ == old(self)@.emptied(),
            staged_contents(staged@) == old(self)@.staged,
    {
        let ghost before = self@;
        let mut staged: Vec<Vec<Vec<u8>>> = Vec::new();
        staged.append(&mut self.staged);
        assert(staged_contents(staged@) =~= before.staged);
        self.staged = empty_stages(self.workers);
        assert(self@.staged =~= before.emptied().staged);
        staged
    }

    /// What to do when a read from the stream of one sender gave `chunk`. Nothing at all means
    /// that the stream ended without being shut down.
    pub fn stream_read(&mut self, chunk: &[u8]) -> (result: (ReceiveStep, Vec<MessageHeader>))
        requires
            old(self).inv(),
            old(self)@.active(),
        ensures
            final(self).inv(),
            chunk@.len() == 0 ==> {
                &&& result.0 == ReceiveStep::Panic(Fault::Closed)
                &&& result.1@.len() == 0
                &&& final(self)@ == old(self)@
            },
            chunk@.len() > 0 ==> {
                let after = old(self)@.absorb(chunk@);
                &&& result.1@ == old(self)@.headers(chunk@)
                &&& match old(self)@.judge(chunk@) {
                    Verdict::Open => {
                        &&& result.0 matches ReceiveStep::Deliver(staged)
                        &&& staged_contents(staged@) == after.staged
                        &&& final(self)@ == after.emptied()
                    },
                    Verdict::Ended => {
                        &&& result.0 == ReceiveStep::ConfirmEnd
                        &&& final(self)@ == after
                    },
                    Verdict::Fault(fault) => {
                        &&& result.0 == ReceiveStep::Panic(fault)
                        &&& final(self)@ == after
                    },
                }
            },
    {
        if chunk.len() == 0 {
            return (ReceiveStep::Panic(Fault::Closed), Vec::new());
        }
        let (verdict, headers) = self.absorb(chunk);
        let step = match verdict {
            Verdict::Open => ReceiveStep::Deliver(self.take_staged()),
            Verdict::Ended => ReceiveStep::ConfirmEnd,
            Verdict::Fault(fault) => ReceiveStep::Panic(fault),
        };
        (step, headers)
    }

    /// What to do when the read that confirms the end of the stream gave `read` bytes.
    pub fn stream_end(&mut self, read: usize) -> (step: ReceiveStep)
        requires
            old(self).inv(),
        ensures
            final(self).inv(),
            read > 0 ==> {
                &&& step == ReceiveStep::Panic(Fault::DataAfterShutdown)
                &&& final(self)@ == old(self)@
            },
            read == 0 ==> {
                &&& step matches ReceiveStep::Finish(staged)
                &&& staged_contents(staged@) == old(self)@.staged
                &&& final(self)@ == old(self)@.emptied()
            },
    {
        if read > 0 {
            ReceiveStep::Panic(Fault::DataAfterShutdown)
        } else {
            ReceiveStep::Finish(self.take_staged())
        }
    }

    /// What to do when a read from one of several streams of a connection gave `chunk`. Nothing at
    /// all means that the stream ended without being shut down. As the streams of a connection are
    /// closed with it, no further read confirms the end.
    pub fn queue_read(&mut self, chunk: &[u8]) -> (result: (ReceiveStep, Vec<MessageHeader>))
        requires
            old(self).inv(),
            old(self)@.active(),
        ensures
            final(self).inv(),
            chunk@.len() == 0 ==> {
                &&& result.0 == ReceiveStep::Panic(Fault::Closed)
                &&& result.1@.len() == 0
                &&& final(self)@ == old(self)@
            },
            chunk@.len() > 0 ==> {
                let after = old(self)@.absorb(chunk@);
                &&& result.1@ == old(self)@.headers(chunk@)
                &&& match old(self)@.judge(chunk@) {
                    Verdict::Open => {
                        &&& result.0 matches ReceiveStep::Deliver(staged)
                        &&& staged_contents(staged@) == after.staged
                        &&& final(self)@ == after.emptied()
                    },
                    Verdict::Ended => {
                        &&& result.0 matches ReceiveStep::Finish(staged)
                        &&& staged_contents(staged@) == after.staged
                        &&& final(self)@ == after.emptied()
                    },
                    Verdict::Fault(fault) => {
                        &&& result.0 == ReceiveStep::Panic(fault)
                        &&& final(self)@ == after
                    },
                }
            },
    {
        if chunk.len() == 0 {
            return (ReceiveStep::Panic(Fault::Closed), Vec::new());
        }
        let (verdict, headers) = self.absorb(chunk);
        let step = match verdict {
            Verdict::Open => ReceiveStep::Deliver(self.take_staged()),
            Verdict::Ended => ReceiveStep::Finish(self.take_staged()),
            Verdict::Fault(fault) => ReceiveStep::Panic(fault),
        };
        (step, headers)
    }

    /// What to do when the inbox that all processes of the host share gave `slices`.
    pub fn inbox_read(&mut self, slices: &Vec<Vec<u8>>) -> (result: (
        ReceiveStep,
        Vec<MessageHeader>,
    ))
        requires
            old(self).inv(),
            old(self)@.active(),
        ensures
            final(self).inv(),
            ({
                let chunk = concat(contents(slices@));
                let after = old(self)@.absorb(chunk);
                &&& result.1@ == old(self)@.headers(chunk)
                &&& match old(self)@.judge(chunk) {
                    Verdict::Open => {
                        &&& result.0 matches ReceiveStep::Deliver(staged)
                        &&& staged_contents(staged@) == after.staged
                        &&& final(self)@ == after.emptied()
                    },
                    Verdict::Ended => {
                        &&& result.0 matches ReceiveStep::Finish(staged)
                        &&& staged_contents(staged@) == after.staged
                        &&& final(self)@ == after.emptied()
                    },
                    Verdict::Fault(fault) => {
                        &&& result.0 == ReceiveStep::Panic(fault)
                        &&& final(self)@ == after
                    },
                }
            }),
    {
        let chunk = join(slices);
        let (verdict, headers) = self.absorb(chunk.as_slice());
        let step = match verdict {
            Verdict::Open => ReceiveStep::Deliver(self.take_staged()),
            Verdict::Ended => ReceiveStep::Finish(self.take_staged()),
            Verdict::Fault(fault) => ReceiveStep::Panic(fault),
        };
        (step, headers)
    }
}

/// The bytes of all `parts`, one after the other.
pub fn join(parts: &Vec<Vec<u8>>) -> (bytes: Vec<u8>)
    ensures
        bytes@ == concat(contents(parts@)),
{
    let mut bytes: Vec<u8> = Vec::new();
    let mut i: usize = 0;
    assert(contents(parts@.take(0)) =~= Seq::empty());
    while i < parts.len()
        invariant
            i <= parts@.len(),
            bytes@ == concat(contents(parts@.take(i as int))),
        decreases parts@.len() - i,
    {
        let mut part: Vec<u8> = slice_to_vec(parts[i].as_slice());
        proof {
            let (a, b) = (contents(parts@.take(i as int)), seq![parts@[i as int]@]);
            assert(contents(parts@.take(i + 1)) =~= a + b);
            lemma_concat_append(a, b);
            reveal_with_fuel(concat, 2);
            assert(concat(b) =~= parts@[i as int]@);
        }
        bytes.append(&mut part);
        i = i + 1;
    }
    assert(parts@.take(i as int) =~= parts@);
    bytes
}

/// A stream is open as long as some sender has not announced its end. It is ended by the header of
/// the last sender to do so, and by nothing else: that header is its last message, and nothing
/// follows it.
pub proof fn law_stream_ends_with_its_header(
    s: Seq<u8>,
    senders: nat,
    first_worker: int,
    workers: nat,
)
    requires
        senders > 0,
    ensures
        verdict(s, senders, first_worker, workers) == Verdict::Open ==> stops(frames(s)) < senders,
        verdict(s, senders, first_worker, workers) == Verdict::Ended ==> {
            &&& stops(frames(s)) == senders
            &&& frames(s).len() > 0
            &&& decode(frames(s).last()).length == 0
            &&& rest(s).len() == 0
        },
    decreases s.len(),
{
    lemma_no_parts(Seq::empty(), first_worker);
    if has_message(s) {
        let header = decode(s);
        let n = header.message_len() as int;
        let (message, tail) = (s.take(n), s.skip(n));
        assert(message + tail =~= s);
        law_header_prefix(message, tail);
        lemma_stops_append(seq![message], frames(tail));
        lemma_stops_one(message);
        if header.length > 0 {
            law_stream_ends_with_its_header(tail, senders, first_worker, workers);
        } else if senders > 1 {
            law_stream_ends_with_its_header(tail, (senders - 1) as nat, first_worker, workers);
        } else if tail.len() == 0 {
            assert(frames(tail) =~= Seq::empty());
            assert(frames(s) =~= seq![message]);
            assert(rest(s) == rest(tail));
        }
        if frames(tail).len() > 0 {
            assert(frames(s).last() == frames(tail).last());
        }
    } else {
        assert(frames(s) =~= Seq::empty());
    }
}

/// Without a fault all messages are looked at. A fault shows at the last message that is looked
/// at, and at none before it: it is for a worker of another process, or it is the end of the last
/// sender's stream, behind which there is more.
#[verifier::rlimit(40)]
pub proof fn law_judged_messages(s: Seq<u8>, senders: nat, first_worker: int, workers: nat)
    requires
        senders > 0,
    ensures
        ({
            let parts = judged(s, senders, first_worker, workers);
            &&& parts.len() <= frames(s).len()
            &&& parts == frames(s).take(parts.len() as int)
            &&& match verdict(s, senders, first_worker, workers) {
                Verdict::Fault(fault) => {
                    &&& parts.len() > 0
                    &&& fault == Fault::WrongTarget ==> !for_local_workers(
                        decode(parts.last()),
                        first_worker,
                        workers,
                    )
                    &&& fault == Fault::WrongTarget <==> decode(parts.last()).length > 0
                    &&& fault != Fault::WrongTarget ==> stops(parts) == senders
                    &&& stops(parts.drop_last()) < senders
                    &&& forall|i: int|
                        0 <= i < parts.len() - 1 && decode(parts[i]).length > 0
                            ==> for_local_workers(
                            decode(#[trigger] parts[i]),
                            first_worker,
                            workers,
                        )
                },
                _ => parts == frames(s),
            }
        }),
    decreases s.len(),
{
    let parts = judged(s, senders, first_worker, workers);
    if has_message(s) {
        let header = decode(s);
        let n = header.message_len() as int;
        let (message, tail) = (s.take(n), s.skip(n));
        assert(message + tail =~= s);
        law_header_prefix(message, tail);
        let left = if header.length == 0 && senders > 1 {
            (senders - 1) as nat
        } else {
            senders
        };
        law_judged_messages(tail, left, first_worker, workers);
        let later = judged(tail, left, first_worker, workers);
        lemma_no_parts(Seq::empty(), first_worker);
        lemma_stops_one(message);
        if parts == seq![message] + later {
            lemma_stops_append(seq![message], later);
            if later.len() > 0 {
                assert(parts.drop_last() =~= seq![message] + later.drop_last());
                lemma_stops_append(seq![message], later.drop_last());
                let fault = verdict(s, senders, first_worker, workers) is Fault;
                assert forall|i: int|
                    fault && 0 <= i < parts.len() - 1 && decode(
                        parts[i],
                    ).length > 0 implies for_local_workers(
                    decode(#[trigger] parts[i]),
                    first_worker,
                    workers,
                ) by {
                    if i > 0 {
                        assert(parts[i] == later[i - 1]);
                    }
                }
            }
            assert(frames(s).take(parts.len() as int) =~= seq![message] + frames(tail).take(
                later.len() as int,
            ));
            assert(later.len() > 0 ==> parts.last() == later.last());
        } else {
            assert(parts == seq![message]);
            assert(parts.drop_last() =~= Seq::empty());
            assert(frames(s).take(1) =~= seq![message]);
            if tail.len() == 0 {
                assert(frames(tail) =~= Seq::empty());
                assert(frames(s) =~= seq![message]);
            }
        }
    } else {
        assert(frames(s).take(0) =~= Seq::empty());
    }
}

/// Of a stream that is open, what arrives later decides alone; a fault stays a fault; and data
/// behind the end of the stream is a fault.
pub proof fn law_verdict_append(
    s: Seq<u8>,
    t: Seq<u8>,
    senders: nat,
    first_worker: int,
    workers: nat,
)
    requires
        senders > 0,
    ensures
        match verdict(s, senders, first_worker, workers) {
            Verdict::Open => {
                &&& stops(frames(s)) < senders
                &&& verdict(s + t, senders, first_worker, workers) == verdict(
                    rest(s) + t,
                    senders_after(senders, frames(s)),
                    first_worker,
                    workers,
                )
            },
            Verdict::Ended => {
                &&& stops(frames(s)) == senders
                &&& t.len() > 0 ==> verdict(s + t, senders, first_worker, workers)
                    == Verdict::Fault(Fault::DataAfterShutdown)
            },
            Verdict::Fault(fault) => verdict(s + t, senders, first_worker, workers)
                == Verdict::Fault(fault),
        },
    decreases s.len(),
{
    if has_message(s) {
        let header = decode(s);
        let n = header.message_len() as int;
        let (message, tail) = (s.take(n), s.skip(n));
        law_header_prefix(s, t);
        assert(message + tail =~= s);
        law_header_prefix(message, tail);
        assert((s + t).skip(n) =~= tail + t);
        lemma_stops_append(seq![message], frames(tail));
        lemma_stops_one(message);
        if header.length > 0 {
            if for_local_workers(header, first_worker, workers) {
                law_verdict_append(tail, t, senders, first_worker, workers);
            }
        } else if senders > 1 {
            let fewer = (senders - 1) as nat;
            law_verdict_append(tail, t, fewer, first_worker, workers);
            assert(senders_after(fewer, frames(tail)) == senders_after(senders, frames(s)));
        } else {
            lemma_no_parts(Seq::empty(), first_worker);
            if tail.len() == 0 {
                assert(frames(tail) =~= Seq::empty());
            }
        }
    } else {
        lemma_no_parts(Seq::empty(), first_worker);
        assert(frames(s) =~= Seq::empty());
    }
}

/// A message for one worker is delivered to this worker once and to no other, and of all processes
/// with `workers` workers each, only that of the worker takes it in.
pub proof fn law_message_reaches_one_worker(
    message: Seq<u8>,
    target: int,
    worker: int,
    process: int,
    workers: nat,
)
    requires
        decode(message).length > 0,
        decode(message).target_lower == target,
        decode(message).target_upper == target + 1,
    ensures
        delivered(seq![message], worker) == (if worker == target {
            seq![message]
        } else {
            Seq::<Seq<u8>>::empty()
        }),
        for_local_workers(decode(message), process * workers, workers) <==> process * workers
            <= target < process * workers + workers,
{
    lemma_filter_one(
        message,
        |part: Seq<u8>| decode(part).length > 0 && decode(part).targets(worker),
    );
    assert(decode(message).targets(target));
}

/// However a read fails, the receiver panics with a message that can be told by how it begins.
pub proof fn law_failed_read_is_communication_error(error: ReadError)
    ensures
        "timely communication error:"@.is_prefix_of(read_error_message(error)),
{
    law_closed_stream_is_communication_error();
    match error {
        ReadError::ConnectionClosed(reason) => {
            law_panic_message_prefix("opening stream"@, reason@);
        },
        ReadError::EndOfStream => {},
        ReadError::Other(cause) => {
            law_panic_message_prefix("opening stream"@, cause@);
        },
    }
}

/// A receiver whose stream ends without being shut down panics with a message that can be told by
/// how it begins.
pub proof fn law_closed_stream_is_communication_error()
    ensures
        "timely communication error:"@.is_prefix_of(fault_message(Fault::Closed)),
{
    law_panic_message_prefix("reading data"@, "socket closed"@);
}

/// Whether the message is for workers of this process alone can be told from the bounds of its
/// targets: there are none, or the first and the last of them are workers of this process.
pub proof fn law_local_targets(header: MessageHeader, first_worker: int, workers: nat)
    ensures
        for_local_workers(header, first_worker, workers) <==> (header.target_lower
            >= header.target_upper || (first_worker <= header.target_lower && header.target_upper
            <= first_worker + workers)),
{
    if header.target_lower < header.target_upper {
        assert(header.targets(header.target_lower as int));
        assert(header.targets(header.target_upper - 1));
    }
}

/// Of one message more a worker gets this message, behind all others, exactly if it has data and the
/// worker is in the range of its targets, however wide this range is.
pub proof fn law_delivered_one_by_one(parts: Seq<Seq<u8>>, message: Seq<u8>, worker: int)
    ensures
        delivered(Seq::empty(), worker) == Seq::<Seq<u8>>::empty(),
        delivered(parts.push(message), worker) == (if decode(message).length > 0 && decode(
            message,
        ).target_lower <= worker && worker < decode(message).target_upper {
            delivered(parts, worker).push(message)
        } else {
            delivered(parts, worker)
        }),
{
    let pred = |part: Seq<u8>| decode(part).length > 0 && decode(part).targets(worker);
    reveal(Seq::filter);
    assert(parts.push(message).drop_last() =~= parts);
    assert(Seq::<Seq<u8>>::empty().filter(pred) =~= Seq::empty());
}

/// One message more is one end more exactly if it has no data.
pub proof fn law_stops_one_by_one(parts: Seq<Seq<u8>>, message: Seq<u8>)
    ensures
        stops(Seq::empty()) == 0,
        stops(parts.push(message)) == stops(parts) + (if decode(message).length == 0 {
            1int
        } else {
            0int
        }),
{
    lemma_no_parts(Seq::empty(), 0);
    assert(parts.push(message) =~= parts + seq![message]);
    lemma_stops_append(parts, seq![message]);
    lemma_stops_one(message);
}

/// What is staged is what the lists hold, at the same places.
pub proof fn law_staged_contents(staged: Seq<Vec<Vec<u8>>>, k: int, i: int)
    requires
        0 <= k < staged.len(),
        0 <= i < staged[k]@.len(),
    ensures
        staged_contents(staged).len() == staged.len(),
        staged_contents(staged)[k].len() == staged[k]@.len(),
        staged_contents(staged)[k][i] == staged[k]@[i]@,
        contents(staged[k]@).len() == staged[k]@.len(),
        contents(staged[k]@)[i] == staged[k]@[i]@,
{
}

/// Without a fault, what arrives is carved into messages, of which each worker of the process gets
/// behind what is staged for it already those that are delivered to it, each sender that announces
/// its end is no longer counted, and what is less than a message waits. With a fault nothing but the
/// bytes is taken in. Handing over takes what is staged, and nothing else.
pub proof fn law_arrival(v: ReceiverView, chunk: Seq<u8>, k: int)
    requires
        v.active(),
        0 <= k < v.staged.len(),
    ensures
        v.senders > 0,
        v.judge(chunk) == verdict(v.buffer + chunk, v.senders, v.first_worker, v.workers),
        v.headers(chunk) == judged(
            v.buffer + chunk,
            v.senders,
            v.first_worker,
            v.workers,
        ).map_values(|message: Seq<u8>| decode(message)),
        v.absorb(chunk).first_worker == v.first_worker,
        v.absorb(chunk).workers == v.workers,
        v.absorb(chunk).staged.len() == v.staged.len(),
        v.judge(chunk) !is Fault ==> {
            &&& v.absorb(chunk).buffer == rest(v.buffer + chunk)
            &&& v.absorb(chunk).senders == v.senders - stops(frames(v.buffer + chunk))
            &&& v.absorb(chunk).staged[k] == v.staged[k] + delivered(
                frames(v.buffer + chunk),
                v.first_worker + k,
            )
        },
        v.judge(chunk) is Fault ==> {
            &&& v.absorb(chunk).buffer == v.buffer + chunk
            &&& v.absorb(chunk).senders == v.senders
            &&& v.absorb(chunk).staged == v.staged
        },
        v.emptied().first_worker == v.first_worker,
        v.emptied().workers == v.workers,
        v.emptied().senders == v.senders,
        v.emptied().buffer == v.buffer,
        v.emptied().staged.len() == v.staged.len(),
        v.emptied().staged[k].len() == 0,
{
    law_stream_ends_with_its_header(v.buffer + chunk, v.senders, v.first_worker, v.workers);
}

/// A message with data that arrives at the process of its targets is handed to a worker exactly if
/// the worker is in the range of its targets: to each worker in the range, be there one, several or
/// all of them, once and behind what it has been handed before, and to no other.
pub proof fn law_message_is_handed_to_its_range(v: ReceiverView, message: Seq<u8>, k: int)
    requires
        v.active(),
        v.buffer.len() == 0,
        v.staged.len() == v.workers,
        0 <= k < v.workers,
        message.len() >= 48,
        message.len() == 48 + decode(message).length,
        decode(message).length > 0,
        v.first_worker <= decode(message).target_lower,
        decode(message).target_upper <= v.first_worker + v.workers,
    ensures
        v.judge(message) == Verdict::Open,
        v.absorb(message).buffer.len() == 0,
        v.absorb(message).senders == v.senders,
        v.absorb(message).staged[k] == (if decode(message).target_lower <= v.first_worker + k
            && v.first_worker + k < decode(message).target_upper {
            v.staged[k].push(message)
        } else {
            v.staged[k]
        }),
{
    let none = Seq::<Seq<u8>>::empty();
    assert(v.buffer + message =~= message);
    assert(message.take(message.len() as int) =~= message);
    assert(message.skip(message.len() as int) =~= Seq::empty());
    assert(frames(message.skip(message.len() as int)) =~= none);
    assert(frames(message) =~= none.push(message));
    assert(rest(message) == rest(message.skip(message.len() as int)));
    law_local_targets(decode(message), v.first_worker, v.workers);
    law_delivered_one_by_one(none, message, v.first_worker + k);
    law_stops_one_by_one(none, message);
    assert(verdict(message, v.senders, v.first_worker, v.workers) == verdict(
        message.skip(message.len() as int),
        v.senders,
        v.first_worker,
        v.workers,
    ));
    law_arrival(v, message, k);
    assert(v.absorb(message).staged[k] =~= (if decode(message).target_lower <= v.first_worker + k
        && v.first_worker + k < decode(message).target_upper {
        v.staged[k].push(message)
    } else {
        v.staged[k]
    }));
}

/// Whether all messages with data are for workers of this process.
spec fn all_local(parts: Seq<Seq<u8>>, first_worker: int, workers: nat) -> bool {
    forall|i: int|
        0 <= i < parts.len() && decode(parts[i]).length > 0 ==> for_local_workers(
            decode(#[trigger] parts[i]),
            first_worker,
            workers,
        )
}

/// Whether a message is for a worker of another process, before the last sender's end.
spec fn some_astray(parts: Seq<Seq<u8>>, senders: int, first_worker: int, workers: nat) -> bool {
    exists|i: int|
        {
            &&& 0 <= i < parts.len()
            &&& decode(parts[i]).length > 0
            &&& !for_local_workers(decode(#[trigger] parts[i]), first_worker, workers)
            &&& stops(parts.take(i)) < senders
        }
}

/// How the first message bears on whether all are for workers of this process.
#[verifier::rlimit(40)]
proof fn lemma_first_message(
    message: Seq<u8>,
    later: Seq<Seq<u8>>,
    senders: int,
    first_worker: int,
    workers: nat,
)
    requires
        senders > 0,
    ensures
        ({
            let parts = seq![message] + later;
            let data = decode(message).length > 0;
            let local = for_local_workers(decode(message), first_worker, workers);
            &&& stops(parts) == stops(later) + (if data { 0int } else { 1int })
            &&& all_local(parts, first_worker, workers) <==> (data ==> local) && all_local(
                later,
                first_worker,
                workers,
            )
            &&& some_astray(parts, senders, first_worker, workers) <==> (data && !local)
                || some_astray(
                later,
                senders - (if data { 0int } else { 1int }),
                first_worker,
                workers,
            )
        }),
{
    let parts = seq![message] + later;
    let left = senders - (if decode(message).length > 0 { 0int } else { 1int });
    lemma_no_parts(Seq::empty(), first_worker);
    lemma_stops_append(seq![message], later);
    lemma_stops_one(message);
    assert(parts[0] == message);
    assert(parts.take(0) =~= Seq::empty());
    assert forall|i: int| 0 <= i < later.len() implies stops(parts.take(i + 1)) == stops(
        seq![message],
    ) + stops(#[trigger] later.take(i)) by {
        assert(parts.take(i + 1) =~= seq![message] + later.take(i));
        lemma_stops_append(seq![message], later.take(i));
    }
    if all_local(parts, first_worker, workers) {
        assert forall|i: int| 0 <= i < later.len() && decode(
            later[i],
        ).length > 0 implies for_local_workers(
            decode(#[trigger] later[i]),
            first_worker,
            workers,
        ) by {
            assert(parts[i + 1] == later[i]);
        }
    }
    if some_astray(parts, senders, first_worker, workers) {
        let i = choose|i: int|
            {
                &&& 0 <= i < parts.len()
                &&& decode(parts[i]).length > 0
                &&& !for_local_workers(decode(#[trigger] parts[i]), first_worker, workers)
                &&& stops(parts.take(i)) < senders
            };
        if i > 0 {
            assert(later[i - 1] == parts[i]);
            assert(stops(parts.take(i - 1 + 1)) == stops(seq![message]) + stops(
                later.take(i - 1),
            ));
        }
    }
    if some_astray(later, left, first_worker, workers) {
        let i = choose|i: int|
            {
                &&& 0 <= i < later.len()
                &&& decode(later[i]).length > 0
                &&& !for_local_workers(decode(#[trigger] later[i]), first_worker, workers)
                &&& stops(later.take(i)) < left
            };
        assert(parts[i + 1] == later[i]);
        assert(stops(parts.take(i + 1)) == stops(seq![message]) + stops(later.take(i)));
    }
}

/// Where nothing announces an end, the last message has data.
proof fn lemma_last_is_no_stop(parts: Seq<Seq<u8>>)
    requires
        parts.len() > 0,
        stops(parts) == 0,
    ensures
        decode(parts.last()).length > 0,
{
    assert(parts.drop_last().push(parts.last()) =~= parts);
    law_stops_one_by_one(parts.drop_last(), parts.last());
}

/// What the messages that have arrived amount to. The stream is open as long as not every sender has
/// announced its end and all messages are for workers of this process. It is ended where the last
/// end is that of the last sender and nothing follows it. It is a fault of its target where, before
/// the last sender's end, there is a message for a worker of another process. In all other cases
/// something follows the end.
pub proof fn law_verdict_of_messages(s: Seq<u8>, senders: nat, first_worker: int, workers: nat)
    requires
        senders > 0,
    ensures
        verdict(s, senders, first_worker, workers) == Verdict::Open <==> {
            &&& stops(frames(s)) < senders
            &&& forall|i: int|
                0 <= i < frames(s).len() && decode(frames(s)[i]).length > 0 ==> for_local_workers(
                    decode(#[trigger] frames(s)[i]),
                    first_worker,
                    workers,
                )
        },
        verdict(s, senders, first_worker, workers) == Verdict::Ended <==> {
            &&& stops(frames(s)) == senders
            &&& frames(s).len() > 0
            &&& decode(frames(s).last()).length == 0
            &&& rest(s).len() == 0
            &&& forall|i: int|
                0 <= i < frames(s).len() && decode(frames(s)[i]).length > 0 ==> for_local_workers(
                    decode(#[trigger] frames(s)[i]),
                    first_worker,
                    workers,
                )
        },
        verdict(s, senders, first_worker, workers) == Verdict::Fault(Fault::WrongTarget)
            <==> exists|i: int|
            {
                &&& 0 <= i < frames(s).len()
                &&& decode(frames(s)[i]).length > 0
                &&& !for_local_workers(decode(#[trigger] frames(s)[i]), first_worker, workers)
                &&& stops(frames(s).take(i)) < senders
            },
        verdict(s, senders, first_worker, workers) != Verdict::Fault(Fault::Closed),
{
    lemma_verdict_of_messages(s, senders, first_worker, workers);
}

/// What the messages that have arrived amount to, in short.
proof fn lemma_verdict_of_messages(s: Seq<u8>, senders: nat, first_worker: int, workers: nat)
    requires
        senders > 0,
    ensures
        verdict(s, senders, first_worker, workers) == Verdict::Open <==> stops(frames(s)) < senders
            && all_local(frames(s), first_worker, workers),
        verdict(s, senders, first_worker, workers) == Verdict::Ended <==> {
            &&& stops(frames(s)) == senders
            &&& frames(s).len() > 0
            &&& decode(frames(s).last()).length == 0
            &&& rest(s).len() == 0
            &&& all_local(frames(s), first_worker, workers)
        },
        verdict(s, senders, first_worker, workers) == Verdict::Fault(Fault::WrongTarget)
            <==> some_astray(frames(s), senders as int, first_worker, workers),
        verdict(s, senders, first_worker, workers) != Verdict::Fault(Fault::Closed),
    decreases s.len(),
{
    lemma_no_parts(Seq::empty(), first_worker);
    if has_message(s) {
        let header = decode(s);
        let n = header.message_len() as int;
        let (message, tail) = (s.take(n), s.skip(n));
        let later = frames(tail);
        assert(message + tail =~= s);
        law_header_prefix(message, tail);
        lemma_first_message(message, later, senders as int, first_worker, workers);
        if later.len() > 0 {
            assert(frames(s).last() == later.last());
        } else {
            assert(frames(s).last() == message);
        }
        if header.length > 0 {
            if for_local_workers(header, first_worker, workers) {
                lemma_verdict_of_messages(tail, senders, first_worker, workers);
                assert(later.len() == 0 ==> stops(later) == 0) by {
                    assert(later.len() == 0 ==> later =~= Seq::empty());
                }
            }
        } else if senders > 1 {
            lemma_verdict_of_messages(tail, (senders - 1) as nat, first_worker, workers);
            assert(later.len() == 0 ==> stops(later) == 0) by {
                assert(later.len() == 0 ==> later =~= Seq::empty());
            }
        } else if tail.len() > 0 {
            law_frames_cover(tail);
            if later.len() > 0 {
                if stops(later) == 0 {
                    lemma_last_is_no_stop(later);
                }
            } else {
                assert(concat(later) + rest(tail) =~= rest(tail));
            }
            assert(rest(s) == rest(tail));
        } else {
            assert(later =~= Seq::empty());
            assert(rest(s) == rest(tail));
            assert(rest(tail) == tail);
        }
    } else {
        assert(frames(s) =~= Seq::empty());
    }
}

/// The words of the panic of a receiver.
pub proof fn law_words_of_faults()
    ensures
        fault_message(Fault::Closed) == "timely communication error: reading data: socket closed"@,
        fault_message(Fault::DataAfterShutdown) == "Clean shutdown followed by data."@,
        fault_message(Fault::WrongTarget) == "Message for a worker of another process."@,
{
    reveal_strlit("timely communication error: ");
    reveal_strlit("reading data");
    reveal_strlit(": ");
    reveal_strlit("socket closed");
    reveal_strlit("timely communication error: reading data: socket closed");
    assert(fault_message(Fault::Closed)
        =~= "timely communication error: reading data: socket closed"@);
}

/// The words of the panic of a receiver whose read has failed: a connection that has been closed in
/// good order, and a stream that has ended, are closed too early, and any other cause is told.
pub proof fn law_words_of_failed_reads(error: ReadError)
    ensures
        match error {
            ReadError::ConnectionClosed(reason) => if reason@ == "done"@ {
                read_error_message(error)
                    == "timely communication error: reading data: socket closed"@
            } else {
                read_error_message(error) == "timely communication error: opening stream: "@
                    + reason@
            },
            ReadError::EndOfStream => read_error_message(error)
                == "timely communication error: reading data: socket closed"@,
            ReadError::Other(cause) => read_error_message(error)
                == "timely communication error: opening stream: "@ + cause@,
        },
{
    law_words_of_faults();
    reveal_strlit("timely communication error: ");
    reveal_strlit("opening stream");
    reveal_strlit(": ");
    reveal_strlit("timely communication error: opening stream: ");
    match error {
        ReadError::ConnectionClosed(reason) => {
            assert(communication_error("opening stream"@, reason@)
                =~= "timely communication error: opening stream: "@ + reason@);
        },
        ReadError::EndOfStream => {},
        ReadError::Other(cause) => {
            assert(communication_error("opening stream"@, cause@)
                =~= "timely communication error: opening stream: "@ + cause@);
        },
    }
}

} // verus!
