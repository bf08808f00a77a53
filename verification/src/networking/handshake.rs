//! The greeting on a new connection, and the order in which the connections to the other
//! processes are kept.
//!
//! A process connects to all processes with an index below its own, and waits for the connections
//! from the processes with an index above its own.

use vstd::prelude::*;
use vstd::array::array_as_slice;
use vstd::slice::slice_subrange;

use crate::networking::bytes::{be_bytes, be_u64, law_read_after_write, read_u64, write_u64};

verus! {

/// This constant is sent along immediately after establishing a stream, so that it is easy to
/// sniff out the traffic when it is multiplexed with other traffic on the same port.
pub const HANDSHAKE_MAGIC: u64 = 0xc2f1fb770118add9;

/// This constant opens each stream of a connection that carries several streams.
pub const QUEUE_MAGIC: u64 = 0xdeadc0ffee;

/// The bytes with which process `my_index` greets a process that it has connected to.
pub open spec fn greeting_bytes(my_index: usize) -> Seq<u8> {
    be_bytes(HANDSHAKE_MAGIC) + be_bytes(my_index as u64)
}

/// The greeting on a connection that this process has established.
pub fn greeting(my_index: usize) -> (bytes: Vec<u8>)
    ensures
        bytes@ == greeting_bytes(my_index),
{
    let mut bytes: Vec<u8> = Vec::new();
    write_u64(&mut bytes, HANDSHAKE_MAGIC);
    write_u64(&mut bytes, my_index as u64);
    assert(bytes@ =~= greeting_bytes(my_index));
    bytes
}

/// The process that a greeting comes from, or nothing where it does not start as a greeting does.
pub open spec fn greeted_by(bytes: Seq<u8>) -> Option<usize> {
    if be_u64(bytes, 0) == HANDSHAKE_MAGIC {
        Some(be_u64(bytes, 8) as usize)
    } else {
        None
    }
}

/// Reads the greeting on a connection that another process has established.
pub fn read_greeting(bytes: &[u8; 16]) -> (process: Option<usize>)
    ensures
        process == greeted_by(bytes@),
{
    let buffer = array_as_slice(bytes);
    match (read_u64(buffer), read_u64(slice_subrange(buffer, 8, 16))) {
        (Some(magic), Some(identifier)) => {
            if magic == HANDSHAKE_MAGIC {
                Some(identifier as usize)
            } else {
                None
            }
        },
        _ => None,
    }
}

/// A greeting tells the process that sent it.
pub proof fn law_greeting_round_trip(my_index: usize)
    ensures
        greeting_bytes(my_index).len() == 16,
        greeted_by(greeting_bytes(my_index)) == Some(my_index),
{
    let s = greeting_bytes(my_index);
    assert(s.subrange(0, 8) =~= be_bytes(HANDSHAKE_MAGIC));
    assert(s.subrange(8, 16) =~= be_bytes(my_index as u64));
    law_read_after_write(s, 0, HANDSHAKE_MAGIC);
    law_read_after_write(s, 8, my_index as u64);
}

/// The first bytes of each stream of a connection that carries several streams.
pub fn queue_greeting() -> (bytes: Vec<u8>)
    ensures
        bytes@ == be_bytes(QUEUE_MAGIC),
{
    let mut bytes: Vec<u8> = Vec::new();
    write_u64(&mut bytes, QUEUE_MAGIC);
    assert(bytes@ =~= be_bytes(QUEUE_MAGIC));
    bytes
}

/// Whether a stream starts as the streams of a connection do.
pub fn is_queue_greeting(bytes: &[u8; 8]) -> (valid: bool)
    ensures
        valid == (be_u64(bytes@, 0) == QUEUE_MAGIC),
{
    match read_u64(array_as_slice(bytes)) {
        Some(magic) => magic == QUEUE_MAGIC,
        None => false,
    }
}

/// The greeting of a stream is what its receiver asks for.
pub proof fn law_queue_greeting_accepted()
    ensures
        be_bytes(QUEUE_MAGIC).len() == 8,
        be_u64(be_bytes(QUEUE_MAGIC), 0) == QUEUE_MAGIC,
{
    let s = be_bytes(QUEUE_MAGIC);
    assert(s.subrange(0, 8) =~= s);
    law_read_after_write(s, 0, QUEUE_MAGIC);
}

/// The connections that there are among `slots`, each with its position, in order.
pub open spec fn present<T>(slots: Seq<Option<T>>) -> Seq<(usize, T)>
    decreases slots.len(),
{
    if slots.len() == 0 {
        Seq::empty()
    } else {
        let before = present(slots.drop_last());
        match slots.last() {
            Some(connection) => before.push(((slots.len() - 1) as usize, connection)),
            None => before,
        }
    }
}

/// The connections that there are among `slots`, each with the index of its process.
pub fn connected_processes<T>(slots: Vec<Option<T>>) -> (connected: Vec<(usize, T)>)
    ensures
        connected@ == present(slots@),
{
    let mut connected: Vec<(usize, T)> = Vec::new();
    let mut index: usize = 0;
    let total: usize = slots.len();
    let ghost all = slots@;
    for slot in iter: slots
        invariant
            iter.seq() == all,
            index == iter.index(),
            all.len() == total,
            connected@ == present(all.take(iter.index() as int)),
    {
        assert(all.take(index + 1).drop_last() =~= all.take(index as int));
        if let Some(connection) = slot {
            connected.push((index, connection));
        }
        index = index + 1;
    }
    assert(all.take(all.len() as int) =~= all);
    connected
}

/// What became of a connection that another process has established.
#[derive(Debug, PartialEq, Eq, Structural, Clone, Copy)]
pub enum Admission {
    /// It comes from the process with this index, and has been kept.
    Admitted(usize),
    /// It did not start with a greeting.
    WrongMagic,
    /// It claims to come from the process with this index, which is none that was waited for.
    UnknownProcess(usize),
}

/// The message for a connection that does not start with a greeting.
pub fn wrong_magic_message() -> (message: &'static str)
    ensures
        message@ == "received incorrect timely handshake"@,
{
    "received incorrect timely handshake"
}

/// Keeps the connections from the processes behind process `my_index` that are reached over the
/// network, each at its place, in whatever order they are established.
pub struct Acceptor<T> {
    /// Index of this process.
    pub my_index: usize,
    /// The processes that are waited for.
    pub expected: Vec<usize>,
    /// For each of the processes that are waited for its connection, once it is established.
    pub slots: Vec<Option<T>>,
}

/// The place of process `process` among those that are waited for, if it is one of them.
pub open spec fn place_of(expected: Seq<usize>, process: usize) -> Option<int> {
    if expected.contains(process) {
        Some(expected.index_of_first(process)->0)
    } else {
        None
    }
}

impl<T> Acceptor<T> {
    /// Whether there is a place for each process that is waited for.
    pub open spec fn inv(self) -> bool {
        self.slots@.len() == self.expected@.len()
    }

    /// Waits for the processes `expected`, which are behind process `my_index`.
    pub fn new(my_index: usize, expected: Vec<usize>) -> (acceptor: Acceptor<T>)
        ensures
            acceptor.inv(),
            acceptor.my_index == my_index,
            acceptor.expected@ == expected@,
            acceptor.slots@ == Seq::new(expected@.len(), |k: int| None::<T>),
    {
        let mut slots: Vec<Option<T>> = Vec::new();
        let mut k: usize = 0;
        while k < expected.len()
            invariant
                k <= expected@.len(),
                slots@ == Seq::new(k as nat, |k: int| None::<T>),
            decreases expected@.len() - k,
        {
            slots.push(None);
            k = k + 1;
            assert(slots@ =~= Seq::new(k as nat, |k: int| None::<T>));
        }
        Acceptor { my_index, expected, slots }
    }

    /// The place of process `process`, if it is waited for.
    fn place(&self, process: usize) -> (place: Option<usize>)
        requires
            self.inv(),
        ensures
            match place_of(self.expected@, process) {
                Some(k) => place matches Some(p) && p == k && 0 <= k < self.slots@.len(),
                None => place is None,
            },
    {
        let mut k: usize = 0;
        while k < self.expected.len()
            invariant
                self.inv(),
                k <= self.expected@.len(),
                forall|i: int| 0 <= i < k ==> self.expected@[i] != process,
            decreases self.expected@.len() - k,
        {
            if self.expected[k] == process {
                proof {
                    lemma_first_place(self.expected@, process, k as int);
                }
                return Some(k);
            }
            k = k + 1;
        }
        None
    }

    /// Keeps a connection at the place of the process that its greeting names.
    pub fn keep(&mut self, bytes: &[u8; 16], connection: T) -> (admission: Admission)
        requires
            old(self).inv(),
        ensures
            final(self).inv(),
            final(self).my_index == old(self).my_index,
            final(self).expected@ == old(self).expected@,
            match greeted_by(bytes@) {
                None => {
                    &&& admission == Admission::WrongMagic
                    &&& final(self).slots@ == old(self).slots@
                },
                Some(process) => match place_of(old(self).expected@, process) {
                    Some(k) => {
                        &&& admission == Admission::Admitted(process)
                        &&& final(self).slots@ == old(self).slots@.update(k, Some(connection))
                    },
                    None => {
                        &&& admission == Admission::UnknownProcess(process)
                        &&& final(self).slots@ == old(self).slots@
                    },
                },
            },
    {
        match read_greeting(bytes) {
            None => Admission::WrongMagic,
            Some(process) => match self.place(process) {
                Some(place) => {
                    self.slots.set(place, Some(connection));
                    Admission::Admitted(process)
                },
                None => Admission::UnknownProcess(process),
            },
        }
    }

    /// The connections that have been established, in the order of the processes.
    pub fn into_connections(self) -> (connections: Vec<T>)
        ensures
            connections@ == present(self.slots@).map_values(|c: (usize, T)| c.1),
    {
        let connected = connected_processes(self.slots);
        let ghost all = connected@;
        let mut connections: Vec<T> = Vec::new();
        for pair in iter: connected
            invariant
                iter.seq() == all,
                connections@ == all.take(iter.index() as int).map_values(|c: (usize, T)| c.1),
        {
            assert(all.take(iter.index() + 1).map_values(|c: (usize, T)| c.1) =~= all.take(
                iter.index() as int,
            ).map_values(|c: (usize, T)| c.1).push(pair.1));
            connections.push(pair.1);
        }
        assert(all.take(all.len() as int) =~= all);
        connections
    }
}

/// A process has the first place that is for it.
proof fn lemma_first_place(expected: Seq<usize>, process: usize, k: int)
    requires
        0 <= k < expected.len(),
        expected[k] == process,
        forall|i: int| 0 <= i < k ==> expected[i] != process,
    ensures
        place_of(expected, process) == Some(k),
{
    expected.index_of_first_ensures(process);
}

/// Where no process is waited for twice, a process has the one place that is for it.
proof fn lemma_place(expected: Seq<usize>, k: int)
    requires
        0 <= k < expected.len(),
        expected.no_duplicates(),
    ensures
        place_of(expected, expected[k]) == Some(k),
{
    lemma_first_place(expected, expected[k], k);
}

/// The places after each of `arrivals`, a process and its connection, has been kept in turn.
pub open spec fn fill<T>(
    slots: Seq<Option<T>>,
    expected: Seq<usize>,
    arrivals: Seq<(usize, T)>,
) -> Seq<Option<T>>
    decreases arrivals.len(),
{
    if arrivals.len() == 0 {
        slots
    } else {
        let (process, connection) = arrivals.last();
        let before = fill(slots, expected, arrivals.drop_last());
        match place_of(expected, process) {
            Some(k) => before.update(k, Some(connection)),
            None => before,
        }
    }
}

/// No process has connected yet.
pub open spec fn no_connections<T>(expected: Seq<usize>) -> Seq<Option<T>> {
    Seq::new(expected.len(), |k: int| None::<T>)
}

/// Whether each of the processes `expected`, none of which is named twice, is among `arrivals` once,
/// and no other process is.
pub open spec fn each_arrives_once<T>(
    expected: Seq<usize>,
    arrivals: Seq<(usize, T)>,
) -> bool {
    &&& expected.no_duplicates()
    &&& forall|a: int|
        0 <= a < arrivals.len() ==> expected.contains((#[trigger] arrivals[a]).0)
    &&& forall|a: int, b: int|
        0 <= a < b < arrivals.len() ==> (#[trigger] arrivals[a]).0 != (#[trigger] arrivals[b]).0
    &&& forall|k: int|
        0 <= k < expected.len() ==> exists|a: int|
            0 <= a < arrivals.len() && (#[trigger] arrivals[a]).0 == #[trigger] expected[k]
}

/// No place is lost or added.
proof fn lemma_fill_len<T>(
    slots: Seq<Option<T>>,
    expected: Seq<usize>,
    arrivals: Seq<(usize, T)>,
)
    requires
        slots.len() == expected.len(),
    ensures
        fill(slots, expected, arrivals).len() == slots.len(),
    decreases arrivals.len(),
{
    if arrivals.len() > 0 {
        lemma_fill_len(slots, expected, arrivals.drop_last());
        let process = arrivals.last().0;
        if expected.contains(process) {
            expected.index_of_first_ensures(process);
        }
    }
}

/// A process that arrives once finds its place, whatever arrives before and after it.
proof fn lemma_fill_keeps<T>(
    slots: Seq<Option<T>>,
    expected: Seq<usize>,
    arrivals: Seq<(usize, T)>,
    a: int,
    k: int,
)
    requires
        slots.len() == expected.len(),
        expected.no_duplicates(),
        0 <= a < arrivals.len(),
        0 <= k < expected.len(),
        expected[k] == arrivals[a].0,
        forall|b: int|
            a < b < arrivals.len() ==> (#[trigger] arrivals[b]).0 != arrivals[a].0,
    ensures
        fill(slots, expected, arrivals)[k] == Some(arrivals[a].1),
    decreases arrivals.len(),
{
    let init = arrivals.drop_last();
    let last = arrivals.last();
    lemma_fill_len(slots, expected, init);
    lemma_place(expected, k);
    if a < init.len() {
        assert forall|b: int| a < b < init.len() implies (#[trigger] init[b]).0 != init[a].0 by {
            assert(init[b] == arrivals[b]);
        }
        lemma_fill_keeps(slots, expected, init, a, k);
        assert(arrivals[arrivals.len() - 1].0 != arrivals[a].0);
        if expected.contains(last.0) {
            expected.index_of_first_ensures(last.0);
        }
    }
}

/// Where every place is taken, the connections are those of the places, in order.
proof fn lemma_present_all<T>(slots: Seq<Option<T>>)
    requires
        forall|k: int| 0 <= k < slots.len() ==> (#[trigger] slots[k]) is Some,
        slots.len() <= usize::MAX,
    ensures
        present(slots).len() == slots.len(),
        forall|k: int|
            0 <= k < slots.len() ==> #[trigger] present(slots)[k] == (k as usize, slots[k]->0),
    decreases slots.len(),
{
    if slots.len() > 0 {
        let init = slots.drop_last();
        assert forall|k: int| 0 <= k < init.len() implies (#[trigger] init[k]) is Some by {
            assert(init[k] == slots[k]);
        }
        lemma_present_all(init);
        assert forall|k: int| 0 <= k < slots.len() implies #[trigger] present(slots)[k] == (
            k as usize,
            slots[k]->0,
        ) by {
            if k < init.len() {
                assert(present(slots)[k] == present(init)[k]);
            }
        }
    }
}

/// Once each process has arrived, every place is taken by the connection of its process.
proof fn lemma_all_placed<T>(expected: Seq<usize>, arrivals: Seq<(usize, T)>)
    requires
        each_arrives_once(expected, arrivals),
    ensures
        ({
            let slots = fill(no_connections::<T>(expected), expected, arrivals);
            &&& slots.len() == expected.len()
            &&& forall|k: int| 0 <= k < slots.len() ==> (#[trigger] slots[k]) is Some
            &&& forall|a: int, k: int|
                0 <= a < arrivals.len() && 0 <= k < expected.len() && (#[trigger] arrivals[a]).0
                    == #[trigger] expected[k] ==> slots[k] == Some(arrivals[a].1)
        }),
{
    let empty = no_connections::<T>(expected);
    let slots = fill(empty, expected, arrivals);
    lemma_fill_len(empty, expected, arrivals);
    assert forall|a: int, k: int|
        0 <= a < arrivals.len() && 0 <= k < expected.len() && (#[trigger] arrivals[a]).0
            == #[trigger] expected[k] implies slots[k] == Some(arrivals[a].1) by {
        lemma_fill_keeps(empty, expected, arrivals, a, k);
    }
    assert forall|k: int| 0 <= k < slots.len() implies (#[trigger] slots[k]) is Some by {
        let a = choose|a: int|
            0 <= a < arrivals.len() && (#[trigger] arrivals[a]).0 == expected[k];
        assert(arrivals[a].0 == expected[k]);
    }
}

/// In whatever order the processes that are waited for connect, the connections are theirs, one for
/// each, in the order in which the processes were named.
pub proof fn law_arrival_order_is_irrelevant<T>(
    expected: Seq<usize>,
    arrivals: Seq<(usize, T)>,
)
    requires
        expected.len() <= usize::MAX,
        each_arrives_once(expected, arrivals),
    ensures
        ({
            let slots = fill(no_connections::<T>(expected), expected, arrivals);
            let connections = present(slots).map_values(|c: (usize, T)| c.1);
            &&& connections.len() == expected.len()
            &&& forall|a: int, k: int|
                0 <= a < arrivals.len() && 0 <= k < expected.len() && (#[trigger] arrivals[a]).0
                    == #[trigger] expected[k] ==> connections[k] == arrivals[a].1
        }),
{
    let slots = fill(no_connections::<T>(expected), expected, arrivals);
    lemma_all_placed(expected, arrivals);
    lemma_present_all(slots);
    let connections = present(slots).map_values(|c: (usize, T)| c.1);
    assert forall|a: int, k: int|
        0 <= a < arrivals.len() && 0 <= k < expected.len() && (#[trigger] arrivals[a]).0
            == #[trigger] expected[k] implies connections[k] == arrivals[a].1 by {
        assert(present(slots)[k] == (k as usize, slots[k]->0));
    }
}

/// What a connecting thread does next.
#[derive(Debug, PartialEq, Eq, Structural, Clone, Copy)]
pub enum ConnectStep {
    /// Connect to the address with this index, and greet it.
    Connect(usize),
    /// All connections are established.
    Done,
}

/// Establishes the connections to a number of addresses one after the other, and tries each until
/// it succeeds.
pub struct Connector<T> {
    /// The number of addresses.
    pub addresses: usize,
    /// The connections that are established, those of the first addresses.
    pub connections: Vec<T>,
}

impl<T> Connector<T> {
    /// Connects to `addresses` addresses.
    pub fn new(addresses: usize) -> (connector: Connector<T>)
        ensures
            connector.addresses == addresses,
            connector.connections@ == Seq::<T>::empty(),
    {
        Connector { addresses, connections: Vec::new() }
    }

    /// What to do next: the first address that has no connection yet is tried.
    pub fn next(&self) -> (step: ConnectStep)
        ensures
            step == (if self.connections@.len() < self.addresses {
                ConnectStep::Connect(self.connections@.len() as usize)
            } else {
                ConnectStep::Done
            }),
    {
        if self.connections.len() < self.addresses {
            ConnectStep::Connect(self.connections.len())
        } else {
            ConnectStep::Done
        }
    }

    /// Takes in the outcome of an attempt. After a failed one the same address is tried again.
    pub fn attempted(&mut self, outcome: Option<T>)
        ensures
            final(self).addresses == old(self).addresses,
            final(self).connections@ == (match outcome {
                Some(connection) => old(self).connections@.push(connection),
                None => old(self).connections@,
            }),
    {
        if let Some(connection) = outcome {
            self.connections.push(connection);
        }
    }
}

/// The sockets to all processes: those that this process has established, to the processes before
/// it, none to itself, and those from the processes behind it.
pub fn all_sockets<T>(started: Vec<T>, awaited: Vec<Option<T>>) -> (sockets: Vec<Option<T>>)
    ensures
        sockets@ == started@.map_values(|c: T| Some(c)).push(None) + awaited@,
{
    let ghost all = started@;
    let mut sockets: Vec<Option<T>> = Vec::new();
    for connection in iter: started
        invariant
            iter.seq() == all,
            sockets@ == all.take(iter.index() as int).map_values(|c: T| Some(c)),
    {
        assert(all.take(iter.index() + 1).map_values(|c: T| Some(c)) =~= all.take(
            iter.index() as int,
        ).map_values(|c: T| Some(c)).push(Some(connection)));
        sockets.push(Some(connection));
    }
    assert(all.take(all.len() as int) =~= all);
    sockets.push(None);
    let mut awaited = awaited;
    sockets.append(&mut awaited);
    sockets
}

/// The processes behind process `my_index`, in order.
pub open spec fn later_processes(processes: nat, my_index: int) -> Seq<usize> {
    Seq::new((processes - my_index - 1) as nat, |k: int| (my_index + 1 + k) as usize)
}

/// The processes behind process `my_index`, in order.
pub fn processes_behind(processes: usize, my_index: usize) -> (behind: Vec<usize>)
    requires
        my_index < processes,
    ensures
        behind@ == later_processes(processes as nat, my_index as int),
        behind@.len() == processes - my_index - 1,
        forall|k: int| 0 <= k < behind@.len() ==> #[trigger] behind@[k] == my_index + 1 + k,
{
    let mut behind: Vec<usize> = Vec::new();
    let mut process: usize = my_index + 1;
    while process < processes
        invariant
            my_index < process <= processes,
            behind@ == later_processes(process as nat, my_index as int),
        decreases processes - process,
    {
        behind.push(process);
        process = process + 1;
        assert(behind@ =~= later_processes(process as nat, my_index as int));
    }
    behind
}

/// The sockets are those to the other processes, each at the index of its process, in whatever
/// order the processes behind this one connect; there is none to this process itself.
pub proof fn law_sockets_in_order<T>(
    started: Seq<T>,
    processes: nat,
    arrivals: Seq<(usize, T)>,
)
    requires
        started.len() < processes <= usize::MAX,
        each_arrives_once(later_processes(processes, started.len() as int), arrivals),
    ensures
        ({
            let my_index = started.len() as int;
            let expected = later_processes(processes, my_index);
            let awaited = fill(no_connections::<T>(expected), expected, arrivals);
            let sockets = started.map_values(|c: T| Some(c)).push(None) + awaited;
            &&& sockets.len() == processes
            &&& sockets[my_index] is None
            &&& forall|i: int| 0 <= i < my_index ==> #[trigger] sockets[i] == Some(started[i])
            &&& forall|a: int|
                0 <= a < arrivals.len() ==> sockets[(#[trigger] arrivals[a]).0 as int] == Some(
                    arrivals[a].1,
                )
            &&& forall|i: int|
                0 <= i < sockets.len() && i != my_index ==> (#[trigger] sockets[i]) is Some
        }),
{
    let my_index = started.len() as int;
    let expected = later_processes(processes, my_index);
    let awaited = fill(no_connections::<T>(expected), expected, arrivals);
    let sockets = started.map_values(|c: T| Some(c)).push(None) + awaited;
    lemma_all_placed(expected, arrivals);
    assert forall|a: int| 0 <= a < arrivals.len() implies sockets[(
    #[trigger] arrivals[a]).0 as int] == Some(arrivals[a].1) by {
        assert(expected.contains(arrivals[a].0));
        let k = choose|k: int| 0 <= k < expected.len() && expected[k] == arrivals[a].0;
        assert(arrivals[a].0 == expected[k]);
        assert(sockets[my_index + 1 + k] == awaited[k]);
    }
    assert forall|i: int| 0 <= i < sockets.len() && i != my_index implies (
    #[trigger] sockets[i]) is Some by {
        if i > my_index {
            assert(sockets[i] == awaited[i - my_index - 1]);
        }
    }
}

/// A greeting is two integers of eight bytes each: that which all greetings begin with, and the index
/// of the process. It is read as one exactly if it begins so, whatever it began with otherwise.
pub proof fn law_greeting_layout(my_index: usize, bytes: Seq<u8>)
    ensures
        greeting_bytes(my_index).len() == 16,
        greeting_bytes(my_index).subrange(0, 8) == be_bytes(0xc2f1fb770118add9),
        greeting_bytes(my_index).subrange(8, 16) == be_bytes(my_index as u64),
        be_u64(bytes, 0) != 0xc2f1fb770118add9 ==> greeted_by(bytes) is None,
        be_u64(bytes, 0) == 0xc2f1fb770118add9 ==> greeted_by(bytes) == Some(
            be_u64(bytes, 8) as usize,
        ),
        QUEUE_MAGIC == 0xdeadc0ffee,
{
}

/// The connections that there are are those of the places that are taken, in order: each of them is
/// there with its position, behind as many as there are places taken before it, and there are no
/// others.
pub proof fn law_present_connections<T>(slots: Seq<Option<T>>)
    requires
        slots.len() <= usize::MAX,
    ensures
        present(slots).len() == slots.filter(|slot: Option<T>| slot is Some).len(),
        forall|i: int|
            0 <= i < slots.len() && slots[i] is Some ==> {
                let place = slots.take(i).filter(|slot: Option<T>| slot is Some).len() as int;
                &&& place < present(slots).len()
                &&& present(slots)[place].0 == i
                &&& Some(present(slots)[place].1) == #[trigger] slots[i]
            },
    decreases slots.len(),
{
    let taken = |slot: Option<T>| slot is Some;
    reveal(Seq::filter);
    if slots.len() > 0 {
        let init = slots.drop_last();
        let all = present(slots);
        law_present_connections(init);
        assert forall|i: int| 0 <= i < slots.len() && slots[i] is Some implies {
            let place = slots.take(i).filter(taken).len() as int;
            &&& place < all.len()
            &&& all[place].0 == i
            &&& Some(all[place].1) == #[trigger] slots[i]
        } by {
            if i < init.len() {
                assert(init[i] == slots[i]);
                assert(slots.take(i) =~= init.take(i));
            } else {
                assert(slots.take(i) =~= init);
            }
        }
    }
}

/// A process that is waited for has the first place that names it, and one that is not has none.
pub proof fn law_place_of_a_process(expected: Seq<usize>, process: usize, k: int)
    ensures
        place_of(expected, process) == Some(k) <==> {
            &&& 0 <= k < expected.len()
            &&& expected[k] == process
            &&& forall|i: int| 0 <= i < k ==> #[trigger] expected[i] != process
        },
        place_of(expected, process) is None <==> !expected.contains(process),
{
    if expected.contains(process) {
        expected.index_of_first_ensures(process);
    }
    if 0 <= k < expected.len() && expected[k] == process && (forall|i: int|
        0 <= i < k ==> #[trigger] expected[i] != process) {
        lemma_first_place(expected, process, k);
    }
}

} // verus!
