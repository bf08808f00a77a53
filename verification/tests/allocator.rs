use std::cell::RefCell;
use std::rc::Rc;
use std::time::Duration;

use timely_communication::allocator::generic::{GenericAllocator, GenericBuilder};
use timely_communication::allocator::{
    Allocate, AllocatorBuilder, BroadcastEndpoints, Channel, Channels, Destination, Endpoints,
    Events, History, InFlight, PeerBuilder, Place, Position, Pull, Push,
};
use timely_communication::initialize::{Assembly, ClusterTransport, Config, Features};

/// An allocator that notes what is asked of it.
struct Noting {
    index: usize,
    peers: usize,
    notes: Rc<RefCell<Vec<String>>>,
    events: Events,
    /// What waits at each worker.
    waiting: Vec<Waiting>,
}

fn noting(index: usize, peers: usize) -> Noting {
    Noting {
        index,
        peers,
        notes: Rc::new(RefCell::new(Vec::new())),
        events: Rc::new(RefCell::new(vec![index])),
        waiting: (0..peers).map(|_| Rc::new(RefCell::new(Vec::new()))).collect(),
    }
}

impl Noting {
    fn note(&self, text: String) {
        self.notes.borrow_mut().push(text);
    }
}

impl Allocate for Noting {
    fn worker(&self) -> usize {
        self.index
    }
    fn workers(&self) -> usize {
        self.peers
    }
    fn event_queue(&self) -> Events {
        Rc::clone(&self.events)
    }
    fn received_from(&self, before: &Self) -> bool {
        self.index == before.index
    }
    fn released_from(&self, before: &Self) -> bool {
        self.index == before.index
    }
    fn worker_is_a_peer(&self) {
        assert!(self.index < self.peers);
    }
    fn work_keeps_worker(&self, before: &Self) {
        assert_eq!(self.index, before.index);
    }
    fn index(&self) -> usize {
        self.index
    }
    fn peers(&self) -> usize {
        self.peers
    }
    fn receive(&mut self) {
        self.note("receive".to_string());
    }
    fn release(&mut self) {
        self.note("release".to_string());
    }
    fn events(&self) -> &Events {
        &self.events
    }
    fn await_events(&self, duration: Option<Duration>) {
        self.note(format!("await {:?}", duration));
    }
}

/// The elements that wait at one worker for one channel.
type Waiting = Rc<RefCell<Vec<u32>>>;

struct Sender {
    channel: usize,
    worker: Option<usize>,
    lists: Vec<Waiting>,
}

impl Push<u32> for Sender {
    fn destination(&self) -> Destination {
        (self.channel, self.worker)
    }
    fn pushed(&self) -> History<u32> {
        unreachable!("a history is for proofs")
    }
    fn push(&mut self, element: Option<u32>) {
        if let Some(element) = element {
            for list in self.lists.iter() {
                list.borrow_mut().push(element);
            }
        }
    }
}

struct Receiver {
    channel: usize,
    worker: usize,
    list: Waiting,
}

impl Pull<u32> for Receiver {
    fn place(&self) -> Place {
        (self.channel, self.worker)
    }
    fn pulled(&self) -> History<u32> {
        unreachable!("a history is for proofs")
    }
    fn pull(&mut self) -> Option<u32> {
        let mut list = self.list.borrow_mut();
        if list.is_empty() {
            None
        } else {
            Some(list.remove(0))
        }
    }
}

impl Channels<u32> for Noting {
    fn allocated_from(&self, before: &Self, _: usize, endpoints: Endpoints<u32>) -> bool {
        self.index == before.index && endpoints.0.len() == self.peers
    }
    fn broadcast_from(&self, before: &Self, _: usize, _: BroadcastEndpoints<u32>) -> bool {
        self.index == before.index
    }
    fn allocation_keeps_worker(&self, before: &Self, _: usize, endpoints: Endpoints<u32>) {
        assert_eq!(self.index, before.index);
        assert_eq!(endpoints.0.len(), self.peers);
    }
    fn broadcast_keeps_worker(&self, before: &Self, _: usize, _: BroadcastEndpoints<u32>) {
        assert_eq!(self.index, before.index);
    }
    fn moment(_: usize, _: Channel<u32>, _: InFlight<u32>) -> bool {
        true
    }
    fn fresh_channel_is_a_moment(_: usize, _: Channel<u32>) {}
    fn push_keeps_moment(
        _: usize,
        _: Channel<u32>,
        _: Channel<u32>,
        _: InFlight<u32>,
        _: Position,
        _: Position,
        _: u32,
    ) {
    }
    fn pull_keeps_moment(
        _: usize,
        _: Channel<u32>,
        _: Channel<u32>,
        _: InFlight<u32>,
        _: Position,
        _: u32,
    ) {
    }
    fn channel_delivers(_: usize, _: Channel<u32>, _: InFlight<u32>) {}
    fn allocate(&mut self, identifier: usize) -> Endpoints<u32> {
        self.note(format!("allocate {}", identifier));
        let mut pushers: Vec<Box<dyn Push<u32>>> = Vec::new();
        for worker in 0..self.peers {
            let lists = vec![Rc::clone(&self.waiting[worker])];
            pushers.push(Box::new(Sender { channel: identifier, worker: Some(worker), lists }));
        }
        let list = Rc::clone(&self.waiting[self.index]);
        (pushers, Box::new(Receiver { channel: identifier, worker: self.index, list }))
    }
    fn broadcast(&mut self, identifier: usize) -> BroadcastEndpoints<u32> {
        self.note(format!("broadcast {}", identifier));
        let lists = self.waiting.clone();
        let list = Rc::clone(&self.waiting[self.index]);
        (
            Box::new(Sender { channel: identifier, worker: None, lists }),
            Box::new(Receiver { channel: identifier, worker: self.index, list }),
        )
    }
}

type Generic = GenericAllocator<Noting, Noting, Noting, Noting, Noting>;

fn all_kinds() -> Vec<(fn(Noting) -> Generic, &'static str)> {
    vec![
        (GenericAllocator::IntraThread, "thread"),
        (GenericAllocator::IntraProcess, "process"),
        (GenericAllocator::IntraProcessBinary, "process binary"),
        (GenericAllocator::IntraClusterIntraProcess, "cluster"),
        (GenericAllocator::IntraClusterIntraProcessSerializing, "cluster binary"),
    ]
}

fn kind<T, P, PB, Z, ZB>(allocator: &GenericAllocator<T, P, PB, Z, ZB>) -> &'static str {
    match allocator {
        GenericAllocator::IntraThread(_) => "thread",
        GenericAllocator::IntraProcess(_) => "process",
        GenericAllocator::IntraProcessBinary(_) => "process binary",
        GenericAllocator::IntraClusterIntraProcess(_) => "cluster",
        GenericAllocator::IntraClusterIntraProcessSerializing(_) => "cluster binary",
    }
}

#[test]
fn calls_are_passed_on_and_keep_the_kind() {
    for (wrap, name) in all_kinds() {
        let inner = noting(3, 8);
        let notes = Rc::clone(&inner.notes);
        let events = Rc::clone(&inner.events);
        let mut allocator = wrap(inner);
        assert_eq!(allocator.index(), 3);
        assert_eq!(allocator.peers(), 8);
        assert!(allocator.index() < allocator.peers());
        assert_eq!(Allocate::index(&allocator), 3);
        assert_eq!(Allocate::peers(&allocator), 8);
        assert!(Rc::ptr_eq(Allocate::events(&allocator), &events));
        Allocate::receive(&mut allocator);
        allocator.release();
        Allocate::release(&mut allocator);
        allocator.await_events(Some(Duration::from_millis(5)));
        allocator.await_events(None);
        let (pushers, _) = allocator.allocate(17);
        assert_eq!(pushers.len(), 8);
        let (mut push, mut pull) = allocator.broadcast(18);
        push.push(Some(5));
        assert_eq!(pull.pull(), Some(5));
        assert_eq!(pull.pull(), None);
        assert_eq!(
            *notes.borrow(),
            vec![
                "receive",
                "release",
                "release",
                "await Some(5ms)",
                "await None",
                "allocate 17",
                "broadcast 18",
            ],
        );
        assert_eq!(kind(&allocator), name);
    }
}

/// Builds an allocator with its number.
struct Numbered(usize);

impl AllocatorBuilder for Numbered {
    type Allocator = Noting;
    fn worker(&self) -> usize {
        self.0
    }
    fn workers(&self) -> usize {
        10
    }
    fn builds(&self, allocator: &Noting) -> bool {
        allocator.index == self.0
    }
    fn build_keeps_worker(&self, allocator: &Noting) {
        assert_eq!(allocator.index, self.0);
    }
    fn build(self) -> Noting {
        noting(self.0, 10)
    }
}

type Builder = GenericBuilder<Numbered, Numbered, Numbered, Numbered, Numbered>;

#[test]
fn builders_build_their_kind() {
    let builders: Vec<Builder> = vec![
        GenericBuilder::IntraThread(Numbered(0)),
        GenericBuilder::IntraProcess(Numbered(1)),
        GenericBuilder::IntraProcessSerializing(Numbered(2)),
        GenericBuilder::IntraClusterIntraProcess(Numbered(3)),
        GenericBuilder::IntraClusterIntraProcessSerializing(Numbered(4)),
    ];
    let built: Vec<Generic> = builders.into_iter().map(|builder| builder.build()).collect();
    let kinds: Vec<&str> = built.iter().map(kind).collect();
    assert_eq!(kinds, vec!["thread", "process", "process binary", "cluster", "cluster binary"]);
    let indices: Vec<usize> = built.iter().map(|allocator| allocator.index()).collect();
    assert_eq!(indices, vec![0, 1, 2, 3, 4]);
}

#[test]
fn builders_of_a_process_are_wrapped_in_order() {
    let numbers = || vec![Numbered(5), Numbered(6)];
    let all: Vec<(Vec<Builder>, &str)> = vec![
        (GenericBuilder::intra_process(numbers()), "process"),
        (GenericBuilder::intra_process_serializing(numbers()), "process binary"),
        (GenericBuilder::intra_cluster(numbers()), "cluster"),
        (GenericBuilder::intra_cluster_serializing(numbers()), "cluster binary"),
    ];
    for (builders, name) in all {
        let built: Vec<Generic> = builders.into_iter().map(|builder| builder.build()).collect();
        assert_eq!(built.len(), 2);
        assert!(built.iter().all(|allocator| kind(allocator) == name));
        assert_eq!((built[0].index(), built[1].index()), (5, 6));
    }
}

#[test]
fn workers_of_a_process_have_consecutive_indices() {
    let numbers = || (0..10).map(Numbered).collect::<Vec<Numbered>>();
    let all: Vec<Vec<Builder>> = vec![
        GenericBuilder::intra_process(numbers()),
        GenericBuilder::intra_process_serializing(numbers()),
        GenericBuilder::intra_cluster(numbers()),
        GenericBuilder::intra_cluster_serializing(numbers()),
    ];
    for builders in all {
        for (k, builder) in builders.into_iter().enumerate() {
            let mut allocator = builder.build();
            assert_eq!((allocator.index(), allocator.peers()), (k, 10));
            Allocate::receive(&mut allocator);
            allocator.release();
            let (pushers, _) = allocator.allocate(3);
            assert_eq!(pushers.len(), allocator.peers());
            allocator.broadcast(4);
            assert_eq!((allocator.index(), allocator.peers()), (k, 10));
        }
    }
}

#[test]
fn what_is_sent_to_a_worker_reaches_it_alone() {
    for (wrap, _) in all_kinds() {
        let waiting: Vec<Waiting> = (0..3).map(|_| Rc::new(RefCell::new(Vec::new()))).collect();
        let mut ends: Vec<Endpoints<u32>> = (0..3)
            .map(|index| {
                let mut inner = noting(index, 3);
                inner.waiting = waiting.clone();
                wrap(inner).allocate(7)
            })
            .collect();
        for (worker, (senders, receiver)) in ends.iter_mut().enumerate() {
            assert_eq!(receiver.place(), (7, worker));
            assert_eq!(senders.len(), 3);
            for (i, sender) in senders.iter_mut().enumerate() {
                assert_eq!(sender.destination(), (7, Some(i)));
                sender.push(Some(10 * worker as u32 + i as u32));
                sender.push(None);
            }
        }
        for (i, (_, receiver)) in ends.iter_mut().enumerate() {
            let i = i as u32;
            let mut pulled = Vec::new();
            while let Some(element) = receiver.pull() {
                pulled.push(element);
            }
            assert_eq!(pulled, vec![i, 10 + i, 20 + i]);
        }
    }
}

/// Builds the allocator of one worker out of several.
struct OneOf(usize, usize);

impl AllocatorBuilder for OneOf {
    type Allocator = Noting;
    fn worker(&self) -> usize {
        self.0
    }
    fn workers(&self) -> usize {
        self.1
    }
    fn builds(&self, allocator: &Noting) -> bool {
        (allocator.index, allocator.peers) == (self.0, self.1)
    }
    fn build_keeps_worker(&self, allocator: &Noting) {
        assert_eq!((allocator.index, allocator.peers), (self.0, self.1));
    }
    fn build(self) -> Noting {
        noting(self.0, self.1)
    }
}

/// Makes builders for a process, and notes the memory that it gets.
struct Peers;

impl PeerBuilder<Rc<RefCell<u32>>> for Peers {
    type Peer = OneOf;
    fn new_vector(threads: usize, refill: Rc<RefCell<u32>>) -> Vec<OneOf> {
        *refill.borrow_mut() += 1;
        (0..threads).map(|index| OneOf(index, threads)).collect()
    }
}

const ALL: Features = Features { tcp: true, tls: true, quic: true, shared_memory: true };

type Assembled = Result<Assembly<OneOf, OneOf, OneOf, OneOf, OneOf, Rc<RefCell<u32>>>, String>;

fn assemble(config: Config, refill: &Rc<RefCell<u32>>) -> Assembled {
    config.try_build_with::<_, Peers, Peers, Peers, OneOf, OneOf>(ALL, Rc::clone(refill))
}

fn cluster(intra_host_zero_copy: bool) -> Config {
    Config::Cluster {
        threads: 2,
        process: 1,
        addresses: vec!["a:1".to_string(), "b:2".to_string()],
        report: false,
        intra_process_zero_copy: true,
        intra_host_zero_copy,
        transport: ClusterTransport::TCP,
    }
}

#[test]
fn workers_of_a_configuration_have_all_indices_once() {
    for (config, threads, name) in [
        (Config::Thread, 1, "thread"),
        (Config::Process(1), 1, "process"),
        (Config::Process(4), 4, "process"),
        (Config::ProcessBinary(3), 3, "process binary"),
    ] {
        let refill = Rc::new(RefCell::new(0));
        let builders = match assemble(config, &refill) {
            Ok(Assembly::Workers(builders)) => builders,
            _ => panic!("no workers"),
        };
        assert_eq!(*refill.borrow(), 1);
        assert_eq!(builders.len(), threads);
        for (k, builder) in builders.into_iter().enumerate() {
            let allocator = builder.build();
            assert_eq!((allocator.index(), allocator.peers()), (k, threads));
            assert_eq!(kind(&allocator), name);
        }
    }
}

#[test]
fn cluster_is_left_to_be_connected() {
    let refill = Rc::new(RefCell::new(5));
    match assemble(cluster(false), &refill) {
        Ok(Assembly::Cluster(build, kept)) => {
            assert!(Rc::ptr_eq(&kept, &refill));
            assert_eq!((build.process, build.threads), (1, 2));
            assert!(build.serializing);
        }
        _ => panic!("no cluster"),
    }
    match assemble(cluster(true), &refill) {
        Err(message) => assert_eq!(message, "unsupported cluster configuration"),
        _ => panic!("supported"),
    }
    assert_eq!(*refill.borrow(), 5);
}
