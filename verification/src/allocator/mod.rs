//! Types and traits for the allocation of channels.

use vstd::multiset::*;
use vstd::prelude::*;

use std::cell::RefCell;
use std::rc::Rc;
use std::time::Duration;

pub mod generic;

verus! {

/// Declares `std::cell::RefCell`, in which the events of an allocator are shared. Nothing is
/// claimed of what a cell holds.
#[verifier::external_type_specification]
#[verifier::external_body]
#[verifier::reject_recursive_types(T)]
pub struct ExRefCell<T: ?Sized>(RefCell<T>);

/// The queue of the channels on which something has happened.
pub type Events = Rc<RefCell<Vec<usize>>>;

/// What has gone through an endpoint so far, in order.
pub type History<T> = Seq<T>;

/// Where a send endpoint leads to: a channel, and one worker or, with `None`, all of them.
pub type Destination = (usize, Option<usize>);

/// Where a receive endpoint is: a channel and a worker.
pub type Place = (usize, usize);

/// Pushing elements of type `T`.
pub trait Push<T> {
    /// Where elements are pushed to.
    spec fn destination(&self) -> Destination;

    /// The elements that have been pushed.
    spec fn pushed(&self) -> History<T>;

    /// Pushes `element`, or with `None` what has been held back.
    fn push(&mut self, element: Option<T>)
        ensures
            final(self).destination() == old(self).destination(),
            final(self).pushed() == (match element {
                Some(element) => old(self).pushed().push(element),
                None => old(self).pushed(),
            }),
    ;
}

/// Pulling elements of type `T`.
pub trait Pull<T> {
    /// Where elements are pulled.
    spec fn place(&self) -> Place;

    /// The elements that have been pulled.
    spec fn pulled(&self) -> History<T>;

    /// Pulls an element, if there is one.
    fn pull(&mut self) -> (element: Option<T>)
        ensures
            final(self).place() == old(self).place(),
            final(self).pulled() == (match element {
                Some(element) => old(self).pulled().push(element),
                None => old(self).pulled(),
            }),
    ;
}

/// Several send endpoints, one for each worker, and one receive endpoint.
pub type Endpoints<T> = (Vec<Box<dyn Push<T>>>, Box<dyn Pull<T>>);

/// One send endpoint that reaches all workers, and one receive endpoint.
pub type BroadcastEndpoints<T> = (Box<dyn Push<T>>, Box<dyn Pull<T>>);

/// Whether `endpoints` are those of channel `identifier` at worker `worker` out of `workers`, through
/// which nothing has gone yet: sender `i` leads to worker `i`.
pub open spec fn is_fresh<T>(
    endpoints: Endpoints<T>,
    identifier: usize,
    worker: usize,
    workers: usize,
) -> bool {
    &&& endpoints.0@.len() == workers
    &&& forall|i: int|
        0 <= i < workers ==> {
            &&& (#[trigger] endpoints.0@[i]).destination() == (identifier, Some(i as usize))
            &&& endpoints.0@[i].pushed() == Seq::<T>::empty()
        }
    &&& endpoints.1.place() == (identifier, worker)
    &&& endpoints.1.pulled() == Seq::<T>::empty()
}

/// Whether `endpoints` are those of broadcast channel `identifier` at worker `worker`, through which
/// nothing has gone yet.
pub open spec fn is_fresh_broadcast<T>(
    endpoints: BroadcastEndpoints<T>,
    identifier: usize,
    worker: usize,
) -> bool {
    &&& endpoints.0.destination() == (identifier, None::<usize>)
    &&& endpoints.0.pushed() == Seq::<T>::empty()
    &&& endpoints.1.place() == (identifier, worker)
    &&& endpoints.1.pulled() == Seq::<T>::empty()
}

/// The endpoints that all workers of a computation have of one channel, in the order of the workers.
pub type Channel<T> = Seq<Endpoints<T>>;

/// For each worker what is on its way to it.
pub type InFlight<T> = Seq<Multiset<T>>;

/// The place of a worker in a channel.
pub type Position = int;

/// What the first `n` workers have pushed into their senders to worker `i`.
pub open spec fn sent_to<T>(channel: Channel<T>, i: int, n: int) -> Multiset<T>
    decreases n,
{
    if n <= 0 {
        Multiset::empty()
    } else {
        sent_to(channel, i, n - 1).add(channel[n - 1].0@[i].pushed().to_multiset())
    }
}

/// Whether channel `identifier` delivers: sender `i` of every worker leads to worker `i`, and what
/// has been pushed into these senders is what worker `i` has pulled and what is on its way to it.
pub open spec fn delivers<T>(
    identifier: usize,
    channel: Channel<T>,
    in_flight: InFlight<T>,
) -> bool {
    &&& in_flight.len() == channel.len()
    &&& forall|w: int|
        0 <= w < channel.len() ==> {
            &&& (#[trigger] channel[w]).0@.len() == channel.len()
            &&& channel[w].1.place() == (identifier, w as usize)
        }
    &&& forall|w: int, i: int|
        0 <= w < channel.len() && 0 <= i < channel.len()
            ==> (#[trigger] channel[w].0@[i]).destination() == (identifier, Some(i as usize))
    &&& forall|i: int|
        0 <= i < channel.len() ==> sent_to(channel, i, channel.len() as int) == (
        #[trigger] channel[i]).1.pulled().to_multiset().add(in_flight[i])
}

/// Whether every worker has allocated channel `identifier`, and nothing has gone through it yet.
pub open spec fn is_fresh_channel<T>(identifier: usize, channel: Channel<T>) -> bool {
    &&& channel.len() <= usize::MAX
    &&& forall|w: int|
        0 <= w < channel.len() ==> is_fresh(
            #[trigger] channel[w],
            identifier,
            w as usize,
            channel.len() as usize,
        )
}

/// Nothing is on its way to any worker.
pub open spec fn nothing_in_flight<T>(channel: Channel<T>) -> InFlight<T> {
    Seq::new(channel.len(), |i: int| Multiset::<T>::empty())
}

/// Whether `after` is `channel` once worker `w` has pushed `element` into its sender to worker `i`.
pub open spec fn is_pushed<T>(
    channel: Channel<T>,
    after: Channel<T>,
    w: int,
    i: int,
    element: T,
) -> bool {
    &&& 0 <= w < channel.len()
    &&& 0 <= i < channel.len()
    &&& after.len() == channel.len()
    &&& forall|v: int| 0 <= v < channel.len() && v != w ==> #[trigger] after[v] == channel[v]
    &&& after[w].1 == channel[w].1
    &&& after[w].0@.len() == channel[w].0@.len()
    &&& forall|j: int|
        0 <= j < channel[w].0@.len() && j != i ==> #[trigger] after[w].0@[j] == channel[w].0@[j]
    &&& after[w].0@[i].destination() == channel[w].0@[i].destination()
    &&& after[w].0@[i].pushed() == channel[w].0@[i].pushed().push(element)
}

/// Whether `after` is `channel` once worker `i` has pulled `element`, which was on its way to it.
pub open spec fn is_pulled<T>(
    channel: Channel<T>,
    after: Channel<T>,
    in_flight: InFlight<T>,
    i: int,
    element: T,
) -> bool {
    &&& 0 <= i < channel.len()
    &&& in_flight[i].contains(element)
    &&& after.len() == channel.len()
    &&& forall|v: int| 0 <= v < channel.len() && v != i ==> #[trigger] after[v] == channel[v]
    &&& after[i].0 == channel[i].0
    &&& after[i].1.place() == channel[i].1.place()
    &&& after[i].1.pulled() == channel[i].1.pulled().push(element)
}

/// A type capable of allocating channels.
pub trait Allocate: Sized {
    /// The index of the worker.
    spec fn worker(&self) -> usize;

    /// The number of workers.
    spec fn workers(&self) -> usize;

    /// The queue of events.
    spec fn event_queue(&self) -> Events;

    /// Whether `self` is what work before scheduling can make of `before`.
    spec fn received_from(&self, before: &Self) -> bool;

    /// Whether `self` is what work after scheduling can make of `before`.
    spec fn released_from(&self, before: &Self) -> bool;

    /// The index of the worker is one out of `(0..self.peers())`.
    proof fn worker_is_a_peer(&self)
        ensures
            self.worker() < self.workers(),
    ;

    /// Work before and after scheduling is that of the same worker among as many.
    proof fn work_keeps_worker(&self, before: &Self)
        requires
            self.received_from(before) || self.released_from(before),
        ensures
            self.worker() == before.worker(),
            self.workers() == before.workers(),
    ;

    /// The index of the worker out of `(0..self.peers())`.
    fn index(&self) -> (index: usize)
        ensures
            index == self.worker(),
            index < self.workers(),
    ;

    /// The number of workers.
    fn peers(&self) -> (peers: usize)
        ensures
            peers == self.workers(),
    ;

    /// Perform work before scheduling operators.
    fn receive(&mut self)
        ensures
            final(self).received_from(old(self)),
            final(self).worker() == old(self).worker(),
            final(self).workers() == old(self).workers(),
    ;

    /// Perform work after scheduling operators.
    fn release(&mut self)
        ensures
            final(self).released_from(old(self)),
            final(self).worker() == old(self).worker(),
            final(self).workers() == old(self).workers(),
    ;

    /// The queue of the channels on which something has happened.
    fn events(&self) -> (events: &Events)
        ensures
            *events == self.event_queue(),
    ;

    /// Waits until there are events, or for the given time.
    fn await_events(&self, duration: Option<Duration>);
}

/// A type capable of allocating channels for elements of type `T`.
pub trait Channels<T>: Allocate {
    /// Whether `self` and `endpoints` are what the allocation of channel `identifier` can make of
    /// `before`.
    spec fn allocated_from(
        &self,
        before: &Self,
        identifier: usize,
        endpoints: Endpoints<T>,
    ) -> bool;

    /// Whether `self` and `endpoints` are what the allocation of the broadcast channel
    /// `identifier` can make of `before`.
    spec fn broadcast_from(
        &self,
        before: &Self,
        identifier: usize,
        endpoints: BroadcastEndpoints<T>,
    ) -> bool;

    /// The allocation of a channel is that of the same worker among as many, and gives this worker
    /// fresh endpoints, with one sender to each of them.
    proof fn allocation_keeps_worker(
        &self,
        before: &Self,
        identifier: usize,
        endpoints: Endpoints<T>,
    )
        requires
            self.allocated_from(before, identifier, endpoints),
        ensures
            self.worker() == before.worker(),
            self.workers() == before.workers(),
            is_fresh(endpoints, identifier, before.worker(), before.workers()),
    ;

    /// The allocation of a broadcast channel is that of the same worker among as many, and gives this
    /// worker fresh endpoints, with one sender to all of them.
    proof fn broadcast_keeps_worker(
        &self,
        before: &Self,
        identifier: usize,
        endpoints: BroadcastEndpoints<T>,
    )
        requires
            self.broadcast_from(before, identifier, endpoints),
        ensures
            self.worker() == before.worker(),
            self.workers() == before.workers(),
            is_fresh_broadcast(endpoints, identifier, before.worker()),
    ;

    /// Whether `channel` is what all workers of a computation, each of which has allocated channel
    /// `identifier`, have of it at one moment, and `in_flight` what is on its way then.
    spec fn moment(identifier: usize, channel: Channel<T>, in_flight: InFlight<T>) -> bool;

    /// Once every worker has allocated the channel, nothing is on its way.
    proof fn fresh_channel_is_a_moment(identifier: usize, channel: Channel<T>)
        requires
            is_fresh_channel(identifier, channel),
        ensures
            Self::moment(identifier, channel, nothing_in_flight(channel)),
    ;

    /// What a worker pushes into its sender to worker `i` is on its way to worker `i`.
    proof fn push_keeps_moment(
        identifier: usize,
        channel: Channel<T>,
        after: Channel<T>,
        in_flight: InFlight<T>,
        w: Position,
        i: Position,
        element: T,
    )
        requires
            Self::moment(identifier, channel, in_flight),
            is_pushed(channel, after, w, i, element),
        ensures
            Self::moment(
                identifier,
                after,
                in_flight.update(i, in_flight[i].insert(element)),
            ),
    ;

    /// What worker `i` pulls is no longer on its way to it.
    proof fn pull_keeps_moment(
        identifier: usize,
        channel: Channel<T>,
        after: Channel<T>,
        in_flight: InFlight<T>,
        i: Position,
        element: T,
    )
        requires
            Self::moment(identifier, channel, in_flight),
            is_pulled(channel, after, in_flight, i, element),
        ensures
            Self::moment(
                identifier,
                after,
                in_flight.update(i, in_flight[i].remove(element)),
            ),
    ;

    /// At every moment the channel delivers.
    proof fn channel_delivers(identifier: usize, channel: Channel<T>, in_flight: InFlight<T>)
        requires
            Self::moment(identifier, channel, in_flight),
        ensures
            delivers(identifier, channel, in_flight),
    ;

    /// Constructs several send endpoints, one for each worker, and one receive endpoint.
    ///
    /// When an element that is on its way can be pulled depends on when the workers do their work
    /// before and after scheduling, and is not stated.
    fn allocate(&mut self, identifier: usize) -> (endpoints: Endpoints<T>)
        ensures
            final(self).allocated_from(old(self), identifier, endpoints),
            final(self).worker() == old(self).worker(),
            final(self).workers() == old(self).workers(),
            endpoints.0@.len() == old(self).workers(),
            is_fresh(endpoints, identifier, old(self).worker(), old(self).workers()),
    ;

    /// Constructs one send endpoint to all workers and one receive endpoint.
    fn broadcast(&mut self, identifier: usize) -> (endpoints: BroadcastEndpoints<T>)
        ensures
            final(self).broadcast_from(old(self), identifier, endpoints),
            final(self).worker() == old(self).worker(),
            final(self).workers() == old(self).workers(),
            is_fresh_broadcast(endpoints, identifier, old(self).worker()),
    ;
}

/// A type that builds an allocator.
///
/// The builder can be moved to another thread, which the allocator may not be.
pub trait AllocatorBuilder: Sized {
    /// The type of the allocator that is built.
    type Allocator: Allocate;

    /// The index of the worker whose allocator is built.
    spec fn worker(&self) -> usize;

    /// The number of workers.
    spec fn workers(&self) -> usize;

    /// Whether `allocator` is what `self` can build.
    spec fn builds(&self, allocator: &Self::Allocator) -> bool;

    /// The allocator is that of the worker for which it is built.
    proof fn build_keeps_worker(&self, allocator: &Self::Allocator)
        requires
            self.builds(allocator),
        ensures
            allocator.worker() == self.worker(),
            allocator.workers() == self.workers(),
    ;

    /// Builds the allocator.
    fn build(self) -> (allocator: Self::Allocator)
        ensures
            self.builds(&allocator),
            allocator.worker() == self.worker(),
            allocator.workers() == self.workers(),
    ;
}

/// Whether `builders` are those of consecutive workers out of `workers`, from `first` on.
pub open spec fn in_order<B: AllocatorBuilder>(
    builders: Seq<B>,
    first: int,
    workers: int,
) -> bool {
    forall|k: int|
        0 <= k < builders.len() ==> {
            &&& (#[trigger] builders[k]).worker() == first + k
            &&& builders[k].workers() == workers
        }
}

/// A type that makes the builders of all workers of one process, with memory that is had as `R` says.
pub trait PeerBuilder<R>: Sized {
    /// The builder of a worker.
    type Peer: AllocatorBuilder;

    /// Makes one builder for each of `threads` workers, in the order of the workers.
    fn new_vector(threads: usize, refill: R) -> (peers: Vec<Self::Peer>)
        ensures
            peers@.len() == threads,
            in_order(peers@, 0, threads as int),
    ;
}

/// Whether `allocators` are those that `builders` build, one each.
pub open spec fn built<B: AllocatorBuilder>(
    builders: Seq<B>,
    allocators: Seq<B::Allocator>,
) -> bool {
    &&& allocators.len() == builders.len()
    &&& forall|k: int|
        0 <= k < builders.len() ==> builders[k].builds(&#[trigger] allocators[k])
}

/// The allocators that the builders of all workers of a computation build know as many peers as
/// there are builders, and their indices are the numbers below this number, each exactly once. A
/// single builder builds the allocator with index zero and one peer.
pub proof fn law_workers_of_a_process<B: AllocatorBuilder>(
    builders: Seq<B>,
    allocators: Seq<B::Allocator>,
)
    requires
        in_order(builders, 0, builders.len() as int),
        built(builders, allocators),
    ensures
        forall|k: int|
            0 <= k < allocators.len() ==> {
                &&& (#[trigger] allocators[k]).workers() == builders.len()
                &&& allocators[k].worker() == k
            },
{
    law_workers_of_a_cluster(builders, allocators, 0, builders.len() as int);
}

/// The allocators that the builders of one process of several build have the consecutive indices
/// of the workers of this process, and know the workers of all processes as their peers.
pub proof fn law_workers_of_a_cluster<B: AllocatorBuilder>(
    builders: Seq<B>,
    allocators: Seq<B::Allocator>,
    first: int,
    workers: int,
)
    requires
        in_order(builders, first, workers),
        built(builders, allocators),
    ensures
        forall|k: int|
            0 <= k < allocators.len() ==> {
                &&& (#[trigger] allocators[k]).workers() == workers
                &&& allocators[k].worker() == first + k
                &&& allocators[k].worker() < workers
            },
{
    assert forall|k: int| 0 <= k < allocators.len() implies {
        &&& (#[trigger] allocators[k]).workers() == workers
        &&& allocators[k].worker() == first + k
        &&& allocators[k].worker() < workers
    } by {
        builders[k].build_keeps_worker(&allocators[k]);
        allocators[k].worker_is_a_peer();
    }
}

/// Fresh endpoints have one sender to each worker, which leads to this worker on this channel, and a
/// receiver at the worker that has allocated them; nothing has gone through any of them.
pub proof fn law_fresh_endpoints<T>(
    endpoints: Endpoints<T>,
    broadcast: BroadcastEndpoints<T>,
    identifier: usize,
    worker: usize,
    workers: usize,
    i: int,
)
    requires
        is_fresh(endpoints, identifier, worker, workers),
        is_fresh_broadcast(broadcast, identifier, worker),
        0 <= i < workers,
    ensures
        endpoints.0@.len() == workers,
        endpoints.0@[i].destination().0 == identifier,
        endpoints.0@[i].destination().1 == Some(i as usize),
        endpoints.0@[i].pushed().len() == 0,
        endpoints.1.place().0 == identifier,
        endpoints.1.place().1 == worker,
        endpoints.1.pulled().len() == 0,
        broadcast.0.destination().0 == identifier,
        broadcast.0.destination().1 is None,
        broadcast.0.pushed().len() == 0,
        broadcast.1.place().0 == identifier,
        broadcast.1.place().1 == worker,
        broadcast.1.pulled().len() == 0,
{
}

/// A channel that every worker has allocated under the same identifier, and through which nothing
/// has gone yet, delivers, with nothing on its way.
pub proof fn law_fresh_channel_delivers<T>(identifier: usize, channel: Channel<T>)
    requires
        is_fresh_channel(identifier, channel),
    ensures
        delivers(identifier, channel, nothing_in_flight(channel)),
{
    broadcast use vstd::seq_lib::group_to_multiset_ensures;

    let none = nothing_in_flight(channel);
    let n = channel.len() as int;
    assert forall|w: int, i: int|
        0 <= w < n && 0 <= i < n implies (#[trigger] channel[w].0@[i]).destination() == (
        identifier,
        Some(i as usize),
    ) by {
        assert(is_fresh(channel[w], identifier, w as usize, n as usize));
    }
    assert forall|i: int| 0 <= i < n implies sent_to(channel, i, n) == (
    #[trigger] channel[i]).1.pulled().to_multiset().add(none[i]) by {
        lemma_nothing_sent(identifier, channel, i, n);
        assert(is_fresh(channel[i], identifier, i as usize, n as usize));
        assert(sent_to(channel, i, n) =~= channel[i].1.pulled().to_multiset().add(none[i]));
    }
    assert forall|w: int| 0 <= w < n implies {
        &&& (#[trigger] channel[w]).0@.len() == n
        &&& channel[w].1.place() == (identifier, w as usize)
    } by {
        assert(is_fresh(channel[w], identifier, w as usize, n as usize));
    }
}

/// Nothing has been sent through fresh endpoints.
proof fn lemma_nothing_sent<T>(identifier: usize, channel: Channel<T>, i: int, n: int)
    requires
        is_fresh_channel(identifier, channel),
        0 <= i < channel.len(),
        0 <= n <= channel.len(),
    ensures
        sent_to(channel, i, n) == Multiset::<T>::empty(),
    decreases n,
{
    broadcast use vstd::seq_lib::group_to_multiset_ensures;

    if n > 0 {
        lemma_nothing_sent(identifier, channel, i, n - 1);
        assert(is_fresh(
            channel[n - 1],
            identifier,
            (n - 1) as usize,
            channel.len() as usize,
        ));
        assert(channel[n - 1].0@[i].pushed() =~= Seq::<T>::empty());
        assert(sent_to(channel, i, n) =~= Multiset::<T>::empty());
    }
}

/// What the workers send into their senders `i` of a channel reaches worker `i`, each element once,
/// and no other worker. A sender leads to the receiver of worker `i` alone; worker `i` has pulled
/// nothing but what was sent to it, none of it more often than it was sent; and once nothing is on
/// its way to it, it has pulled all of it.
pub proof fn law_sent_elements_reach_their_worker<T, A: Channels<T>>(
    identifier: usize,
    channel: Channel<T>,
    in_flight: InFlight<T>,
    i: int,
)
    requires
        A::moment(identifier, channel, in_flight),
        0 <= i < channel.len() <= usize::MAX,
    ensures
        forall|w: int, j: int|
            0 <= w < channel.len() && 0 <= j < channel.len() ==> ((
            #[trigger] channel[w].0@[i]).destination() == (
                identifier,
                Some((#[trigger] channel[j]).1.place().1),
            ) <==> j == i),
        channel[i].1.pulled().to_multiset().subset_of(
            sent_to(channel, i, channel.len() as int),
        ),
        in_flight[i] == Multiset::<T>::empty() ==> channel[i].1.pulled().to_multiset() == sent_to(
            channel,
            i,
            channel.len() as int,
        ),
{
    A::channel_delivers(identifier, channel, in_flight);
    let (sent, pulled) = (
        sent_to(channel, i, channel.len() as int),
        channel[i].1.pulled().to_multiset(),
    );
    assert(sent == pulled.add(in_flight[i]));
    if in_flight[i] == Multiset::<T>::empty() {
        assert(sent =~= pulled);
    }
}

/// Once each worker of a computation has allocated the channel with the same identifier, it is a
/// channel with nothing on its way.
pub proof fn law_allocated_channel_is_a_moment<T, A: Channels<T>>(
    identifier: usize,
    before: Seq<A>,
    after: Seq<A>,
    channel: Channel<T>,
)
    requires
        before.len() == channel.len(),
        after.len() == channel.len(),
        channel.len() <= usize::MAX,
        forall|w: int|
            0 <= w < channel.len() ==> {
                &&& (#[trigger] before[w]).worker() == w
                &&& before[w].workers() == channel.len()
                &&& after[w].allocated_from(&before[w], identifier, channel[w])
            },
    ensures
        A::moment(identifier, channel, nothing_in_flight(channel)),
{
    assert forall|w: int| 0 <= w < channel.len() implies is_fresh(
        #[trigger] channel[w],
        identifier,
        w as usize,
        channel.len() as usize,
    ) by {
        assert(before[w].worker() == w);
        after[w].allocation_keeps_worker(&before[w], identifier, channel[w]);
    }
    A::fresh_channel_is_a_moment(identifier, channel);
}

/// An element that a worker pushes into its sender to worker `i` counts as sent to worker `i`, once,
/// and to no other worker.
pub proof fn law_push_sends_to_one_worker<T>(
    channel: Channel<T>,
    after: Channel<T>,
    w: int,
    i: int,
    element: T,
    j: int,
)
    requires
        is_pushed(channel, after, w, i, element),
        forall|v: int|
            0 <= v < channel.len() ==> (#[trigger] channel[v]).0@.len() == channel.len(),
        0 <= j < channel.len(),
    ensures
        sent_to(after, j, channel.len() as int) == (if j == i {
            sent_to(channel, j, channel.len() as int).insert(element)
        } else {
            sent_to(channel, j, channel.len() as int)
        }),
{
    lemma_push_sends(channel, after, w, i, element, j, channel.len() as int);
}

/// A channel that delivers still does once a worker has pushed an element into its sender to worker
/// `i`: the element is then on its way to worker `i`.
pub proof fn law_push_keeps_delivery<T>(
    identifier: usize,
    channel: Channel<T>,
    after: Channel<T>,
    in_flight: InFlight<T>,
    w: int,
    i: int,
    element: T,
)
    requires
        delivers(identifier, channel, in_flight),
        is_pushed(channel, after, w, i, element),
    ensures
        delivers(identifier, after, in_flight.update(i, in_flight[i].insert(element))),
{
    let later = in_flight.update(i, in_flight[i].insert(element));
    let n = channel.len() as int;
    assert forall|v: int| 0 <= v < n implies {
        &&& (#[trigger] after[v]).0@.len() == n
        &&& after[v].1.place() == (identifier, v as usize)
    } by {
        assert(channel[v].0@.len() == n);
    }
    assert forall|v: int, j: int|
        0 <= v < n && 0 <= j < n implies (#[trigger] after[v].0@[j]).destination() == (
        identifier,
        Some(j as usize),
    ) by {
        assert(channel[v].0@.len() == n);
        assert(channel[v].0@[j].destination() == (identifier, Some(j as usize)));
        if v == w && j != i {
            assert(after[w].0@[j] == channel[w].0@[j]);
        }
    }
    assert forall|j: int| 0 <= j < n implies sent_to(after, j, n) == (
    #[trigger] after[j]).1.pulled().to_multiset().add(later[j]) by {
        law_push_sends_to_one_worker(channel, after, w, i, element, j);
        let pulled = channel[j].1.pulled().to_multiset();
        assert(sent_to(channel, j, n) == pulled.add(in_flight[j]));
        assert(after[j].1 == channel[j].1);
        assert(pulled.add(in_flight[j]).insert(element) =~= pulled.add(
            in_flight[j].insert(element),
        ));
    }
}

/// A channel that delivers still does once worker `i` has pulled an element that was on its way to
/// it.
pub proof fn law_pull_keeps_delivery<T>(
    identifier: usize,
    channel: Channel<T>,
    after: Channel<T>,
    in_flight: InFlight<T>,
    i: int,
    element: T,
)
    requires
        delivers(identifier, channel, in_flight),
        is_pulled(channel, after, in_flight, i, element),
    ensures
        delivers(identifier, after, in_flight.update(i, in_flight[i].remove(element))),
{
    broadcast use vstd::seq_lib::group_to_multiset_ensures;

    let later = in_flight.update(i, in_flight[i].remove(element));
    let n = channel.len() as int;
    assert forall|v: int| 0 <= v < n implies {
        &&& (#[trigger] after[v]).0 == channel[v].0
        &&& after[v].0@.len() == n
        &&& after[v].1.place() == (identifier, v as usize)
    } by {
        assert(channel[v].0@.len() == n);
    }
    assert forall|v: int, j: int|
        0 <= v < n && 0 <= j < n implies (#[trigger] after[v].0@[j]).destination() == (
        identifier,
        Some(j as usize),
    ) by {
        assert(after[v].0 == channel[v].0);
        assert(channel[v].0@[j].destination() == (identifier, Some(j as usize)));
    }
    assert forall|j: int| 0 <= j < n implies sent_to(after, j, n) == (
    #[trigger] after[j]).1.pulled().to_multiset().add(later[j]) by {
        lemma_pull_sends_nothing(channel, after, j, n);
        let pulled = channel[j].1.pulled().to_multiset();
        assert(sent_to(channel, j, n) == pulled.add(in_flight[j]));
        if j == i {
            assert(pulled.add(in_flight[i]) =~= pulled.insert(element).add(
                in_flight[i].remove(element),
            ));
        }
    }
}

/// What the first `n` workers have sent stays the same while their senders do.
proof fn lemma_pull_sends_nothing<T>(channel: Channel<T>, after: Channel<T>, j: int, n: int)
    requires
        0 <= n <= channel.len(),
        forall|v: int| 0 <= v < channel.len() ==> (#[trigger] after[v]).0 == channel[v].0,
    ensures
        sent_to(after, j, n) == sent_to(channel, j, n),
    decreases n,
{
    if n > 0 {
        lemma_pull_sends_nothing(channel, after, j, n - 1);
        assert(after[n - 1].0 == channel[n - 1].0);
    }
}

/// What the first `n` workers have sent changes by the push of one of them.
proof fn lemma_push_sends<T>(
    channel: Channel<T>,
    after: Channel<T>,
    w: int,
    i: int,
    element: T,
    j: int,
    n: int,
)
    requires
        is_pushed(channel, after, w, i, element),
        forall|v: int|
            0 <= v < channel.len() ==> (#[trigger] channel[v]).0@.len() == channel.len(),
        0 <= j < channel.len(),
        0 <= n <= channel.len(),
    ensures
        sent_to(after, j, n) == (if j == i && w < n {
            sent_to(channel, j, n).insert(element)
        } else {
            sent_to(channel, j, n)
        }),
    decreases n,
{
    broadcast use vstd::seq_lib::group_to_multiset_ensures;

    if n > 0 {
        lemma_push_sends(channel, after, w, i, element, j, n - 1);
        let v = n - 1;
        if v == w {
            assert(channel[w].0@.len() == channel.len());
            if j != i {
                assert(after[w].0@[j] == channel[w].0@[j]);
            }
            let (earlier, pushed) = (sent_to(channel, j, v), channel[v].0@[j].pushed());
            assert(earlier.add(pushed.push(element).to_multiset()) =~= earlier.add(
                pushed.to_multiset(),
            ).insert(element));
        } else {
            assert(after[v] == channel[v]);
            let (earlier, pushed) = (
                sent_to(channel, j, v),
                channel[v].0@[j].pushed().to_multiset(),
            );
            assert(earlier.insert(element).add(pushed) =~= earlier.add(pushed).insert(element));
        }
    }
}

} // verus!
