//! A generic allocator, wrapping known implementors of `Allocate`.
//!
//! This type is useful in settings where it is difficult to write code generic in `A: Allocate`,
//! for example closures whose type arguments must be specified.

use vstd::prelude::*;

use std::time::Duration;

use crate::allocator::{
    Allocate, AllocatorBuilder, BroadcastEndpoints, Channel, Channels, Endpoints, Events, InFlight,
    is_fresh, in_order,
};

verus! {

/// Enumerates known implementors of `Allocate`.
/// Passes trait method calls on to members.
pub enum GenericAllocator<T, P, PB, Z, ZB> {
    /// Intra-thread allocator.
    IntraThread(T),
    /// Inter-thread/intra-process allocator.
    IntraProcess(P),
    /// Inter-thread/intra-process serializing allocator.
    IntraProcessBinary(PB),
    /// Inter-process/intra-cluster allocator with inter-thread/intra-process allocator.
    IntraClusterIntraProcess(Z),
    /// Inter-process/intra-cluster allocator with inter-thread/intra-process serializing allocator.
    IntraClusterIntraProcessSerializing(ZB),
}

impl<T: Allocate, P: Allocate, PB: Allocate, Z: Allocate, ZB: Allocate> GenericAllocator<T, P, PB, Z, ZB> {
    /// The index of the worker out of `(0..self.peers())`.
    pub fn index(&self) -> (index: usize)
        ensures
            index == self.worker(),
            index < self.workers(),
    {
        match self {
            GenericAllocator::IntraThread(t) => t.index(),
            GenericAllocator::IntraProcess(p) => p.index(),
            GenericAllocator::IntraProcessBinary(pb) => pb.index(),
            GenericAllocator::IntraClusterIntraProcess(z) => z.index(),
            GenericAllocator::IntraClusterIntraProcessSerializing(zb) => zb.index(),
        }
    }

    /// The number of workers.
    pub fn peers(&self) -> (peers: usize)
        ensures
            peers == self.workers(),
    {
        match self {
            GenericAllocator::IntraThread(t) => t.peers(),
            GenericAllocator::IntraProcess(p) => p.peers(),
            GenericAllocator::IntraProcessBinary(pb) => pb.peers(),
            GenericAllocator::IntraClusterIntraProcess(z) => z.peers(),
            GenericAllocator::IntraClusterIntraProcessSerializing(zb) => zb.peers(),
        }
    }

    /// Perform work before scheduling operators.
    fn receive(&mut self)
        ensures
            final(self).received_from(old(self)),
            final(self).worker() == old(self).worker(),
            final(self).workers() == old(self).workers(),
    {
        match self {
            GenericAllocator::IntraThread(t) => t.receive(),
            GenericAllocator::IntraProcess(p) => p.receive(),
            GenericAllocator::IntraProcessBinary(pb) => pb.receive(),
            GenericAllocator::IntraClusterIntraProcess(z) => z.receive(),
            GenericAllocator::IntraClusterIntraProcessSerializing(zb) => zb.receive(),
        }
    }

    /// Perform work after scheduling operators.
    pub fn release(&mut self)
        ensures
            final(self).released_from(old(self)),
            final(self).worker() == old(self).worker(),
            final(self).workers() == old(self).workers(),
    {
        match self {
            GenericAllocator::IntraThread(t) => t.release(),
            GenericAllocator::IntraProcess(p) => p.release(),
            GenericAllocator::IntraProcessBinary(pb) => pb.release(),
            GenericAllocator::IntraClusterIntraProcess(z) => z.release(),
            GenericAllocator::IntraClusterIntraProcessSerializing(zb) => zb.release(),
        }
    }

    /// The queue of the channels on which something has happened.
    fn events(&self) -> (events: &Events)
        ensures
            *events == self.event_queue(),
    {
        match self {
            GenericAllocator::IntraThread(t) => t.events(),
            GenericAllocator::IntraProcess(p) => p.events(),
            GenericAllocator::IntraProcessBinary(pb) => pb.events(),
            GenericAllocator::IntraClusterIntraProcess(z) => z.events(),
            GenericAllocator::IntraClusterIntraProcessSerializing(zb) => zb.events(),
        }
    }
}

impl<T: Allocate, P: Allocate, PB: Allocate, Z: Allocate, ZB: Allocate> Allocate for GenericAllocator<T, P, PB, Z, ZB> {
    open spec fn worker(&self) -> usize {
        match self {
            GenericAllocator::IntraThread(t) => t.worker(),
            GenericAllocator::IntraProcess(p) => p.worker(),
            GenericAllocator::IntraProcessBinary(pb) => pb.worker(),
            GenericAllocator::IntraClusterIntraProcess(z) => z.worker(),
            GenericAllocator::IntraClusterIntraProcessSerializing(zb) => zb.worker(),
        }
    }

    open spec fn workers(&self) -> usize {
        match self {
            GenericAllocator::IntraThread(t) => t.workers(),
            GenericAllocator::IntraProcess(p) => p.workers(),
            GenericAllocator::IntraProcessBinary(pb) => pb.workers(),
            GenericAllocator::IntraClusterIntraProcess(z) => z.workers(),
            GenericAllocator::IntraClusterIntraProcessSerializing(zb) => zb.workers(),
        }
    }

    open spec fn event_queue(&self) -> Events {
        match self {
            GenericAllocator::IntraThread(t) => t.event_queue(),
            GenericAllocator::IntraProcess(p) => p.event_queue(),
            GenericAllocator::IntraProcessBinary(pb) => pb.event_queue(),
            GenericAllocator::IntraClusterIntraProcess(z) => z.event_queue(),
            GenericAllocator::IntraClusterIntraProcessSerializing(zb) => zb.event_queue(),
        }
    }

    open spec fn received_from(&self, before: &Self) -> bool {
        match (before, self) {
            (GenericAllocator::IntraThread(b), GenericAllocator::IntraThread(a)) => a.received_from(b),
            (GenericAllocator::IntraProcess(b), GenericAllocator::IntraProcess(a)) => a.received_from(b),
            (GenericAllocator::IntraProcessBinary(b), GenericAllocator::IntraProcessBinary(a)) => a.received_from(b),
            (GenericAllocator::IntraClusterIntraProcess(b), GenericAllocator::IntraClusterIntraProcess(a)) => a.received_from(b),
            (GenericAllocator::IntraClusterIntraProcessSerializing(b), GenericAllocator::IntraClusterIntraProcessSerializing(a)) => a.received_from(b),
            _ => false,
        }
    }

    open spec fn released_from(&self, before: &Self) -> bool {
        match (before, self) {
            (GenericAllocator::IntraThread(b), GenericAllocator::IntraThread(a)) => a.released_from(b),
            (GenericAllocator::IntraProcess(b), GenericAllocator::IntraProcess(a)) => a.released_from(b),
            (GenericAllocator::IntraProcessBinary(b), GenericAllocator::IntraProcessBinary(a)) => a.released_from(b),
            (GenericAllocator::IntraClusterIntraProcess(b), GenericAllocator::IntraClusterIntraProcess(a)) => a.released_from(b),
            (GenericAllocator::IntraClusterIntraProcessSerializing(b), GenericAllocator::IntraClusterIntraProcessSerializing(a)) => a.released_from(b),
            _ => false,
        }
    }

    proof fn worker_is_a_peer(&self) {
        match self {
            GenericAllocator::IntraThread(a) => a.worker_is_a_peer(),
            GenericAllocator::IntraProcess(a) => a.worker_is_a_peer(),
            GenericAllocator::IntraProcessBinary(a) => a.worker_is_a_peer(),
            GenericAllocator::IntraClusterIntraProcess(a) => a.worker_is_a_peer(),
            GenericAllocator::IntraClusterIntraProcessSerializing(a) => a.worker_is_a_peer(),
        }
    }

    proof fn work_keeps_worker(&self, before: &Self) {
        match (before, self) {
            (GenericAllocator::IntraThread(b), GenericAllocator::IntraThread(a)) => a.work_keeps_worker(b),
            (GenericAllocator::IntraProcess(b), GenericAllocator::IntraProcess(a)) => a.work_keeps_worker(b),
            (GenericAllocator::IntraProcessBinary(b), GenericAllocator::IntraProcessBinary(a)) => a.work_keeps_worker(b),
            (GenericAllocator::IntraClusterIntraProcess(b), GenericAllocator::IntraClusterIntraProcess(a)) => a.work_keeps_worker(b),
            (GenericAllocator::IntraClusterIntraProcessSerializing(b), GenericAllocator::IntraClusterIntraProcessSerializing(a)) => a.work_keeps_worker(b),
            _ => {},
        }
    }

    fn index(&self) -> usize {
        self.index()
    }

    fn peers(&self) -> usize {
        self.peers()
    }

    fn receive(&mut self) {
        self.receive()
    }

    fn release(&mut self) {
        self.release()
    }

    fn events(&self) -> &Events {
        self.events()
    }

    fn await_events(&self, duration: Option<Duration>) {
        match self {
            GenericAllocator::IntraThread(t) => t.await_events(duration),
            GenericAllocator::IntraProcess(p) => p.await_events(duration),
            GenericAllocator::IntraProcessBinary(pb) => pb.await_events(duration),
            GenericAllocator::IntraClusterIntraProcess(z) => z.await_events(duration),
            GenericAllocator::IntraClusterIntraProcessSerializing(zb) => zb.await_events(duration),
        }
    }
}

impl<
    M,
    T: Channels<M>,
    P: Channels<M>,
    PB: Channels<M>,
    Z: Channels<M>,
    ZB: Channels<M>,
> Channels<M> for GenericAllocator<T, P, PB, Z, ZB> {
    open spec fn allocated_from(
        &self,
        before: &Self,
        identifier: usize,
        endpoints: Endpoints<M>,
    ) -> bool {
        match (before, self) {
            (GenericAllocator::IntraThread(b), GenericAllocator::IntraThread(a)) => a.allocated_from(b, identifier, endpoints),
            (GenericAllocator::IntraProcess(b), GenericAllocator::IntraProcess(a)) => a.allocated_from(b, identifier, endpoints),
            (GenericAllocator::IntraProcessBinary(b), GenericAllocator::IntraProcessBinary(a)) => a.allocated_from(b, identifier, endpoints),
            (GenericAllocator::IntraClusterIntraProcess(b), GenericAllocator::IntraClusterIntraProcess(a)) => a.allocated_from(b, identifier, endpoints),
            (GenericAllocator::IntraClusterIntraProcessSerializing(b), GenericAllocator::IntraClusterIntraProcessSerializing(a)) => a.allocated_from(b, identifier, endpoints),
            _ => false,
        }
    }

    open spec fn broadcast_from(
        &self,
        before: &Self,
        identifier: usize,
        endpoints: BroadcastEndpoints<M>,
    ) -> bool {
        match (before, self) {
            (GenericAllocator::IntraThread(b), GenericAllocator::IntraThread(a)) => a.broadcast_from(b, identifier, endpoints),
            (GenericAllocator::IntraProcess(b), GenericAllocator::IntraProcess(a)) => a.broadcast_from(b, identifier, endpoints),
            (GenericAllocator::IntraProcessBinary(b), GenericAllocator::IntraProcessBinary(a)) => a.broadcast_from(b, identifier, endpoints),
            (GenericAllocator::IntraClusterIntraProcess(b), GenericAllocator::IntraClusterIntraProcess(a)) => a.broadcast_from(b, identifier, endpoints),
            (GenericAllocator::IntraClusterIntraProcessSerializing(b), GenericAllocator::IntraClusterIntraProcessSerializing(a)) => a.broadcast_from(b, identifier, endpoints),
            _ => false,
        }
    }

    proof fn allocation_keeps_worker(
        &self,
        before: &Self,
        identifier: usize,
        endpoints: Endpoints<M>,
    ) {
        match (before, self) {
            (GenericAllocator::IntraThread(b), GenericAllocator::IntraThread(a)) => a.allocation_keeps_worker(b, identifier, endpoints),
            (GenericAllocator::IntraProcess(b), GenericAllocator::IntraProcess(a)) => a.allocation_keeps_worker(b, identifier, endpoints),
            (GenericAllocator::IntraProcessBinary(b), GenericAllocator::IntraProcessBinary(a)) => a.allocation_keeps_worker(b, identifier, endpoints),
            (GenericAllocator::IntraClusterIntraProcess(b), GenericAllocator::IntraClusterIntraProcess(a)) => a.allocation_keeps_worker(b, identifier, endpoints),
            (GenericAllocator::IntraClusterIntraProcessSerializing(b), GenericAllocator::IntraClusterIntraProcessSerializing(a)) => a.allocation_keeps_worker(b, identifier, endpoints),
            _ => {},
        }
    }

    proof fn broadcast_keeps_worker(
        &self,
        before: &Self,
        identifier: usize,
        endpoints: BroadcastEndpoints<M>,
    ) {
        match (before, self) {
            (GenericAllocator::IntraThread(b), GenericAllocator::IntraThread(a)) => a.broadcast_keeps_worker(b, identifier, endpoints),
            (GenericAllocator::IntraProcess(b), GenericAllocator::IntraProcess(a)) => a.broadcast_keeps_worker(b, identifier, endpoints),
            (GenericAllocator::IntraProcessBinary(b), GenericAllocator::IntraProcessBinary(a)) => a.broadcast_keeps_worker(b, identifier, endpoints),
            (GenericAllocator::IntraClusterIntraProcess(b), GenericAllocator::IntraClusterIntraProcess(a)) => a.broadcast_keeps_worker(b, identifier, endpoints),
            (GenericAllocator::IntraClusterIntraProcessSerializing(b), GenericAllocator::IntraClusterIntraProcessSerializing(a)) => a.broadcast_keeps_worker(b, identifier, endpoints),
            _ => {},
        }
    }

    open spec fn moment(identifier: usize, channel: Channel<M>, in_flight: InFlight<M>) -> bool {
        ||| T::moment(identifier, channel, in_flight)
        ||| P::moment(identifier, channel, in_flight)
        ||| PB::moment(identifier, channel, in_flight)
        ||| Z::moment(identifier, channel, in_flight)
        ||| ZB::moment(identifier, channel, in_flight)
    }

    proof fn fresh_channel_is_a_moment(identifier: usize, channel: Channel<M>) {
        T::fresh_channel_is_a_moment(identifier, channel);
    }

    proof fn push_keeps_moment(
        identifier: usize,
        channel: Channel<M>,
        after: Channel<M>,
        in_flight: InFlight<M>,
        w: int,
        i: int,
        element: M,
    ) {
        if T::moment(identifier, channel, in_flight) {
            T::push_keeps_moment(identifier, channel, after, in_flight, w, i, element);
        } else if P::moment(identifier, channel, in_flight) {
            P::push_keeps_moment(identifier, channel, after, in_flight, w, i, element);
        } else if PB::moment(identifier, channel, in_flight) {
            PB::push_keeps_moment(identifier, channel, after, in_flight, w, i, element);
        } else if Z::moment(identifier, channel, in_flight) {
            Z::push_keeps_moment(identifier, channel, after, in_flight, w, i, element);
        } else {
            ZB::push_keeps_moment(identifier, channel, after, in_flight, w, i, element);
        }
    }

    proof fn pull_keeps_moment(
        identifier: usize,
        channel: Channel<M>,
        after: Channel<M>,
        in_flight: InFlight<M>,
        i: int,
        element: M,
    ) {
        if T::moment(identifier, channel, in_flight) {
            T::pull_keeps_moment(identifier, channel, after, in_flight, i, element);
        } else if P::moment(identifier, channel, in_flight) {
            P::pull_keeps_moment(identifier, channel, after, in_flight, i, element);
        } else if PB::moment(identifier, channel, in_flight) {
            PB::pull_keeps_moment(identifier, channel, after, in_flight, i, element);
        } else if Z::moment(identifier, channel, in_flight) {
            Z::pull_keeps_moment(identifier, channel, after, in_flight, i, element);
        } else {
            ZB::pull_keeps_moment(identifier, channel, after, in_flight, i, element);
        }
    }

    proof fn channel_delivers(identifier: usize, channel: Channel<M>, in_flight: InFlight<M>) {
        if T::moment(identifier, channel, in_flight) {
            T::channel_delivers(identifier, channel, in_flight);
        } else if P::moment(identifier, channel, in_flight) {
            P::channel_delivers(identifier, channel, in_flight);
        } else if PB::moment(identifier, channel, in_flight) {
            PB::channel_delivers(identifier, channel, in_flight);
        } else if Z::moment(identifier, channel, in_flight) {
            Z::channel_delivers(identifier, channel, in_flight);
        } else {
            ZB::channel_delivers(identifier, channel, in_flight);
        }
    }

    /// Constructs several send endpoints and one receive endpoint.
    fn allocate(&mut self, identifier: usize) -> Endpoints<M> {
        match self {
            GenericAllocator::IntraThread(t) => t.allocate(identifier),
            GenericAllocator::IntraProcess(p) => p.allocate(identifier),
            GenericAllocator::IntraProcessBinary(pb) => pb.allocate(identifier),
            GenericAllocator::IntraClusterIntraProcess(z) => z.allocate(identifier),
            GenericAllocator::IntraClusterIntraProcessSerializing(zb) => zb.allocate(identifier),
        }
    }

    /// Constructs one send endpoint to all workers and one receive endpoint.
    fn broadcast(&mut self, identifier: usize) -> BroadcastEndpoints<M> {
        match self {
            GenericAllocator::IntraThread(t) => t.broadcast(identifier),
            GenericAllocator::IntraProcess(p) => p.broadcast(identifier),
            GenericAllocator::IntraProcessBinary(pb) => pb.broadcast(identifier),
            GenericAllocator::IntraClusterIntraProcess(z) => z.broadcast(identifier),
            GenericAllocator::IntraClusterIntraProcessSerializing(zb) => zb.broadcast(identifier),
        }
    }
}

/// Enumerations of constructable implementors of `Allocate`.
///
/// The builder variants are meant to be `Send`, so that they can be moved across threads,
/// whereas the allocator they construct may not.
pub enum GenericBuilder<T, P, PB, Z, ZB> {
    /// Builder for `Thread` allocator.
    IntraThread(T),
    /// Builder for `Process` allocator.
    IntraProcess(P),
    /// Builder for `ProcessBinary` allocator.
    IntraProcessSerializing(PB),
    /// Builder for `ZeroCopy` allocator.
    IntraClusterIntraProcess(Z),
    /// Builder for `ZeroCopyBinary` allocator.
    IntraClusterIntraProcessSerializing(ZB),
}

impl<
    T: AllocatorBuilder,
    P: AllocatorBuilder,
    PB: AllocatorBuilder,
    Z: AllocatorBuilder,
    ZB: AllocatorBuilder,
> AllocatorBuilder for GenericBuilder<T, P, PB, Z, ZB> {
    type Allocator = GenericAllocator<
        T::Allocator,
        P::Allocator,
        PB::Allocator,
        Z::Allocator,
        ZB::Allocator,
    >;

    open spec fn worker(&self) -> usize {
        match self {
            GenericBuilder::IntraThread(b) => b.worker(),
            GenericBuilder::IntraProcess(b) => b.worker(),
            GenericBuilder::IntraProcessSerializing(b) => b.worker(),
            GenericBuilder::IntraClusterIntraProcess(b) => b.worker(),
            GenericBuilder::IntraClusterIntraProcessSerializing(b) => b.worker(),
        }
    }

    open spec fn workers(&self) -> usize {
        match self {
            GenericBuilder::IntraThread(b) => b.workers(),
            GenericBuilder::IntraProcess(b) => b.workers(),
            GenericBuilder::IntraProcessSerializing(b) => b.workers(),
            GenericBuilder::IntraClusterIntraProcess(b) => b.workers(),
            GenericBuilder::IntraClusterIntraProcessSerializing(b) => b.workers(),
        }
    }

    open spec fn builds(&self, allocator: &Self::Allocator) -> bool {
        match (self, allocator) {
            (GenericBuilder::IntraThread(b), GenericAllocator::IntraThread(a)) => b.builds(a),
            (GenericBuilder::IntraProcess(b), GenericAllocator::IntraProcess(a)) => b.builds(a),
            (GenericBuilder::IntraProcessSerializing(b), GenericAllocator::IntraProcessBinary(a)) => b.builds(a),
            (GenericBuilder::IntraClusterIntraProcess(b), GenericAllocator::IntraClusterIntraProcess(a)) => b.builds(a),
            (GenericBuilder::IntraClusterIntraProcessSerializing(b), GenericAllocator::IntraClusterIntraProcessSerializing(a)) => b.builds(a),
            _ => false,
        }
    }

    proof fn build_keeps_worker(&self, allocator: &Self::Allocator) {
        match (self, allocator) {
            (GenericBuilder::IntraThread(b), GenericAllocator::IntraThread(a)) => b.build_keeps_worker(a),
            (GenericBuilder::IntraProcess(b), GenericAllocator::IntraProcess(a)) => b.build_keeps_worker(a),
            (GenericBuilder::IntraProcessSerializing(b), GenericAllocator::IntraProcessBinary(a)) => b.build_keeps_worker(a),
            (GenericBuilder::IntraClusterIntraProcess(b), GenericAllocator::IntraClusterIntraProcess(a)) => b.build_keeps_worker(a),
            (GenericBuilder::IntraClusterIntraProcessSerializing(b), GenericAllocator::IntraClusterIntraProcessSerializing(a)) => b.build_keeps_worker(a),
            _ => {},
        }
    }

    fn build(self) -> Self::Allocator {
        match self {
            GenericBuilder::IntraThread(t) => GenericAllocator::IntraThread(t.build()),
            GenericBuilder::IntraProcess(p) => GenericAllocator::IntraProcess(p.build()),
            GenericBuilder::IntraProcessSerializing(pb) => GenericAllocator::IntraProcessBinary(pb.build()),
            GenericBuilder::IntraClusterIntraProcess(z) => GenericAllocator::IntraClusterIntraProcess(z.build()),
            GenericBuilder::IntraClusterIntraProcessSerializing(zb) => GenericAllocator::IntraClusterIntraProcessSerializing(zb.build()),
        }
    }
}

impl<T, P, PB, Z, ZB> GenericBuilder<T, P, PB, Z, ZB> {
    /// Builders for workers that share no channel with another thread.
    pub fn intra_thread(builders: Vec<T>) -> (generic: Vec<Self>)
        ensures
            generic@ == builders@.map_values(|b: T| GenericBuilder::<T, P, PB, Z, ZB>::IntraThread(b)),
    {
        let mut generic: Vec<Self> = Vec::new();
        for builder in iter: builders
            invariant
                generic@ == iter.seq().take(iter.index()).map_values(
                    |b: T| GenericBuilder::<T, P, PB, Z, ZB>::IntraThread(b),
                ),
        {
            generic.push(GenericBuilder::IntraThread(builder));
        }
        generic
    }

    /// Builders for one process whose workers exchange typed values.
    pub fn intra_process(builders: Vec<P>) -> (generic: Vec<Self>)
        ensures
            generic@ == builders@.map_values(|b: P| GenericBuilder::<T, P, PB, Z, ZB>::IntraProcess(b)),
    {
        let mut generic: Vec<Self> = Vec::new();
        for builder in iter: builders
            invariant
                generic@ == iter.seq().take(iter.index()).map_values(
                    |b: P| GenericBuilder::<T, P, PB, Z, ZB>::IntraProcess(b),
                ),
        {
            generic.push(GenericBuilder::IntraProcess(builder));
        }
        generic
    }

    /// Builders for one process whose workers exchange bytes.
    pub fn intra_process_serializing(builders: Vec<PB>) -> (generic: Vec<Self>)
        ensures
            generic@ == builders@.map_values(
                |b: PB| GenericBuilder::<T, P, PB, Z, ZB>::IntraProcessSerializing(b),
            ),
    {
        let mut generic: Vec<Self> = Vec::new();
        for builder in iter: builders
            invariant
                generic@ == iter.seq().take(iter.index()).map_values(
                    |b: PB| GenericBuilder::<T, P, PB, Z, ZB>::IntraProcessSerializing(b),
                ),
        {
            generic.push(GenericBuilder::IntraProcessSerializing(builder));
        }
        generic
    }

    /// Builders for several processes, the workers of each of which exchange typed values.
    pub fn intra_cluster(builders: Vec<Z>) -> (generic: Vec<Self>)
        ensures
            generic@ == builders@.map_values(
                |b: Z| GenericBuilder::<T, P, PB, Z, ZB>::IntraClusterIntraProcess(b),
            ),
    {
        let mut generic: Vec<Self> = Vec::new();
        for builder in iter: builders
            invariant
                generic@ == iter.seq().take(iter.index()).map_values(
                    |b: Z| GenericBuilder::<T, P, PB, Z, ZB>::IntraClusterIntraProcess(b),
                ),
        {
            generic.push(GenericBuilder::IntraClusterIntraProcess(builder));
        }
        generic
    }

    /// Builders for several processes, the workers of each of which exchange bytes.
    pub fn intra_cluster_serializing(builders: Vec<ZB>) -> (generic: Vec<Self>)
        ensures
            generic@ == builders@.map_values(
                |b: ZB| GenericBuilder::<T, P, PB, Z, ZB>::IntraClusterIntraProcessSerializing(b),
            ),
    {
        let mut generic: Vec<Self> = Vec::new();
        for builder in iter: builders
            invariant
                generic@ == iter.seq().take(iter.index()).map_values(
                    |b: ZB|
                        GenericBuilder::<T, P, PB, Z, ZB>::IntraClusterIntraProcessSerializing(b),
                ),
        {
            generic.push(GenericBuilder::IntraClusterIntraProcessSerializing(builder));
        }
        generic
    }
}

/// Which of the known allocators is wrapped.
pub enum AllocatorKind {
    /// Intra-thread allocator.
    IntraThread,
    /// Inter-thread/intra-process allocator.
    IntraProcess,
    /// Inter-thread/intra-process serializing allocator.
    IntraProcessBinary,
    /// Inter-process/intra-cluster allocator with inter-thread/intra-process allocator.
    IntraClusterIntraProcess,
    /// Inter-process/intra-cluster allocator with inter-thread/intra-process serializing allocator.
    IntraClusterIntraProcessSerializing,
}

impl<T, P, PB, Z, ZB> GenericAllocator<T, P, PB, Z, ZB> {
    /// Which of the known allocators is wrapped.
    pub open spec fn kind(&self) -> AllocatorKind {
        match self {
            GenericAllocator::IntraThread(_) => AllocatorKind::IntraThread,
            GenericAllocator::IntraProcess(_) => AllocatorKind::IntraProcess,
            GenericAllocator::IntraProcessBinary(_) => AllocatorKind::IntraProcessBinary,
            GenericAllocator::IntraClusterIntraProcess(_) => AllocatorKind::IntraClusterIntraProcess,
            GenericAllocator::IntraClusterIntraProcessSerializing(_) => AllocatorKind::IntraClusterIntraProcessSerializing,
        }
    }
}

impl<T, P, PB, Z, ZB> GenericBuilder<T, P, PB, Z, ZB> {
    /// Which of the known allocators is built.
    pub open spec fn kind(&self) -> AllocatorKind {
        match self {
            GenericBuilder::IntraThread(_) => AllocatorKind::IntraThread,
            GenericBuilder::IntraProcess(_) => AllocatorKind::IntraProcess,
            GenericBuilder::IntraProcessSerializing(_) => AllocatorKind::IntraProcessBinary,
            GenericBuilder::IntraClusterIntraProcess(_) => AllocatorKind::IntraClusterIntraProcess,
            GenericBuilder::IntraClusterIntraProcessSerializing(_) => AllocatorKind::IntraClusterIntraProcessSerializing,
        }
    }
}

/// No work and no allocation of a channel turns one kind of allocator into another, or changes the
/// index or the number of peers.
pub proof fn law_work_keeps_kind_and_worker<
    M,
    T: Channels<M>,
    P: Channels<M>,
    PB: Channels<M>,
    Z: Channels<M>,
    ZB: Channels<M>,
>(
    before: GenericAllocator<T, P, PB, Z, ZB>,
    after: GenericAllocator<T, P, PB, Z, ZB>,
    identifier: usize,
    endpoints: Endpoints<M>,
    broadcast: BroadcastEndpoints<M>,
)
    requires
        after.received_from(&before) || after.released_from(&before) || after.allocated_from(
            &before,
            identifier,
            endpoints,
        ) || after.broadcast_from(&before, identifier, broadcast),
    ensures
        after.kind() == before.kind(),
        after.worker() == before.worker(),
        after.workers() == before.workers(),
{
    if after.received_from(&before) || after.released_from(&before) {
        after.work_keeps_worker(&before);
    } else if after.allocated_from(&before, identifier, endpoints) {
        after.allocation_keeps_worker(&before, identifier, endpoints);
    } else {
        after.broadcast_keeps_worker(&before, identifier, broadcast);
    }
}

/// A builder builds the kind of allocator that it stands for.
pub proof fn law_building_keeps_kind<
    T: AllocatorBuilder,
    P: AllocatorBuilder,
    PB: AllocatorBuilder,
    Z: AllocatorBuilder,
    ZB: AllocatorBuilder,
>(
    builder: GenericBuilder<T, P, PB, Z, ZB>,
    allocator: GenericAllocator<
        T::Allocator,
        P::Allocator,
        PB::Allocator,
        Z::Allocator,
        ZB::Allocator,
    >,
)
    requires
        builder.builds(&allocator),
    ensures
        allocator.kind() == builder.kind(),
{
}

/// The index is one out of `(0..peers)`, and is that of the wrapped allocator.
pub proof fn law_worker_is_one_of_its_peers<
    T: Allocate,
    P: Allocate,
    PB: Allocate,
    Z: Allocate,
    ZB: Allocate,
>(allocator: GenericAllocator<T, P, PB, Z, ZB>)
    ensures
        allocator.worker() < allocator.workers(),
        allocator.worker() == (match allocator {
            GenericAllocator::IntraThread(t) => t.worker(),
            GenericAllocator::IntraProcess(p) => p.worker(),
            GenericAllocator::IntraProcessBinary(pb) => pb.worker(),
            GenericAllocator::IntraClusterIntraProcess(z) => z.worker(),
            GenericAllocator::IntraClusterIntraProcessSerializing(zb) => zb.worker(),
        }),
{
    allocator.worker_is_a_peer();
}

/// The builders of a process are wrapped without a change to the workers that they are for,
/// whichever kind of allocator they build.
pub proof fn law_wrapping_keeps_workers<
    T: AllocatorBuilder,
    P: AllocatorBuilder,
    PB: AllocatorBuilder,
    Z: AllocatorBuilder,
    ZB: AllocatorBuilder,
>(
    thread: Seq<T>,
    process: Seq<P>,
    binary: Seq<PB>,
    cluster: Seq<Z>,
    serializing: Seq<ZB>,
    first: int,
    workers: int,
)
    ensures
        in_order(thread, first, workers) ==> in_order(
            thread.map_values(|b: T| GenericBuilder::<T, P, PB, Z, ZB>::IntraThread(b)),
            first,
            workers,
        ),
        in_order(process, first, workers) ==> in_order(
            process.map_values(|b: P| GenericBuilder::<T, P, PB, Z, ZB>::IntraProcess(b)),
            first,
            workers,
        ),
        in_order(binary, first, workers) ==> in_order(
            binary.map_values(
                |b: PB| GenericBuilder::<T, P, PB, Z, ZB>::IntraProcessSerializing(b),
            ),
            first,
            workers,
        ),
        in_order(cluster, first, workers) ==> in_order(
            cluster.map_values(
                |b: Z| GenericBuilder::<T, P, PB, Z, ZB>::IntraClusterIntraProcess(b),
            ),
            first,
            workers,
        ),
        in_order(serializing, first, workers) ==> in_order(
            serializing.map_values(
                |b: ZB| GenericBuilder::<T, P, PB, Z, ZB>::IntraClusterIntraProcessSerializing(b),
            ),
            first,
            workers,
        ),
{
}

/// The endpoints of a channel are those that the wrapped allocator gives for the same identifier,
/// one sender for each worker: whatever is exchanged through the ones is exchanged through the
/// others.
pub proof fn law_endpoints_are_those_of_the_wrapped<
    M,
    T: Channels<M>,
    P: Channels<M>,
    PB: Channels<M>,
    Z: Channels<M>,
    ZB: Channels<M>,
>(
    before: GenericAllocator<T, P, PB, Z, ZB>,
    after: GenericAllocator<T, P, PB, Z, ZB>,
    identifier: usize,
    endpoints: Endpoints<M>,
)
    requires
        after.allocated_from(&before, identifier, endpoints),
    ensures
        is_fresh(endpoints, identifier, before.worker(), before.workers()),
        match (before, after) {
            (GenericAllocator::IntraThread(b), GenericAllocator::IntraThread(a)) => a.allocated_from(
                &b,
                identifier,
                endpoints,
            ),
            (GenericAllocator::IntraProcess(b), GenericAllocator::IntraProcess(a)) => a.allocated_from(
                &b,
                identifier,
                endpoints,
            ),
            (GenericAllocator::IntraProcessBinary(b), GenericAllocator::IntraProcessBinary(a)) => a.allocated_from(
                &b,
                identifier,
                endpoints,
            ),
            (GenericAllocator::IntraClusterIntraProcess(b), GenericAllocator::IntraClusterIntraProcess(a)) => a.allocated_from(
                &b,
                identifier,
                endpoints,
            ),
            (GenericAllocator::IntraClusterIntraProcessSerializing(b), GenericAllocator::IntraClusterIntraProcessSerializing(a)) => a.allocated_from(
                &b,
                identifier,
                endpoints,
            ),
            _ => false,
        },
{
    after.allocation_keeps_worker(&before, identifier, endpoints);
}

/// All that is asked of a generic allocator is asked of the allocator that it wraps: the index, the
/// number of peers and the events are those of the wrapped one, and so is the work before and after
/// scheduling, and the allocation of a broadcast channel.
pub proof fn law_work_is_that_of_the_wrapped<
    M,
    T: Channels<M>,
    P: Channels<M>,
    PB: Channels<M>,
    Z: Channels<M>,
    ZB: Channels<M>,
>(
    before: GenericAllocator<T, P, PB, Z, ZB>,
    after: GenericAllocator<T, P, PB, Z, ZB>,
    identifier: usize,
    endpoints: BroadcastEndpoints<M>,
)
    ensures
        match after {
            GenericAllocator::IntraThread(a) => {
                &&& after.worker() == a.worker()
                &&& after.workers() == a.workers()
                &&& after.event_queue() == a.event_queue()
            },
            GenericAllocator::IntraProcess(a) => {
                &&& after.worker() == a.worker()
                &&& after.workers() == a.workers()
                &&& after.event_queue() == a.event_queue()
            },
            GenericAllocator::IntraProcessBinary(a) => {
                &&& after.worker() == a.worker()
                &&& after.workers() == a.workers()
                &&& after.event_queue() == a.event_queue()
            },
            GenericAllocator::IntraClusterIntraProcess(a) => {
                &&& after.worker() == a.worker()
                &&& after.workers() == a.workers()
                &&& after.event_queue() == a.event_queue()
            },
            GenericAllocator::IntraClusterIntraProcessSerializing(a) => {
                &&& after.worker() == a.worker()
                &&& after.workers() == a.workers()
                &&& after.event_queue() == a.event_queue()
            },
        },
        match (before, after) {
            (
                GenericAllocator::IntraThread(b),
                GenericAllocator::IntraThread(a),
            ) => {
                &&& after.received_from(&before) <==> a.received_from(&b)
                &&& after.released_from(&before) <==> a.released_from(&b)
                &&& after.broadcast_from(&before, identifier, endpoints) <==> a.broadcast_from(
                    &b,
                    identifier,
                    endpoints,
                )
            },
            (
                GenericAllocator::IntraProcess(b),
                GenericAllocator::IntraProcess(a),
            ) => {
                &&& after.received_from(&before) <==> a.received_from(&b)
                &&& after.released_from(&before) <==> a.released_from(&b)
                &&& after.broadcast_from(&before, identifier, endpoints) <==> a.broadcast_from(
                    &b,
                    identifier,
                    endpoints,
                )
            },
            (
                GenericAllocator::IntraProcessBinary(b),
                GenericAllocator::IntraProcessBinary(a),
            ) => {
                &&& after.received_from(&before) <==> a.received_from(&b)
                &&& after.released_from(&before) <==> a.released_from(&b)
                &&& after.broadcast_from(&before, identifier, endpoints) <==> a.broadcast_from(
                    &b,
                    identifier,
                    endpoints,
                )
            },
            (
                GenericAllocator::IntraClusterIntraProcess(b),
                GenericAllocator::IntraClusterIntraProcess(a),
            ) => {
                &&& after.received_from(&before) <==> a.received_from(&b)
                &&& after.released_from(&before) <==> a.released_from(&b)
                &&& after.broadcast_from(&before, identifier, endpoints) <==> a.broadcast_from(
                    &b,
                    identifier,
                    endpoints,
                )
            },
            (
                GenericAllocator::IntraClusterIntraProcessSerializing(b),
                GenericAllocator::IntraClusterIntraProcessSerializing(a),
            ) => {
                &&& after.received_from(&before) <==> a.received_from(&b)
                &&& after.released_from(&before) <==> a.released_from(&b)
                &&& after.broadcast_from(&before, identifier, endpoints) <==> a.broadcast_from(
                    &b,
                    identifier,
                    endpoints,
                )
            },
            _ => !after.received_from(&before) && !after.released_from(&before)
                && !after.broadcast_from(&before, identifier, endpoints),
        },
{
}

/// A generic builder builds what the builder that it wraps builds, wrapped as its name says.
pub proof fn law_building_is_that_of_the_wrapped<
    T: AllocatorBuilder,
    P: AllocatorBuilder,
    PB: AllocatorBuilder,
    Z: AllocatorBuilder,
    ZB: AllocatorBuilder,
>(
    builder: GenericBuilder<T, P, PB, Z, ZB>,
    allocator: GenericAllocator<
        T::Allocator,
        P::Allocator,
        PB::Allocator,
        Z::Allocator,
        ZB::Allocator,
    >,
)
    ensures
        match builder {
            GenericBuilder::IntraThread(b) => {
                &&& builder.worker() == b.worker()
                &&& builder.workers() == b.workers()
                &&& builder.builds(&allocator) <==> allocator is IntraThread && b.builds(
                    &allocator->IntraThread_0,
                )
            },
            GenericBuilder::IntraProcess(b) => {
                &&& builder.worker() == b.worker()
                &&& builder.workers() == b.workers()
                &&& builder.builds(&allocator) <==> allocator is IntraProcess && b.builds(
                    &allocator->IntraProcess_0,
                )
            },
            GenericBuilder::IntraProcessSerializing(b) => {
                &&& builder.worker() == b.worker()
                &&& builder.workers() == b.workers()
                &&& builder.builds(&allocator) <==> allocator is IntraProcessBinary && b.builds(
                    &allocator->IntraProcessBinary_0,
                )
            },
            GenericBuilder::IntraClusterIntraProcess(b) => {
                &&& builder.worker() == b.worker()
                &&& builder.workers() == b.workers()
                &&& builder.builds(&allocator) <==> allocator is IntraClusterIntraProcess
                    && b.builds(&allocator->IntraClusterIntraProcess_0)
            },
            GenericBuilder::IntraClusterIntraProcessSerializing(b) => {
                &&& builder.worker() == b.worker()
                &&& builder.workers() == b.workers()
                &&& builder.builds(&allocator) <==> allocator
                    is IntraClusterIntraProcessSerializing && b.builds(
                    &allocator->IntraClusterIntraProcessSerializing_0,
                )
            },
        },
{
}

} // verus!
