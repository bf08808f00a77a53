//! A collection of helpers for connection-oriented network protocols
//!
//! where this process establishes a connection to all processes with an index below its own
//! and waits for connection from processes with an index above ours, and does not establish a
//! connection to processes above itself. For processes on the same host, shared memory can
//! be used automatically, without the driver for the per-process connection-oriented transport
//! needing to be aware of this.

use vstd::prelude::*;

use crate::networking::handshake::{
    each_arrives_once, fill, law_arrival_order_is_irrelevant, no_connections, present,
};
use crate::text::decimal;

verus! {

/// An internet address.
#[derive(Debug, PartialEq, Eq, Structural, Clone, Copy)]
pub enum Ip {
    /// The four octets of a version 4 address.
    V4(u8, u8, u8, u8),
    /// The bits of a version 6 address.
    V6(u128),
}

/// Where a process listens.
#[derive(Debug, PartialEq, Eq, Structural, Clone, Copy)]
pub struct Address {
    /// The host.
    pub ip: Ip,
    /// The port.
    pub port: u16,
}

impl Ip {
    /// Whether the address is that of the own host: one of 127.0.0.0/8, or ::1.
    pub open spec fn loopback(self) -> bool {
        match self {
            Ip::V4(first, _, _, _) => first == 127,
            Ip::V6(bits) => bits == 1,
        }
    }

    /// Whether the address is that of the own host.
    pub fn is_loopback(&self) -> (loopback: bool)
        ensures
            loopback == self.loopback(),
            *self matches Ip::V4(first, _, _, _) ==> loopback == (first == 127),
            *self matches Ip::V6(bits) ==> loopback == (bits == 1),
    {
        match self {
            Ip::V4(first, _, _, _) => *first == 127,
            Ip::V6(bits) => *bits == 1,
        }
    }
}

/// What an address contributes to the identity of an instance.
#[derive(Debug, PartialEq, Eq, Structural, Clone, Copy)]
pub enum InstancePart {
    /// The host, where it is another.
    Ip(Ip),
    /// The port, on the own host.
    Port(u16),
}

/// What `address` contributes to the identity of an instance.
pub open spec fn instance_part(address: Address) -> InstancePart {
    if address.ip.loopback() {
        InstancePart::Port(address.port)
    } else {
        InstancePart::Ip(address.ip)
    }
}

/// What the identity of an instance is made from: all processes that are given the same addresses
/// agree on it.
pub fn instance_parts(addresses: &Vec<Address>) -> (parts: Vec<InstancePart>)
    ensures
        parts@ == addresses@.map_values(|address: Address| instance_part(address)),
        parts@.len() == addresses@.len(),
        forall|i: int|
            0 <= i < addresses@.len() ==> #[trigger] parts@[i] == (if addresses@[i].ip.loopback() {
                InstancePart::Port(addresses@[i].port)
            } else {
                InstancePart::Ip(addresses@[i].ip)
            }),
{
    let mut parts: Vec<InstancePart> = Vec::new();
    let mut i: usize = 0;
    while i < addresses.len()
        invariant
            i <= addresses@.len(),
            parts@ == addresses@.take(i as int).map_values(
                |address: Address| instance_part(address),
            ),
        decreases addresses@.len() - i,
    {
        let address = addresses[i];
        if !address.ip.is_loopback() {
            parts.push(InstancePart::Ip(address.ip));
        } else {
            parts.push(InstancePart::Port(address.port));
        }
        i = i + 1;
        assert(parts@ =~= addresses@.take(i as int).map_values(
            |address: Address| instance_part(address),
        ));
    }
    assert(addresses@.take(i as int) =~= addresses@);
    parts
}

/// How a process is reached.
#[derive(Debug, PartialEq, Eq, Structural)]
pub enum ProcessConnection<IPC, Connection> {
    /// It is this process.
    LocalProcess,
    /// Through shared memory.
    IPC(IPC),
    /// Over the network.
    Network(Connection),
}

/// How each process is reached: one on this host by the port at which it listens, another by its
/// address.
pub type Kind = ProcessConnection<u16, Address>;

/// How process `my_index` reaches process `i`, where `ipc` tells whether shared memory is used.
pub open spec fn kind_of(addresses: Seq<Address>, my_index: int, ipc: bool, i: int) -> Kind {
    if i == my_index {
        ProcessConnection::LocalProcess
    } else if ipc && addresses[i].ip.loopback() {
        ProcessConnection::IPC(addresses[i].port)
    } else {
        ProcessConnection::Network(addresses[i])
    }
}

/// How process `my_index` reaches each process.
pub open spec fn kinds_of(addresses: Seq<Address>, my_index: int, ipc: bool) -> Seq<Kind> {
    Seq::new(addresses.len(), |i: int| kind_of(addresses, my_index, ipc, i))
}

/// How process `my_index` reaches each process.
pub fn classify(addresses: &Vec<Address>, my_index: usize, ipc: bool) -> (kinds: Vec<Kind>)
    ensures
        kinds@ == kinds_of(addresses@, my_index as int, ipc),
        kinds@.len() == addresses@.len(),
        forall|i: int|
            0 <= i < addresses@.len() ==> match #[trigger] kinds@[i] {
                ProcessConnection::LocalProcess => i == my_index,
                ProcessConnection::IPC(port) => i != my_index && ipc
                    && addresses@[i].ip.loopback() && port == addresses@[i].port,
                ProcessConnection::Network(address) => i != my_index && !(ipc
                    && addresses@[i].ip.loopback()) && address == addresses@[i],
            },
{
    let mut kinds: Vec<Kind> = Vec::new();
    let mut i: usize = 0;
    while i < addresses.len()
        invariant
            i <= addresses@.len(),
            kinds@ == kinds_of(addresses@, my_index as int, ipc).take(i as int),
        decreases addresses@.len() - i,
    {
        let address = addresses[i];
        let kind: Kind = if i == my_index {
            ProcessConnection::LocalProcess
        } else if ipc && address.ip.is_loopback() {
            ProcessConnection::IPC(address.port)
        } else {
            ProcessConnection::Network(address)
        };
        kinds.push(kind);
        i = i + 1;
        assert(kinds@ =~= kinds_of(addresses@, my_index as int, ipc).take(i as int));
    }
    assert(kinds@ =~= kinds_of(addresses@, my_index as int, ipc));
    kinds
}

/// The own host has the addresses that begin with 127, and the address ::1.
pub proof fn law_own_host(a: u8, b: u8, c: u8, d: u8, bits: u128)
    ensures
        Ip::V4(a, b, c, d).loopback() <==> a == 127,
        Ip::V6(bits).loopback() <==> bits == 1,
{
}

/// An address on the own host adds its port to the identity of an instance, and another its host: two
/// addresses add the same exactly if they are on the own host and have the same port, or are on the
/// same other host.
pub proof fn law_instance_parts(a: Address, b: Address)
    ensures
        a.ip.loopback() ==> instance_part(a) == InstancePart::Port(a.port),
        !a.ip.loopback() ==> instance_part(a) == InstancePart::Ip(a.ip),
        instance_part(a) == instance_part(b) <==> (a.ip.loopback() && b.ip.loopback() && a.port
            == b.port) || (!a.ip.loopback() && !b.ip.loopback() && a.ip == b.ip),
{
}

/// A process is local to itself. It reaches a process on this host through shared memory, where this
/// is used, by the port at which that process listens, and every other process over the network, at
/// its address.
pub proof fn law_how_processes_are_reached(
    addresses: Seq<Address>,
    my_index: int,
    ipc: bool,
    i: int,
)
    requires
        0 <= i < addresses.len(),
    ensures
        kinds_of(addresses, my_index, ipc).len() == addresses.len(),
        match kinds_of(addresses, my_index, ipc)[i] {
            ProcessConnection::LocalProcess => i == my_index,
            ProcessConnection::IPC(port) => {
                &&& i != my_index
                &&& ipc
                &&& addresses[i].ip.loopback()
                &&& port == addresses[i].port
            },
            ProcessConnection::Network(address) => {
                &&& i != my_index
                &&& !(ipc && addresses[i].ip.loopback())
                &&& address == addresses[i]
            },
        },
{
}

/// The first `n` processes that are reached over the network, in order.
pub open spec fn networked(kinds: Seq<Kind>, n: int) -> Seq<usize>
    decreases n,
{
    if n <= 0 {
        Seq::empty()
    } else if kinds[n - 1] is Network {
        networked(kinds, n - 1).push((n - 1) as usize)
    } else {
        networked(kinds, n - 1)
    }
}

/// The first `n` processes that are reached through shared memory, with their ports, in order.
pub open spec fn on_host(kinds: Seq<Kind>, n: int) -> Seq<(usize, u16)>
    decreases n,
{
    if n <= 0 {
        Seq::empty()
    } else {
        match kinds[n - 1] {
            ProcessConnection::IPC(port) => on_host(kinds, n - 1).push(((n - 1) as usize, port)),
            _ => on_host(kinds, n - 1),
        }
    }
}

/// By what another process is reached.
#[derive(Debug, PartialEq, Eq, Structural, Clone, Copy)]
pub enum Route {
    /// Through the service with this number among those of the other processes on this host.
    IPC {
        /// The number of the service.
        service: usize,
    },
    /// Over the connection with this number among those that the network driver provides.
    Network {
        /// The number of the connection.
        connection: usize,
        /// The number of the queues into which the process receives from it.
        inlet: usize,
    },
}

/// How another process is wired up.
#[derive(Debug, PartialEq, Eq, Structural, Clone, Copy)]
pub struct Link {
    /// The index of the process.
    pub process: usize,
    /// The number of the queues from which this process sends to it.
    pub outlet: usize,
    /// By what it is reached.
    pub route: Route,
}

/// One where shared memory is used, for the receiver that all processes on this host share.
pub open spec fn inbox_inlets(kinds: Seq<Kind>) -> nat {
    if on_host(kinds, kinds.len() as int).len() > 0 {
        1
    } else {
        0
    }
}

/// How process `process` is wired up.
pub open spec fn link_of(kinds: Seq<Kind>, my_index: int, process: int) -> Link {
    Link {
        process: process as usize,
        outlet: (if process < my_index {
            process
        } else {
            process - 1
        }) as usize,
        route: if kinds[process] is IPC {
            Route::IPC { service: on_host(kinds, process).len() as usize }
        } else {
            Route::Network {
                connection: networked(kinds, process).len() as usize,
                inlet: (inbox_inlets(kinds) + networked(kinds, process).len()) as usize,
            }
        },
    }
}

/// How the first `n` processes but this one are wired up.
pub open spec fn links_of(kinds: Seq<Kind>, my_index: int, n: int) -> Seq<Link>
    decreases n,
{
    if n <= 0 {
        Seq::empty()
    } else if n - 1 == my_index {
        links_of(kinds, my_index, n - 1)
    } else {
        links_of(kinds, my_index, n - 1).push(link_of(kinds, my_index, n - 1))
    }
}

/// The number of queues into which process `my_index` receives: one for each other process, but a
/// single one for all processes on this host.
pub open spec fn inlets_of(kinds: Seq<Kind>) -> int {
    let ipc = on_host(kinds, kinds.len() as int).len();
    kinds.len() - 1 - (if ipc == 0 {
        0
    } else {
        ipc - 1
    })
}

/// How a process sets up its connections.
pub struct Plan {
    /// The index of this process.
    pub my_index: usize,
    /// The number of processes.
    pub processes: usize,
    /// The processes that accept a connection from this process.
    pub accepting: Vec<usize>,
    /// The processes that connect to this process.
    pub connecting: Vec<usize>,
    /// The other processes that are reached through shared memory, and their ports.
    pub other_ipc_processes: Vec<(usize, u16)>,
    /// How each other process is wired up.
    pub links: Vec<Link>,
    /// The number of queues from which this process sends, for each worker.
    pub outlets: usize,
    /// The number of queues into which this process receives, for each worker.
    pub inlets: usize,
}

impl Plan {
    /// Whether the plan is that of process `my_index`, which reaches the processes as `kinds` say.
    pub open spec fn is_for(self, kinds: Seq<Kind>, my_index: int) -> bool {
        let n = kinds.len() as int;
        &&& self.my_index == my_index
        &&& self.processes == n
        &&& self.accepting@ == networked(kinds, my_index)
        &&& self.accepting@ + self.connecting@ == networked(kinds, n)
        &&& self.other_ipc_processes@ == on_host(kinds, n)
        &&& self.links@ == links_of(kinds, my_index, n)
        &&& self.outlets == n - 1
        &&& self.inlets == inlets_of(kinds)
    }
}

/// There are no more connections than processes.
proof fn lemma_counts(kinds: Seq<Kind>, n: int)
    requires
        0 <= n <= kinds.len(),
    ensures
        networked(kinds, n).len() + on_host(kinds, n).len() <= n,
    decreases n,
{
    if n > 0 {
        lemma_counts(kinds, n - 1);
    }
}

/// How process `my_index` sets up its connections to the processes at `addresses`, where
/// `enable_ipc` asks for shared memory and `shared_memory` tells whether it can be had.
pub fn connect(
    addresses: &Vec<Address>,
    my_index: usize,
    enable_ipc: bool,
    shared_memory: bool,
) -> (plan: Plan)
    requires
        my_index < addresses@.len(),
    ensures
        plan.is_for(
            kinds_of(addresses@, my_index as int, enable_ipc && shared_memory),
            my_index as int,
        ),
{
    let kinds = classify(addresses, my_index, shared_memory && enable_ipc);
    let processes = kinds.len();
    let mut other_ipc_processes: Vec<(usize, u16)> = Vec::new();
    let mut i: usize = 0;
    while i < processes
        invariant
            i <= processes,
            processes == kinds@.len(),
            other_ipc_processes@ == on_host(kinds@, i as int),
        decreases processes - i,
    {
        if let ProcessConnection::IPC(port) = kinds[i] {
            other_ipc_processes.push((i, port));
        }
        i = i + 1;
    }
    // One receiver is enough for all other processes on this host.
    let ipc = other_ipc_processes.len();
    let saved_inlets: usize = if ipc == 0 {
        0
    } else {
        ipc - 1
    };
    let inbox: usize = if ipc == 0 {
        0
    } else {
        1
    };
    let mut accepting: Vec<usize> = Vec::new();
    let mut connecting: Vec<usize> = Vec::new();
    let mut links: Vec<Link> = Vec::new();
    let mut services: usize = 0;
    let mut connections: usize = 0;
    let mut i: usize = 0;
    while i < processes
        invariant
            i <= processes,
            processes == kinds@.len(),
            my_index < processes,
            kinds@ == kinds_of(addresses@, my_index as int, enable_ipc && shared_memory),
            inbox == inbox_inlets(kinds@),
            services == on_host(kinds@, i as int).len(),
            connections == networked(kinds@, i as int).len(),
            accepting@ == networked(
                kinds@,
                if i < my_index {
                    i as int
                } else {
                    my_index as int
                },
            ),
            i <= my_index ==> connecting@.len() == 0,
            accepting@ + connecting@ == networked(kinds@, i as int),
            links@ == links_of(kinds@, my_index as int, i as int),
        decreases processes - i,
    {
        proof {
            lemma_counts(kinds@, i as int);
        }
        assert(kinds@[i as int] == kind_of(
            addresses@,
            my_index as int,
            enable_ipc && shared_memory,
            i as int,
        ));
        let ghost before = networked(kinds@, i as int);
        match kinds[i] {
            ProcessConnection::LocalProcess => {},
            ProcessConnection::IPC(_) => {
                links.push(
                    Link {
                        process: i,
                        outlet: if i < my_index {
                            i
                        } else {
                            i - 1
                        },
                        route: Route::IPC { service: services },
                    },
                );
                services = services + 1;
            },
            ProcessConnection::Network(_) => {
                if i < my_index {
                    accepting.push(i);
                    assert(accepting@ + connecting@ =~= before.push(i));
                } else {
                    connecting.push(i);
                    assert(accepting@ + connecting@ =~= before.push(i));
                }
                links.push(
                    Link {
                        process: i,
                        outlet: if i < my_index {
                            i
                        } else {
                            i - 1
                        },
                        route: Route::Network { connection: connections, inlet: inbox + connections },
                    },
                );
                connections = connections + 1;
            },
        }
        i = i + 1;
    }
    proof {
        lemma_counts(kinds@, processes as int);
        lemma_local_is_neither(kinds@, my_index as int, processes as int);
    }
    Plan {
        my_index,
        processes,
        accepting,
        connecting,
        other_ipc_processes,
        links,
        outlets: processes - 1,
        inlets: processes - 1 - saved_inlets,
    }
}

/// Every process but this one is reached over the network or through shared memory.
proof fn lemma_local_is_neither(kinds: Seq<Kind>, my_index: int, n: int)
    requires
        0 <= n <= kinds.len(),
        0 <= my_index < kinds.len(),
        forall|i: int|
            0 <= i < kinds.len() ==> (#[trigger] kinds[i] is LocalProcess <==> i == my_index),
    ensures
        networked(kinds, n).len() + on_host(kinds, n).len() == n - (if my_index < n {
            1int
        } else {
            0int
        }),
    decreases n,
{
    if n > 0 {
        lemma_local_is_neither(kinds, my_index, n - 1);
        assert(kinds[n - 1] is LocalProcess <==> n - 1 == my_index);
    }
}

/// Whether `kinds` is how process `my_index` may reach the processes: it is local to itself alone.
pub open spec fn valid_kinds(kinds: Seq<Kind>, my_index: int) -> bool {
    &&& 0 <= my_index < kinds.len() <= usize::MAX
    &&& forall|i: int|
        0 <= i < kinds.len() ==> (#[trigger] kinds[i] is LocalProcess <==> i == my_index)
}

/// However the processes are reached, this process is local to itself alone.
pub proof fn law_kinds_are_valid(addresses: Seq<Address>, my_index: int, ipc: bool)
    requires
        0 <= my_index < addresses.len() <= usize::MAX,
    ensures
        valid_kinds(kinds_of(addresses, my_index, ipc), my_index),
{
}

/// There is one link for each other process, in order, and the number of its outlet is its own:
/// every outlet serves one process.
pub proof fn law_outlets_used_once(kinds: Seq<Kind>, my_index: int)
    requires
        valid_kinds(kinds, my_index),
    ensures
        ({
            let links = links_of(kinds, my_index, kinds.len() as int);
            &&& links.len() == kinds.len() - 1
            &&& forall|k: int|
                0 <= k < links.len() ==> {
                    &&& (#[trigger] links[k]).outlet == k
                    &&& links[k].process == (if k < my_index {
                        k
                    } else {
                        k + 1
                    })
                }
        }),
{
    lemma_links(kinds, my_index, kinds.len() as int);
}

/// The link of each process, at its place.
proof fn lemma_links(kinds: Seq<Kind>, my_index: int, n: int)
    requires
        valid_kinds(kinds, my_index),
        0 <= n <= kinds.len(),
    ensures
        links_of(kinds, my_index, n).len() == n - (if my_index < n {
            1int
        } else {
            0int
        }),
        forall|k: int|
            0 <= k < links_of(kinds, my_index, n).len() ==> #[trigger] links_of(
                kinds,
                my_index,
                n,
            )[k] == link_of(
                kinds,
                my_index,
                if k < my_index {
                    k
                } else {
                    k + 1
                },
            ),
    decreases n,
{
    if n > 0 {
        lemma_links(kinds, my_index, n - 1);
    }
}

/// The connection that process `i` is wired to is that with process `i`: it comes from those that
/// this process establishes where `i` is before it, and from those that it accepts where `i` is
/// behind it.
pub proof fn law_connections_match_processes(kinds: Seq<Kind>, my_index: int, i: int)
    requires
        valid_kinds(kinds, my_index),
        0 <= i < kinds.len(),
        kinds[i] is Network,
    ensures
        ({
            let connection = networked(kinds, i).len() as int;
            let accepting = networked(kinds, my_index).len();
            &&& connection < networked(kinds, kinds.len() as int).len()
            &&& networked(kinds, kinds.len() as int)[connection] == i
            &&& connection < accepting <==> i < my_index
        }),
{
    let n = kinds.len() as int;
    lemma_networked_prefix(kinds, i + 1, n);
    assert(networked(kinds, i + 1)[networked(kinds, i).len() as int] == i);
    if i < my_index {
        lemma_networked_prefix(kinds, i + 1, my_index);
    } else {
        assert(kinds[my_index] is LocalProcess);
        lemma_networked_prefix(kinds, my_index, i);
    }
}

/// Later processes come behind earlier ones.
proof fn lemma_networked_prefix(kinds: Seq<Kind>, a: int, b: int)
    requires
        0 <= a <= b <= kinds.len(),
    ensures
        networked(kinds, a).len() <= networked(kinds, b).len(),
        forall|k: int|
            0 <= k < networked(kinds, a).len() ==> #[trigger] networked(kinds, a)[k] == networked(
                kinds,
                b,
            )[k],
    decreases b,
{
    if a < b {
        lemma_networked_prefix(kinds, a, b - 1);
    }
}

/// The service that process `i` is wired to is that of process `i`.
pub proof fn law_services_match_processes(kinds: Seq<Kind>, my_index: int, i: int)
    requires
        valid_kinds(kinds, my_index),
        0 <= i < kinds.len(),
        kinds[i] is IPC,
    ensures
        on_host(kinds, i).len() < on_host(kinds, kinds.len() as int).len(),
        on_host(kinds, kinds.len() as int)[on_host(kinds, i).len() as int] == (
            i as usize,
            kinds[i]->IPC_0,
        ),
{
    lemma_on_host_prefix(kinds, i + 1, kinds.len() as int);
    assert(on_host(kinds, i + 1)[on_host(kinds, i).len() as int] == (i as usize, kinds[i]->IPC_0));
}

/// Later processes come behind earlier ones.
proof fn lemma_on_host_prefix(kinds: Seq<Kind>, a: int, b: int)
    requires
        0 <= a <= b <= kinds.len(),
    ensures
        on_host(kinds, a).len() <= on_host(kinds, b).len(),
        forall|k: int|
            0 <= k < on_host(kinds, a).len() ==> #[trigger] on_host(kinds, a)[k] == on_host(
                kinds,
                b,
            )[k],
    decreases b,
{
    if a < b {
        lemma_on_host_prefix(kinds, a, b - 1);
    }
}

/// The inlets are shared out: the first goes to the inbox where shared memory is used, the others
/// one to each process that is reached over the network, and none is left over.
pub proof fn law_inlets_used_once(kinds: Seq<Kind>, my_index: int)
    requires
        valid_kinds(kinds, my_index),
    ensures
        inbox_inlets(kinds) + networked(kinds, kinds.len() as int).len() == inlets_of(kinds),
        forall|i: int|
            0 <= i < kinds.len() && kinds[i] is Network ==> inbox_inlets(kinds) <= inbox_inlets(
                kinds,
            ) + #[trigger] networked(kinds, i).len() < inlets_of(kinds),
        forall|i: int, j: int|
            0 <= i < j < kinds.len() && kinds[i] is Network && kinds[j] is Network
                ==> #[trigger] networked(kinds, i).len() != #[trigger] networked(kinds, j).len(),
{
    let n = kinds.len() as int;
    lemma_local_is_neither(kinds, my_index, n);
    assert forall|i: int| 0 <= i < kinds.len() && kinds[i] is Network implies inbox_inlets(kinds)
        <= inbox_inlets(kinds) + #[trigger] networked(kinds, i).len() < inlets_of(kinds) by {
        lemma_networked_prefix(kinds, i + 1, n);
    }
    assert forall|i: int, j: int|
        0 <= i < j < kinds.len() && kinds[i] is Network
            && kinds[j] is Network implies #[trigger] networked(kinds, i).len()
        != #[trigger] networked(kinds, j).len() by {
        lemma_networked_prefix(kinds, i + 1, j);
    }
}

/// The list holds exactly the processes that are reached over the network.
proof fn lemma_networked_contains(kinds: Seq<Kind>, n: int, i: int)
    requires
        0 <= n <= kinds.len() <= usize::MAX,
        0 <= i < kinds.len(),
    ensures
        networked(kinds, n).contains(i as usize) <==> i < n && kinds[i] is Network,
    decreases n,
{
    if n > 0 {
        lemma_networked_contains(kinds, n - 1, i);
        let (before, all) = (networked(kinds, n - 1), networked(kinds, n));
        if all.contains(i as usize) {
            let k = choose|k: int| 0 <= k < all.len() && all[k] == i as usize;
            if k < before.len() {
                assert(before[k] == i as usize);
            }
        }
        if before.contains(i as usize) {
            let k = choose|k: int| 0 <= k < before.len() && before[k] == i as usize;
            assert(all[k] == i as usize);
        }
        if i == n - 1 && kinds[i] is Network {
            assert(all[all.len() - 1] == i as usize);
        }
    }
}

/// The processes among `all` behind position `from`.
pub open spec fn behind(all: Seq<usize>, from: nat) -> Seq<usize> {
    all.skip(from as int)
}

/// Of two processes that reach each other over the network the later one establishes the
/// connection and the earlier one waits for it: there is one connection between them. Processes
/// that are both at a loopback address, or neither, agree on how they reach each other.
pub proof fn law_one_connection_per_pair(addresses: Seq<Address>, ipc: bool, i: int, j: int)
    requires
        0 <= i < j < addresses.len() <= usize::MAX,
        ipc ==> addresses[i].ip.loopback() == addresses[j].ip.loopback(),
    ensures
        ({
            let (first, second) = (kinds_of(addresses, i, ipc), kinds_of(addresses, j, ipc));
            let n = addresses.len() as int;
            &&& first[j] is Network <==> second[i] is Network
            &&& first[j] is IPC <==> second[i] is IPC
            // The later process connects to the earlier one, if over the network at all.
            &&& networked(second, j).contains(i as usize) <==> second[i] is Network
            // The earlier process waits for the later one, and does not connect to it.
            &&& behind(networked(first, n), networked(first, i).len()).contains(j as usize)
                <==> first[j] is Network
            &&& !networked(first, i).contains(j as usize)
            &&& !behind(networked(second, n), networked(second, j).len()).contains(i as usize)
        }),
{
    let (first, second) = (kinds_of(addresses, i, ipc), kinds_of(addresses, j, ipc));
    let n = addresses.len() as int;
    lemma_networked_contains(second, j, i);
    lemma_networked_contains(first, i, j);
    lemma_behind(first, i, j);
    lemma_behind(second, j, i);
}

/// The processes behind those before `my_index` are those from `my_index` on.
proof fn lemma_behind(kinds: Seq<Kind>, my_index: int, i: int)
    requires
        0 <= my_index < kinds.len() <= usize::MAX,
        0 <= i < kinds.len(),
    ensures
        behind(networked(kinds, kinds.len() as int), networked(kinds, my_index).len()).contains(
            i as usize,
        ) <==> i >= my_index && kinds[i] is Network,
{
    let n = kinds.len() as int;
    let (all, before) = (networked(kinds, n), networked(kinds, my_index));
    let later = behind(all, before.len());
    lemma_networked_prefix(kinds, my_index, n);
    lemma_networked_contains(kinds, n, i);
    if later.contains(i as usize) {
        let k = choose|k: int| 0 <= k < later.len() && later[k] == i as usize;
        assert(all[k + before.len()] == i as usize);
        lemma_networked_sorted(kinds, n);
        if i < my_index {
            lemma_networked_contains(kinds, my_index, i);
            let m = choose|m: int| 0 <= m < before.len() && before[m] == i as usize;
            assert(all[m] == i as usize);
        }
    }
    if i >= my_index && kinds[i] is Network {
        let k = choose|k: int| 0 <= k < all.len() && all[k] == i as usize;
        if k < before.len() {
            assert(before[k] == i as usize);
            lemma_networked_contains(kinds, my_index, i);
        } else {
            assert(later[k - before.len()] == i as usize);
        }
    }
}

/// The list is in the order of the processes.
proof fn lemma_networked_sorted(kinds: Seq<Kind>, n: int)
    requires
        0 <= n <= kinds.len() <= usize::MAX,
    ensures
        forall|a: int| 0 <= a < networked(kinds, n).len() ==> #[trigger] networked(kinds, n)[a] < n,
        forall|a: int, b: int|
            0 <= a < b < networked(kinds, n).len() ==> #[trigger] networked(kinds, n)[a]
                < #[trigger] networked(kinds, n)[b],
    decreases n,
{
    if n > 0 {
        lemma_networked_sorted(kinds, n - 1);
        let (before, all) = (networked(kinds, n - 1), networked(kinds, n));
        assert forall|a: int| 0 <= a < all.len() implies #[trigger] all[a] < n by {
            if a < before.len() {
                assert(all[a] == before[a]);
            }
        }
        assert forall|a: int, b: int| 0 <= a < b < all.len() implies #[trigger] all[a]
            < #[trigger] all[b] by {
            assert(all[a] == before[a]);
            if b < before.len() {
                assert(all[b] == before[b]);
            }
        }
    }
}

impl Plan {
    /// Whether this process creates the assembly of the processes on this host: the one with the
    /// lowest index does.
    pub fn creates_assembly(&self) -> (creates: bool)
        requires
            self.other_ipc_processes@.len() > 0,
        ensures
            creates == (self.my_index < self.other_ipc_processes@[0].0),
    {
        self.my_index < self.other_ipc_processes[0].0
    }

    /// The seats of the assembly: those of the other processes on this host, then the own.
    pub fn assembly_seats(&self) -> (seats: Vec<usize>)
        ensures
            seats@ == self.other_ipc_processes@.map_values(|p: (usize, u16)| p.0).push(
                self.my_index,
            ),
    {
        let mut seats = self.other_seats();
        seats.push(self.my_index);
        seats
    }

    /// The order in which this process waits until the processes on this host can receive: first
    /// for itself, then for the others.
    pub fn readiness_order(&self) -> (order: Vec<usize>)
        ensures
            order@ == seq![self.my_index] + self.other_ipc_processes@.map_values(
                |p: (usize, u16)| p.0,
            ),
    {
        let mut order: Vec<usize> = Vec::new();
        order.push(self.my_index);
        let mut others = self.other_seats();
        order.append(&mut others);
        assert(order@ =~= seq![self.my_index] + self.other_ipc_processes@.map_values(
            |p: (usize, u16)| p.0,
        ));
        order
    }

    /// The seats of the other processes on this host.
    fn other_seats(&self) -> (seats: Vec<usize>)
        ensures
            seats@ == self.other_ipc_processes@.map_values(|p: (usize, u16)| p.0),
    {
        let mut seats: Vec<usize> = Vec::new();
        let mut i: usize = 0;
        while i < self.other_ipc_processes.len()
            invariant
                i <= self.other_ipc_processes@.len(),
                seats@ == self.other_ipc_processes@.take(i as int).map_values(
                    |p: (usize, u16)| p.0,
                ),
            decreases self.other_ipc_processes@.len() - i,
        {
            seats.push(self.other_ipc_processes[i].0);
            i = i + 1;
            assert(seats@ =~= self.other_ipc_processes@.take(i as int).map_values(
                |p: (usize, u16)| p.0,
            ));
        }
        assert(self.other_ipc_processes@.take(i as int) =~= self.other_ipc_processes@);
        seats
    }

    /// What the threads of the connection to process `remote` know of it.
    pub fn info(&self, remote: usize, threads: usize) -> (info: ConnectionInfo)
        ensures
            info == (ConnectionInfo {
                local_process: self.my_index,
                remote_process: remote,
                total_processes: self.processes,
                threads_per_process: threads,
            }),
    {
        ConnectionInfo {
            local_process: self.my_index,
            remote_process: remote,
            total_processes: self.processes,
            threads_per_process: threads,
        }
    }
}

/// The first process in the list is the first that is reached through shared memory.
proof fn lemma_on_host_first(kinds: Seq<Kind>, n: int)
    requires
        0 <= n <= kinds.len() <= usize::MAX,
    ensures
        on_host(kinds, n).len() > 0 ==> {
            let first = on_host(kinds, n)[0].0 as int;
            &&& first < n
            &&& kinds[first] is IPC
            &&& forall|i: int| 0 <= i < first ==> !(#[trigger] kinds[i] is IPC)
        },
        on_host(kinds, n).len() == 0 ==> forall|i: int|
            0 <= i < n ==> !(#[trigger] kinds[i] is IPC),
    decreases n,
{
    if n > 0 {
        lemma_on_host_first(kinds, n - 1);
    }
}

/// Of the processes at loopback addresses the one with the lowest index creates the assembly, and
/// no other does.
pub proof fn law_one_assembly_creator(addresses: Seq<Address>, my_index: int)
    requires
        0 <= my_index < addresses.len() <= usize::MAX,
        addresses[my_index].ip.loopback(),
    ensures
        ({
            let others = on_host(kinds_of(addresses, my_index, true), addresses.len() as int);
            others.len() > 0 ==> (my_index < others[0].0 <==> forall|i: int|
                0 <= i < addresses.len() && (#[trigger] addresses[i]).ip.loopback() ==> my_index
                    <= i)
        }),
{
    let kinds = kinds_of(addresses, my_index, true);
    let others = on_host(kinds, addresses.len() as int);
    lemma_on_host_first(kinds, addresses.len() as int);
    if others.len() > 0 {
        let first = others[0].0 as int;
        assert(addresses[first].ip.loopback());
        assert forall|i: int|
            my_index < first && 0 <= i < addresses.len() && (
            #[trigger] addresses[i]).ip.loopback() implies my_index <= i by {
            assert(i < first ==> !(kinds[i] is IPC));
        }
    }
}

/// Process connection tuple
#[derive(Debug, PartialEq, Eq, Structural, Clone, Copy)]
pub struct ConnectionInfo {
    /// Local process index in list of all processes
    pub local_process: usize,
    /// Remote process index in list of all processes
    pub remote_process: usize,
    /// Length of process list
    pub total_processes: usize,
    /// Number of worker threads running in each process
    pub threads_per_process: usize,
}

impl ConnectionInfo {
    /// The index of the first worker of the local process among the workers of all processes.
    pub fn first_worker(&self) -> (worker: usize)
        requires
            self.local_process * self.threads_per_process <= usize::MAX,
        ensures
            worker == self.local_process * self.threads_per_process,
    {
        self.local_process * self.threads_per_process
    }
}

/// Different processes have different workers.
pub proof fn law_workers_of_processes_differ(p: nat, q: nat, threads: nat, worker: int)
    requires
        p * threads <= worker < p * threads + threads,
        q * threads <= worker < q * threads + threads,
    ensures
        p == q,
{
    assert(p <= q) by (nonlinear_arith)
        requires
            p * threads <= worker,
            worker < q * threads + threads,
    ;
    assert(q <= p) by (nonlinear_arith)
        requires
            q * threads <= worker,
            worker < p * threads + threads,
    ;
}

/// The limits of the inbox service of a process.
#[derive(Debug, PartialEq, Eq, Structural, Clone, Copy)]
pub struct InboxLimits {
    /// Samples that wait for the subscriber.
    pub subscriber_max_buffer_size: usize,
    /// Samples that the subscriber holds at a time.
    pub subscriber_max_borrowed_samples: usize,
    /// Processes that take part.
    pub max_nodes: usize,
    /// Processes that receive.
    pub max_subscribers: usize,
    /// Processes that send.
    pub max_publishers: usize,
    /// Samples that are kept for a subscriber that comes late.
    pub history_size: usize,
}

/// The limits of the inbox service of each of `ipc_processes` processes on a host: it is the one
/// that receives, and all others send.
pub fn inbox_limits(ipc_processes: usize) -> (limits: InboxLimits)
    requires
        ipc_processes > 0,
    ensures
        limits == (InboxLimits {
            subscriber_max_buffer_size: 100,
            subscriber_max_borrowed_samples: 50,
            max_nodes: ipc_processes,
            max_subscribers: 1,
            max_publishers: (ipc_processes - 1) as usize,
            history_size: 0,
        }),
{
    InboxLimits {
        subscriber_max_buffer_size: 100,
        subscriber_max_borrowed_samples: 50,
        max_nodes: ipc_processes,
        max_subscribers: 1,
        max_publishers: ipc_processes - 1,
        history_size: 0,
    }
}

/// The limits of the bell service of a process.
#[derive(Debug, PartialEq, Eq, Structural, Clone, Copy)]
pub struct BellLimits {
    /// Processes that take part.
    pub max_nodes: usize,
    /// Listeners that can be attached.
    pub max_listeners: usize,
}

/// The limits of the bell service of each of `ipc_processes` processes on a host.
pub fn bell_limits(ipc_processes: usize) -> (limits: BellLimits)
    requires
        ipc_processes > 0,
    ensures
        limits == (BellLimits {
            max_nodes: ipc_processes,
            max_listeners: (ipc_processes - 1) as usize,
        }),
{
    BellLimits { max_nodes: ipc_processes, max_listeners: ipc_processes - 1 }
}

/// The connections that this process establishes to the processes before it, followed by those
/// that it has kept from the processes behind it, are those that the links ask for: the link of a
/// process gets the connection with this very process, in whatever order the connections come in,
/// and whichever other processes are reached through shared memory.
pub proof fn law_links_get_their_connections<T>(
    kinds: Seq<Kind>,
    my_index: int,
    started: Seq<T>,
    arrivals: Seq<(usize, T)>,
)
    requires
        valid_kinds(kinds, my_index),
        started.len() == networked(kinds, my_index).len(),
        each_arrives_once(behind(networked(kinds, kinds.len() as int), started.len()), arrivals),
    ensures
        ({
            let expected = behind(networked(kinds, kinds.len() as int), started.len());
            let slots = fill(no_connections::<T>(expected), expected, arrivals);
            let connections = started + present(slots).map_values(|c: (usize, T)| c.1);
            &&& connections.len() == networked(kinds, kinds.len() as int).len()
            &&& forall|i: int|
                0 <= i < my_index && #[trigger] kinds[i] is Network
                    ==> connections[networked(kinds, i).len() as int] == started[networked(
                    kinds,
                    i,
                ).len() as int] && networked(kinds, my_index)[networked(kinds, i).len() as int]
                    == i
            &&& forall|a: int|
                0 <= a < arrivals.len() ==> {
                    let i = (#[trigger] arrivals[a]).0 as int;
                    &&& my_index < i < kinds.len()
                    &&& kinds[i] is Network
                    &&& connections[networked(kinds, i).len() as int] == arrivals[a].1
                }
        }),
{
    let n = kinds.len() as int;
    let all = networked(kinds, n);
    lemma_networked_prefix(kinds, my_index, n);
    lemma_networked_sorted(kinds, n);
    lemma_counts(kinds, n);
    let expected = behind(all, started.len());
    assert(expected.len() == all.len() - started.len());
    law_arrival_order_is_irrelevant(expected, arrivals);
    let slots = fill(no_connections::<T>(expected), expected, arrivals);
    let accepted = present(slots).map_values(|c: (usize, T)| c.1);
    let connections = started + accepted;
    assert forall|i: int| 0 <= i < my_index && #[trigger] kinds[i] is Network implies connections[
        networked(kinds, i).len() as int] == started[networked(kinds, i).len() as int]
        && networked(kinds, my_index)[networked(kinds, i).len() as int] == i by {
        lemma_networked_prefix(kinds, i + 1, my_index);
        assert(networked(kinds, i + 1)[networked(kinds, i).len() as int] == i);
    }
    assert forall|a: int| 0 <= a < arrivals.len() implies {
        let i = (#[trigger] arrivals[a]).0 as int;
        &&& my_index < i < kinds.len()
        &&& kinds[i] is Network
        &&& connections[networked(kinds, i).len() as int] == arrivals[a].1
    } by {
        let i = arrivals[a].0 as int;
        assert(expected.contains(arrivals[a].0));
        let k = choose|k: int| 0 <= k < expected.len() && expected[k] == arrivals[a].0;
        assert(arrivals[a].0 == expected[k]);
        assert(all[started.len() + k] == i);
        lemma_behind(kinds, my_index, i);
        assert(kinds[my_index] is LocalProcess);
        law_connections_match_processes(kinds, my_index, i);
        let c = networked(kinds, i).len() as int;
        assert(all[c] == i);
        assert(c == started.len() + k);
        assert(connections[c] == accepted[k]);
    }
}

/// The processes that connect to this process are named once each, so that each has its own place.
pub proof fn law_connecting_processes_differ(kinds: Seq<Kind>, my_index: int)
    requires
        valid_kinds(kinds, my_index),
    ensures
        behind(networked(kinds, kinds.len() as int), networked(kinds, my_index).len())
            .no_duplicates(),
{
    let n = kinds.len() as int;
    lemma_networked_prefix(kinds, my_index, n);
    lemma_networked_sorted(kinds, n);
    let (all, from) = (networked(kinds, n), networked(kinds, my_index).len() as int);
    let later = behind(all, from as nat);
    assert forall|a: int, b: int| 0 <= a < later.len() && 0 <= b < later.len() && a
        != b implies later[a] != later[b] by {
        assert(later[a] == all[from + a]);
        assert(later[b] == all[from + b]);
    }
}

/// The processes before this one that are reached over the network, as the addresses tell.
proof fn lemma_networked_before(addresses: Seq<Address>, my_index: int, ipc: bool, n: int)
    requires
        0 <= n <= my_index < addresses.len(),
    ensures
        networked(kinds_of(addresses, my_index, ipc), n) == Seq::new(
            n as nat,
            |i: int| i,
        ).filter_map(
            |i: int|
                if ipc && addresses[i].ip.loopback() {
                    None::<usize>
                } else {
                    Some(i as usize)
                },
        ),
    decreases n,
{
    if n > 0 {
        lemma_networked_before(addresses, my_index, ipc, n - 1);
        assert(Seq::new(n as nat, |i: int| i).drop_last() =~= Seq::new(
            (n - 1) as nat,
            |i: int| i,
        ));
    }
}

/// The processes behind this one that are reached over the network, as the addresses tell.
proof fn lemma_networked_behind(addresses: Seq<Address>, my_index: int, ipc: bool, n: int)
    requires
        0 <= my_index < n <= addresses.len(),
    ensures
        networked(kinds_of(addresses, my_index, ipc), n) == networked(
            kinds_of(addresses, my_index, ipc),
            my_index,
        ) + Seq::new((n - my_index - 1) as nat, |k: int| my_index + 1 + k).filter_map(
            |i: int|
                if ipc && addresses[i].ip.loopback() {
                    None::<usize>
                } else {
                    Some(i as usize)
                },
        ),
    decreases n,
{
    let kinds = kinds_of(addresses, my_index, ipc);
    let f = |i: int|
        if ipc && addresses[i].ip.loopback() {
            None::<usize>
        } else {
            Some(i as usize)
        };
    let later = Seq::new((n - my_index - 1) as nat, |k: int| my_index + 1 + k);
    if n == my_index + 1 {
        assert(networked(kinds, n) =~= networked(kinds, my_index) + later.filter_map(f));
    } else {
        lemma_networked_behind(addresses, my_index, ipc, n - 1);
        assert(later.drop_last() =~= Seq::new(
            (n - 1 - my_index - 1) as nat,
            |k: int| my_index + 1 + k,
        ));
        assert(later.last() == n - 1);
        assert(networked(kinds, n) =~= networked(kinds, my_index) + later.filter_map(f));
    }
}

/// The processes that are reached through shared memory, as the addresses tell.
proof fn lemma_on_host(addresses: Seq<Address>, my_index: int, ipc: bool, n: int)
    requires
        0 <= n <= addresses.len(),
    ensures
        on_host(kinds_of(addresses, my_index, ipc), n) == Seq::new(
            n as nat,
            |i: int| i,
        ).filter_map(
            |i: int|
                if i != my_index && ipc && addresses[i].ip.loopback() {
                    Some((i as usize, addresses[i].port))
                } else {
                    None
                },
        ),
    decreases n,
{
    if n > 0 {
        lemma_on_host(addresses, my_index, ipc, n - 1);
        assert(Seq::new(n as nat, |i: int| i).drop_last() =~= Seq::new(
            (n - 1) as nat,
            |i: int| i,
        ));
    }
}

/// The other processes are told apart by their addresses alone. Those on this host are reached through
/// shared memory where this is used, each by the port of its own address; of all others this process
/// connects to those before it and waits for those behind it. All lists are in the order of the
/// processes.
pub proof fn law_plan_follows_addresses(
    addresses: Seq<Address>,
    my_index: int,
    ipc: bool,
    plan: Plan,
)
    requires
        0 <= my_index < addresses.len() <= usize::MAX,
        plan.is_for(kinds_of(addresses, my_index, ipc), my_index),
    ensures
        plan.my_index == my_index,
        plan.processes == addresses.len(),
        plan.outlets == addresses.len() - 1,
        plan.inlets == plan.accepting@.len() + plan.connecting@.len() + (
        if plan.other_ipc_processes@.len() > 0 {
            1int
        } else {
            0int
        }),
        plan.accepting@ == Seq::new(my_index as nat, |i: int| i).filter_map(
            |i: int|
                if ipc && addresses[i].ip.loopback() {
                    None::<usize>
                } else {
                    Some(i as usize)
                },
        ),
        plan.connecting@ == Seq::new(
            (addresses.len() - my_index - 1) as nat,
            |k: int| my_index + 1 + k,
        ).filter_map(
            |i: int|
                if ipc && addresses[i].ip.loopback() {
                    None::<usize>
                } else {
                    Some(i as usize)
                },
        ),
        plan.other_ipc_processes@ == Seq::new(addresses.len(), |i: int| i).filter_map(
            |i: int|
                if i != my_index && ipc && addresses[i].ip.loopback() {
                    Some((i as usize, addresses[i].port))
                } else {
                    None
                },
        ),
{
    let kinds = kinds_of(addresses, my_index, ipc);
    let n = addresses.len() as int;
    lemma_networked_before(addresses, my_index, ipc, my_index);
    lemma_networked_behind(addresses, my_index, ipc, n);
    lemma_on_host(addresses, my_index, ipc, n);
    law_kinds_are_valid(addresses, my_index, ipc);
    law_inlets_used_once(kinds, my_index);
    let (before, later) = (plan.accepting@, plan.connecting@);
    assert(later =~= (before + later).skip(before.len() as int));
    let behind = Seq::new((n - my_index - 1) as nat, |k: int| my_index + 1 + k).filter_map(
        |i: int|
            if ipc && addresses[i].ip.loopback() {
                None::<usize>
            } else {
                Some(i as usize)
            },
    );
    assert(behind =~= (before + behind).skip(before.len() as int));
}

/// Each other process has one link, in order, with an outlet of its own. It leads to the service of
/// this very process, where it is reached through shared memory, and to the connection with this very
/// process otherwise, with an inlet of its own behind that of the inbox.
pub proof fn law_plan_links_each_process(
    addresses: Seq<Address>,
    my_index: int,
    ipc: bool,
    plan: Plan,
    k: int,
)
    requires
        0 <= my_index < addresses.len() <= usize::MAX,
        plan.is_for(kinds_of(addresses, my_index, ipc), my_index),
        0 <= k < addresses.len() - 1,
    ensures
        plan.links@.len() == addresses.len() - 1,
        plan.links@[k].process == (if k < my_index {
            k
        } else {
            k + 1
        }),
        plan.links@[k].outlet == k,
        match plan.links@[k].route {
            Route::IPC { service } => {
                &&& ipc
                &&& addresses[plan.links@[k].process as int].ip.loopback()
                &&& service < plan.other_ipc_processes@.len()
                &&& plan.other_ipc_processes@[service as int].0 == plan.links@[k].process
            },
            Route::Network { connection, inlet } => {
                &&& !(ipc && addresses[plan.links@[k].process as int].ip.loopback())
                &&& connection < plan.accepting@.len() + plan.connecting@.len()
                &&& (plan.accepting@ + plan.connecting@)[connection as int]
                    == plan.links@[k].process
                &&& inlet == connection + (if plan.other_ipc_processes@.len() > 0 {
                    1int
                } else {
                    0int
                })
                &&& inlet < plan.inlets
            },
        },
{
    let kinds = kinds_of(addresses, my_index, ipc);
    let n = addresses.len() as int;
    let process = if k < my_index {
        k
    } else {
        k + 1
    };
    law_kinds_are_valid(addresses, my_index, ipc);
    law_outlets_used_once(kinds, my_index);
    lemma_links(kinds, my_index, n);
    assert(plan.links@[k] == link_of(kinds, my_index, process));
    lemma_counts(kinds, n);
    lemma_counts(kinds, process);
    law_inlets_used_once(kinds, my_index);
    if kinds[process] is IPC {
        law_services_match_processes(kinds, my_index, process);
    } else {
        law_connections_match_processes(kinds, my_index, process);
        assert(networked(kinds, process).len() < inlets_of(kinds));
    }
}

/// The processes on a host find each other. This process sends to another one through the inbox with
/// the name under which that one receives: the port in the list is that of the address of the process,
/// and each process at a loopback address is in the list, but for this one.
pub proof fn law_inboxes_are_found(
    addresses: Seq<Address>,
    my_index: int,
    plan: Plan,
    i: int,
    k: int,
)
    requires
        0 <= my_index < addresses.len() <= usize::MAX,
        plan.is_for(kinds_of(addresses, my_index, true), my_index),
        0 <= i < addresses.len(),
        0 <= k < plan.other_ipc_processes@.len(),
    ensures
        ({
            let (process, port) = plan.other_ipc_processes@[k];
            &&& process < addresses.len()
            &&& process != my_index
            &&& addresses[process as int].ip.loopback()
            &&& port == addresses[process as int].port
            &&& "timely/inbox/"@ + decimal(port as nat) == "timely/inbox/"@ + decimal(
                addresses[process as int].port as nat,
            )
            &&& "timely/bell/"@ + decimal(port as nat) == "timely/bell/"@ + decimal(
                addresses[process as int].port as nat,
            )
        }),
        plan.other_ipc_processes@.contains((i as usize, addresses[i].port)) <==> i != my_index
            && addresses[i].ip.loopback(),
{
    let kinds = kinds_of(addresses, my_index, true);
    let n = addresses.len() as int;
    lemma_on_host_entry(addresses, my_index, n, k);
    law_kinds_are_valid(addresses, my_index, true);
    let list = plan.other_ipc_processes@;
    if list.contains((i as usize, addresses[i].port)) {
        let m = choose|m: int| 0 <= m < list.len() && list[m] == (i as usize, addresses[i].port);
        lemma_on_host_entry(addresses, my_index, n, m);
    }
    if i != my_index && addresses[i].ip.loopback() {
        law_services_match_processes(kinds, my_index, i);
        assert(list[on_host(kinds, i).len() as int] == (i as usize, addresses[i].port));
    }
}

/// What the list of the processes on this host holds.
proof fn lemma_on_host_entry(addresses: Seq<Address>, my_index: int, n: int, k: int)
    requires
        0 <= n <= addresses.len() <= usize::MAX,
        0 <= k < on_host(kinds_of(addresses, my_index, true), n).len(),
    ensures
        ({
            let (process, port) = on_host(kinds_of(addresses, my_index, true), n)[k];
            &&& process < n
            &&& process != my_index
            &&& addresses[process as int].ip.loopback()
            &&& port == addresses[process as int].port
        }),
    decreases n,
{
    if n > 0 {
        let before = on_host(kinds_of(addresses, my_index, true), n - 1);
        if k < before.len() {
            lemma_on_host_entry(addresses, my_index, n - 1, k);
        }
    }
}

} // verus!
