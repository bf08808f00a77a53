use timely_communication::networking::handshake::{greeting, Acceptor, Admission};
use timely_communication::networking::util::{
    bell_limits, classify, connect, inbox_limits, instance_parts, Address, BellLimits,
    ConnectionInfo, InboxLimits, InstancePart, Ip, Link, ProcessConnection, Route,
};

fn local(port: u16) -> Address {
    Address { ip: Ip::V4(127, 0, 0, 1), port }
}

fn remote(host: u8, port: u16) -> Address {
    Address { ip: Ip::V4(10, 0, 0, host), port }
}

fn net(process: usize, outlet: usize, connection: usize, inlet: usize) -> Link {
    Link { process, outlet, route: Route::Network { connection, inlet } }
}

fn ipc(process: usize, outlet: usize, service: usize) -> Link {
    Link { process, outlet, route: Route::IPC { service } }
}

#[test]
fn loopback_addresses_are_recognized() {
    assert!(Ip::V4(127, 0, 0, 1).is_loopback());
    assert!(Ip::V4(127, 255, 3, 4).is_loopback());
    assert!(!Ip::V4(128, 0, 0, 1).is_loopback());
    assert!(!Ip::V4(10, 0, 0, 127).is_loopback());
    assert!(Ip::V6(1).is_loopback());
    assert!(!Ip::V6(0).is_loopback());
    assert!(!Ip::V6(1 << 127).is_loopback());
}

#[test]
fn instance_is_made_of_ports_here_and_hosts_elsewhere() {
    assert_eq!(
        instance_parts(&vec![local(2101), remote(7, 2102), local(2103)]),
        vec![
            InstancePart::Port(2101),
            InstancePart::Ip(Ip::V4(10, 0, 0, 7)),
            InstancePart::Port(2103),
        ],
    );
    assert_eq!(instance_parts(&vec![]), vec![]);
}

#[test]
fn processes_are_classified() {
    let addresses = vec![local(1), remote(2, 2), local(3), remote(4, 4)];
    assert_eq!(
        classify(&addresses, 0, true),
        vec![
            ProcessConnection::LocalProcess,
            ProcessConnection::Network(remote(2, 2)),
            ProcessConnection::IPC(3),
            ProcessConnection::Network(remote(4, 4)),
        ],
    );
    assert_eq!(
        classify(&addresses, 1, false),
        vec![
            ProcessConnection::Network(local(1)),
            ProcessConnection::LocalProcess,
            ProcessConnection::Network(local(3)),
            ProcessConnection::Network(remote(4, 4)),
        ],
    );
}

#[test]
fn network_alone_needs_a_connection_for_each_process() {
    let addresses = vec![local(1), local(2), local(3), local(4)];
    for (enable_ipc, shared_memory) in [(false, false), (true, false), (false, true)] {
        let plan = connect(&addresses, 2, enable_ipc, shared_memory);
        assert_eq!((plan.my_index, plan.processes), (2, 4));
        assert_eq!(plan.accepting, vec![0, 1]);
        assert_eq!(plan.connecting, vec![3]);
        assert_eq!(plan.other_ipc_processes, vec![]);
        assert_eq!((plan.outlets, plan.inlets), (3, 3));
        assert_eq!(plan.links, vec![net(0, 0, 0, 0), net(1, 1, 1, 1), net(3, 2, 2, 2)]);
    }
}

#[test]
fn shared_memory_needs_a_single_inlet() {
    let addresses = vec![local(1), local(2), local(3), local(4)];
    let plan = connect(&addresses, 1, true, true);
    assert!(plan.accepting.is_empty());
    assert!(plan.connecting.is_empty());
    assert_eq!(plan.other_ipc_processes, vec![(0, 1), (2, 3), (3, 4)]);
    assert_eq!((plan.outlets, plan.inlets), (3, 1));
    assert_eq!(plan.links, vec![ipc(0, 0, 0), ipc(2, 1, 1), ipc(3, 2, 2)]);
}

#[test]
fn mixed_processes_share_out_connections_services_and_queues() {
    let addresses = vec![remote(1, 1), local(2), remote(3, 3), local(4), local(5), remote(6, 6)];
    let plan = connect(&addresses, 3, true, true);
    assert_eq!(plan.accepting, vec![0, 2]);
    assert_eq!(plan.connecting, vec![5]);
    assert_eq!(plan.other_ipc_processes, vec![(1, 2), (4, 5)]);
    // One inlet for both processes on this host, and three for the others.
    assert_eq!((plan.outlets, plan.inlets), (5, 4));
    assert_eq!(
        plan.links,
        vec![net(0, 0, 0, 1), ipc(1, 1, 0), net(2, 2, 1, 2), ipc(4, 3, 1), net(5, 4, 2, 3)],
    );
    let networked: Vec<usize> = plan.accepting.iter().chain(plan.connecting.iter()).copied().collect();
    for link in plan.links {
        match link.route {
            Route::Network { connection, .. } => assert_eq!(networked[connection], link.process),
            Route::IPC { service } => {
                assert_eq!(plan.other_ipc_processes[service].0, link.process)
            }
        }
    }
}

#[test]
fn lone_process_connects_to_nobody() {
    let plan = connect(&vec![local(1)], 0, true, true);
    assert!(plan.accepting.is_empty());
    assert!(plan.connecting.is_empty());
    assert!(plan.links.is_empty());
    assert_eq!((plan.outlets, plan.inlets), (0, 0));
}

#[test]
fn every_pair_has_one_connection() {
    let addresses: Vec<Address> = (1..6).map(|host| remote(host, 2100)).collect();
    for ipc in [false, true] {
        for i in 0..5 {
            for j in i + 1..5 {
                let earlier = connect(&addresses, i, ipc, ipc);
                let later = connect(&addresses, j, ipc, ipc);
                assert!(later.accepting.contains(&i));
                assert!(earlier.connecting.contains(&j));
                assert!(!earlier.accepting.contains(&j));
                assert!(!later.connecting.contains(&i));
            }
        }
    }
}

#[test]
fn first_process_of_a_host_creates_the_assembly() {
    let addresses = vec![remote(1, 1), local(2), local(3), local(4)];
    let creators: Vec<bool> =
        (1..4).map(|i| connect(&addresses, i, true, true).creates_assembly()).collect();
    assert_eq!(creators, vec![true, false, false]);
}

#[test]
fn assembly_has_a_seat_for_each_process_of_the_host() {
    let addresses = vec![remote(1, 1), local(2), local(3), local(4)];
    let plan = connect(&addresses, 2, true, true);
    assert_eq!(plan.assembly_seats(), vec![1, 3, 2]);
    assert_eq!(plan.readiness_order(), vec![2, 1, 3]);
}

#[test]
fn connection_tells_the_workers_of_its_process() {
    let plan = connect(&vec![local(1), local(2), local(3)], 2, false, false);
    let info = plan.info(1, 4);
    assert_eq!(
        info,
        ConnectionInfo {
            local_process: 2,
            remote_process: 1,
            total_processes: 3,
            threads_per_process: 4,
        },
    );
    assert_eq!(info.first_worker(), 8);
}

#[test]
fn workers_of_different_processes_differ() {
    let plans: Vec<usize> = (0..3)
        .map(|i| connect(&vec![local(1), local(2), local(3)], i, false, false))
        .map(|plan| plan.info(0, 2).first_worker())
        .collect();
    assert_eq!(plans, vec![0, 2, 4]);
}

#[test]
fn services_are_limited_to_the_processes_of_the_host() {
    assert_eq!(
        inbox_limits(4),
        InboxLimits {
            subscriber_max_buffer_size: 100,
            subscriber_max_borrowed_samples: 50,
            max_nodes: 4,
            max_subscribers: 1,
            max_publishers: 3,
            history_size: 0,
        },
    );
    assert_eq!(bell_limits(4), BellLimits { max_nodes: 4, max_listeners: 3 });
}

#[test]
fn links_get_the_connections_of_their_processes() {
    // Process 2 of seven, with processes 1, 4 and 6 on the same host.
    let addresses = vec![
        remote(1, 1),
        local(2),
        local(3),
        remote(4, 4),
        local(5),
        remote(6, 6),
        local(7),
    ];
    let plan = connect(&addresses, 2, true, true);
    assert_eq!(plan.connecting, vec![3, 5]);
    for order in [[3, 5], [5, 3]] {
        let mut acceptor = Acceptor::new(plan.my_index, plan.connecting.clone());
        for process in order {
            let bytes = greeting(process).try_into().unwrap();
            assert_eq!(acceptor.keep(&bytes, process), Admission::Admitted(process));
        }
        let mut connections = plan.accepting.clone();
        connections.extend(acceptor.into_connections());
        for link in plan.links.iter() {
            if let Route::Network { connection, .. } = link.route {
                assert_eq!(connections[connection], link.process);
            }
        }
    }
}
