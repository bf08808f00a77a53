use timely_communication::networking::handshake::{
    all_sockets, connected_processes, greeting, is_queue_greeting, processes_behind,
    queue_greeting, read_greeting, wrong_magic_message, Acceptor, Admission, ConnectStep, Connector, HANDSHAKE_MAGIC, QUEUE_MAGIC,
};

fn greeting_of(process: usize) -> [u8; 16] {
    greeting(process).try_into().unwrap()
}

#[test]
fn greeting_is_the_magic_and_the_index() {
    assert_eq!(HANDSHAKE_MAGIC, 0xc2f1fb770118add9);
    assert_eq!(
        greeting(5),
        vec![0xc2, 0xf1, 0xfb, 0x77, 0x01, 0x18, 0xad, 0xd9, 0, 0, 0, 0, 0, 0, 0, 5],
    );
}

#[test]
fn greeting_tells_its_process() {
    for process in [0, 1, 255, 256, usize::MAX] {
        assert_eq!(read_greeting(&greeting_of(process)), Some(process));
    }
}

#[test]
fn other_traffic_is_no_greeting() {
    assert_eq!(read_greeting(&[0; 16]), None);
    let mut bytes = greeting_of(3);
    bytes[7] ^= 1;
    assert_eq!(read_greeting(&bytes), None);
    assert_eq!(wrong_magic_message(), "received incorrect timely handshake");
}

#[test]
fn queue_greeting_is_accepted() {
    assert_eq!(QUEUE_MAGIC, 0xdeadc0ffee);
    let bytes = queue_greeting();
    assert_eq!(bytes, vec![0, 0, 0, 0xde, 0xad, 0xc0, 0xff, 0xee]);
    assert!(is_queue_greeting(&bytes.try_into().unwrap()));
    assert!(!is_queue_greeting(&[0; 8]));
}

#[test]
fn connections_are_kept_in_the_order_of_the_processes() {
    for order in [[2, 3, 4], [2, 4, 3], [3, 2, 4], [3, 4, 2], [4, 2, 3], [4, 3, 2]] {
        let mut acceptor = Acceptor::new(1, vec![2, 3, 4]);
        for process in order {
            let admission = acceptor.keep(&greeting_of(process), process * 10);
            assert_eq!(admission, Admission::Admitted(process));
        }
        assert_eq!(acceptor.into_connections(), vec![20, 30, 40]);
    }
}

#[test]
fn later_connection_of_a_process_replaces_the_earlier() {
    let mut acceptor = Acceptor::new(0, vec![1, 2]);
    assert_eq!(acceptor.keep(&greeting_of(2), 'a'), Admission::Admitted(2));
    assert_eq!(acceptor.keep(&greeting_of(2), 'b'), Admission::Admitted(2));
    assert_eq!(acceptor.slots, vec![None, Some('b')]);
    assert_eq!(acceptor.into_connections(), vec!['b']);
}

#[test]
fn unexpected_connections_are_not_kept() {
    let mut acceptor = Acceptor::new(1, vec![2, 3]);
    assert_eq!(acceptor.keep(&[7; 16], ()), Admission::WrongMagic);
    assert_eq!(acceptor.keep(&greeting_of(0), ()), Admission::UnknownProcess(0));
    assert_eq!(acceptor.keep(&greeting_of(1), ()), Admission::UnknownProcess(1));
    assert_eq!(acceptor.keep(&greeting_of(4), ()), Admission::UnknownProcess(4));
    assert_eq!(acceptor.keep(&greeting_of(usize::MAX), ()), Admission::UnknownProcess(usize::MAX));
    assert_eq!(acceptor.slots, vec![None, None]);
    assert_eq!(acceptor.keep(&greeting_of(3), ()), Admission::Admitted(3));
    assert_eq!(acceptor.slots, vec![None, Some(())]);
}

#[test]
fn connector_retries_an_address_until_it_answers() {
    let mut connector = Connector::new(2);
    assert_eq!(connector.next(), ConnectStep::Connect(0));
    connector.attempted(None);
    assert_eq!(connector.next(), ConnectStep::Connect(0));
    connector.attempted(Some('x'));
    assert_eq!(connector.next(), ConnectStep::Connect(1));
    connector.attempted(Some('y'));
    assert_eq!(connector.next(), ConnectStep::Done);
    assert_eq!(connector.connections, vec!['x', 'y']);
    assert_eq!(Connector::<()>::new(0).next(), ConnectStep::Done);
}

#[test]
fn sockets_have_a_gap_at_the_own_index() {
    let sockets = all_sockets(vec!['a', 'b'], vec![Some('c'), None, Some('e')]);
    assert_eq!(sockets, vec![Some('a'), Some('b'), None, Some('c'), None, Some('e')]);
    assert_eq!(connected_processes(sockets), vec![(0, 'a'), (1, 'b'), (3, 'c'), (5, 'e')]);
    assert_eq!(all_sockets::<()>(vec![], vec![]), vec![None]);
    assert_eq!(connected_processes::<()>(vec![None]), vec![]);
}

#[test]
fn sockets_stand_at_the_index_of_their_process() {
    for order in [[3, 4], [4, 3]] {
        let mut connector = Connector::new(2);
        connector.attempted(Some(0));
        connector.attempted(Some(1));
        let mut acceptor = Acceptor::new(2, processes_behind(5, 2));
        for process in order {
            assert_eq!(acceptor.keep(&greeting_of(process), process), Admission::Admitted(process));
        }
        let sockets = all_sockets(connector.connections, acceptor.slots);
        assert_eq!(sockets, vec![Some(0), Some(1), None, Some(3), Some(4)]);
    }
}

#[test]
fn processes_behind_are_listed() {
    assert_eq!(processes_behind(5, 0), vec![1, 2, 3, 4]);
    assert_eq!(processes_behind(5, 3), vec![4]);
    assert_eq!(processes_behind(5, 4), vec![]);
    assert_eq!(processes_behind(1, 0), vec![]);
}

#[test]
fn processes_on_this_host_leave_no_gap() {
    // Process 1 is on the same host as process 0, so that process 0 waits for 2 and 3 alone.
    for order in [[2, 3], [3, 2]] {
        let mut acceptor = Acceptor::new(0, vec![2, 3]);
        for process in order {
            assert_eq!(acceptor.keep(&greeting_of(process), process), Admission::Admitted(process));
        }
        assert_eq!(acceptor.keep(&greeting_of(1), 1), Admission::UnknownProcess(1));
        assert_eq!(acceptor.into_connections(), vec![2, 3]);
    }
}
