use timely_communication::networking::header::MessageHeader;
use timely_communication::networking::receive::{
    join, Fault, ReadError, ReceiveStep, Receiver, Verdict,
};
use timely_communication::networking::handshake::{is_queue_greeting, queue_greeting};
use timely_communication::networking::send::{SendStep, Sender};

fn message(lower: usize, upper: usize, data: &[u8]) -> Vec<u8> {
    let header = MessageHeader {
        channel: 1,
        source: 0,
        target_lower: lower,
        target_upper: upper,
        length: data.len(),
        seqno: 3,
    };
    let mut bytes = Vec::new();
    header.write_to(&mut bytes);
    bytes.extend_from_slice(data);
    bytes
}

fn end() -> Vec<u8> {
    message(0, 0, b"")
}

fn delivered(step: ReceiveStep) -> Vec<Vec<Vec<u8>>> {
    match step {
        ReceiveStep::Deliver(staged) => staged,
        ReceiveStep::ConfirmEnd => panic!("end"),
        ReceiveStep::Finish(_) => panic!("finish"),
        ReceiveStep::Panic(fault) => panic!("{:?}", fault),
    }
}

fn finished(step: ReceiveStep) -> Vec<Vec<Vec<u8>>> {
    match step {
        ReceiveStep::Finish(staged) => staged,
        _ => panic!("not finished"),
    }
}

fn fault(step: ReceiveStep) -> Fault {
    match step {
        ReceiveStep::Panic(fault) => fault,
        _ => panic!("no fault"),
    }
}

#[test]
fn message_is_staged_for_its_workers() {
    // The third process of several with two threads each.
    let mut receiver = Receiver::new(4, 2, 1);
    let one = message(4, 5, b"a");
    let both = message(4, 6, b"bc");
    let mut bytes = one.clone();
    bytes.extend_from_slice(&both);
    let (step, headers) = receiver.stream_read(&bytes);
    assert_eq!(delivered(step), vec![vec![one, both.clone()], vec![both]]);
    assert_eq!(headers.len(), 2);
    assert_eq!((headers[0].target_lower, headers[0].target_upper), (4, 5));
    assert_eq!((headers[1].target_lower, headers[1].target_upper), (4, 6));
}

#[test]
fn message_for_nobody_is_dropped() {
    let mut receiver = Receiver::new(0, 1, 1);
    let (step, headers) = receiver.stream_read(&message(7, 7, b"a"));
    assert_eq!(delivered(step), vec![Vec::<Vec<u8>>::new()]);
    assert_eq!(headers.len(), 1);
}

#[test]
fn half_a_message_waits_for_the_rest() {
    let mut receiver = Receiver::new(0, 1, 1);
    let whole = message(0, 1, b"hello");
    for cut in 1..whole.len() {
        let (step, headers) = receiver.stream_read(&whole[..cut]);
        assert_eq!(delivered(step), vec![Vec::<Vec<u8>>::new()]);
        assert!(headers.is_empty());
        let (step, headers) = receiver.stream_read(&whole[cut..]);
        assert_eq!(delivered(step), vec![vec![whole.clone()]]);
        assert_eq!(headers.len(), 1);
    }
}

#[test]
fn two_reads_are_one() {
    let mut bytes = message(0, 2, b"x");
    bytes.extend(message(1, 2, b"yz"));
    let cut = bytes.len() - 5;
    let mut once = Receiver::new(0, 2, 1);
    let mut twice = Receiver::new(0, 2, 1);
    assert_eq!(once.absorb(&bytes).0, Verdict::Open);
    assert_eq!(twice.absorb(&bytes[..cut]).0, Verdict::Open);
    assert_eq!(twice.absorb(&bytes[cut..]).0, Verdict::Open);
    let staged = once.take_staged();
    assert_eq!(staged, twice.take_staged());
    assert_eq!(staged, vec![vec![message(0, 2, b"x")], vec![message(0, 2, b"x"), message(1, 2, b"yz")]]);
    assert_eq!(once.take_staged(), vec![Vec::<Vec<u8>>::new(), Vec::new()]);
}

#[test]
fn stream_ends_with_its_last_header() {
    let mut receiver = Receiver::new(0, 1, 1);
    let mut bytes = message(0, 1, b"last");
    bytes.extend(end());
    let (step, headers) = receiver.stream_read(&bytes);
    assert!(matches!(step, ReceiveStep::ConfirmEnd));
    assert_eq!(headers.len(), 2);
    assert_eq!(finished(receiver.stream_end(0)), vec![vec![message(0, 1, b"last")]]);
}

#[test]
fn stream_that_just_stops_is_a_fault() {
    let mut receiver = Receiver::new(0, 1, 1);
    let (step, headers) = receiver.stream_read(&[]);
    assert_eq!(fault(step), Fault::Closed);
    assert!(headers.is_empty());
}

#[test]
fn data_behind_the_end_is_a_fault() {
    let mut receiver = Receiver::new(0, 1, 1);
    let mut bytes = end();
    bytes.push(0);
    assert_eq!(fault(receiver.stream_read(&bytes).0), Fault::DataAfterShutdown);

    let mut receiver = Receiver::new(0, 1, 1);
    assert!(matches!(receiver.stream_read(&end()).0, ReceiveStep::ConfirmEnd));
    assert_eq!(fault(receiver.stream_end(1)), Fault::DataAfterShutdown);
}

#[test]
fn message_for_another_process_is_a_fault() {
    let mut receiver = Receiver::new(4, 2, 1);
    assert_eq!(fault(receiver.stream_read(&message(3, 5, b"a")).0), Fault::WrongTarget);
    let mut receiver = Receiver::new(4, 2, 1);
    assert_eq!(fault(receiver.stream_read(&message(5, 7, b"a")).0), Fault::WrongTarget);
    let mut receiver = Receiver::new(4, 2, 1);
    let (verdict, headers) = receiver.absorb(&message(0, 1, b"a"));
    assert_eq!(verdict, Verdict::Fault(Fault::WrongTarget));
    assert_eq!(headers.len(), 1);
    // A fault stays a fault, whatever follows.
    assert_eq!(receiver.absorb(&message(4, 5, b"a")).0, Verdict::Fault(Fault::WrongTarget));
}

#[test]
fn faults_have_their_words() {
    assert_eq!(Fault::Closed.message(), "timely communication error: reading data: socket closed");
    assert_eq!(Fault::DataAfterShutdown.message(), "Clean shutdown followed by data.");
    assert_eq!(Fault::WrongTarget.message(), "Message for a worker of another process.");
}

#[test]
fn queue_delivers_until_its_closing_header() {
    let mut receiver = Receiver::new(0, 1, 1);
    let whole = message(0, 1, b"q");
    assert_eq!(delivered(receiver.queue_read(&whole[..10]).0), vec![Vec::<Vec<u8>>::new()]);
    let (step, headers) = receiver.queue_read(&whole[10..]);
    assert_eq!(delivered(step), vec![vec![whole.clone()]]);
    assert_eq!(headers.len(), 1);
    let (step, headers) = receiver.queue_read(&[whole.clone(), end()].concat());
    assert_eq!(finished(step), vec![vec![whole]]);
    assert_eq!(headers.len(), 2);
}

#[test]
fn queue_that_just_stops_is_a_fault() {
    let mut receiver = Receiver::new(0, 1, 1);
    assert_eq!(fault(receiver.queue_read(&[]).0), Fault::Closed);
    let mut receiver = Receiver::new(0, 1, 1);
    delivered(receiver.queue_read(&message(0, 1, b"q")).0);
    let (step, headers) = receiver.queue_read(&[]);
    assert!(headers.is_empty());
    let fault = fault(step);
    assert_eq!(fault, Fault::Closed);
    assert!(fault.message().starts_with("timely communication error:"));
}

#[test]
fn queue_faults_are_those_of_a_stream() {
    let mut receiver = Receiver::new(0, 1, 1);
    assert_eq!(fault(receiver.queue_read(&message(1, 2, b"q")).0), Fault::WrongTarget);
    let mut receiver = Receiver::new(0, 1, 1);
    let bytes = [end(), message(0, 1, b"q")].concat();
    assert_eq!(fault(receiver.queue_read(&bytes).0), Fault::DataAfterShutdown);
}

#[test]
fn failed_reads_have_their_words() {
    let closed = "timely communication error: reading data: socket closed";
    assert_eq!(ReadError::EndOfStream.message(), closed);
    assert_eq!(ReadError::ConnectionClosed("done".to_string()).message(), closed);
    assert_eq!(
        ReadError::ConnectionClosed("lost".to_string()).message(),
        "timely communication error: opening stream: lost",
    );
    assert_eq!(
        ReadError::Other("reset".to_string()).message(),
        "timely communication error: opening stream: reset",
    );
}

#[test]
fn headers_end_with_the_message_at_fault() {
    let (good, bad) = (message(0, 1, b"good"), message(1, 2, b"bad"));
    let bytes = [good.clone(), good.clone(), bad, good.clone()].concat();
    let mut receiver = Receiver::new(0, 1, 1);
    let (step, headers) = receiver.stream_read(&bytes);
    assert_eq!(fault(step), Fault::WrongTarget);
    assert_eq!(headers.len(), 3);
    assert_eq!(headers[2].target_lower, 1);

    let bytes = [good.clone(), end(), good].concat();
    let mut receiver = Receiver::new(0, 1, 1);
    let (step, headers) = receiver.stream_read(&bytes);
    assert_eq!(fault(step), Fault::DataAfterShutdown);
    assert_eq!(headers.len(), 2);
    assert_eq!(headers[1].length, 0);
}

#[test]
fn message_for_one_worker_reaches_no_other() {
    let whole = message(3, 4, b"three");
    for process in 0..4 {
        let mut receiver = Receiver::new(process * 2, 2, 1);
        let step = receiver.stream_read(&whole).0;
        if process == 1 {
            assert_eq!(delivered(step), vec![vec![], vec![whole.clone()]]);
        } else {
            assert_eq!(fault(step), Fault::WrongTarget);
        }
    }
}

#[test]
fn inbox_waits_for_the_end_of_every_peer() {
    let mut receiver = Receiver::new(2, 2, 2);
    let whole = message(3, 4, b"ipc");
    let slices = vec![whole[..7].to_vec(), whole[7..].to_vec(), end()];
    let (step, headers) = receiver.inbox_read(&slices);
    assert_eq!(delivered(step), vec![Vec::<Vec<u8>>::new(), vec![whole.clone()]]);
    assert_eq!(headers.len(), 2);
    let (step, _) = receiver.inbox_read(&vec![]);
    assert_eq!(delivered(step), vec![Vec::<Vec<u8>>::new(), Vec::new()]);
    let (step, headers) = receiver.inbox_read(&vec![whole.clone(), end()]);
    assert_eq!(finished(step), vec![Vec::<Vec<u8>>::new(), vec![whole]]);
    assert_eq!(headers.len(), 2);
}

#[test]
fn inbox_rejects_data_behind_the_last_end() {
    let mut receiver = Receiver::new(0, 1, 2);
    let step = receiver.inbox_read(&vec![end(), end(), message(0, 1, b"x")]).0;
    assert_eq!(fault(step), Fault::DataAfterShutdown);
}

#[test]
fn slices_are_joined_in_order() {
    assert_eq!(join(&vec![vec![1, 2], vec![], vec![3]]), vec![1, 2, 3]);
    assert_eq!(join(&vec![]), Vec::<u8>::new());
}

/// Runs a sender on what is stashed in turn, and returns all bytes that it writes.
fn send_all(stashes: Vec<Vec<Vec<u8>>>) -> Vec<u8> {
    let mut sender = Sender { sources: vec![()] };
    let mut stashes = stashes.into_iter();
    let mut written = Vec::new();
    let mut step = sender.next();
    loop {
        step = match step {
            SendStep::Drain => sender.drained(stashes.next().unwrap_or_default()),
            SendStep::Write(outgoing) => {
                for out in outgoing {
                    written.extend(out.bytes);
                }
                sender.next()
            }
            SendStep::Flush => {
                let complete = vec![stashes.len() == 0];
                sender.flushed(&complete)
            }
            SendStep::Park => sender.next(),
            SendStep::Finish(_, bytes) => {
                written.extend(bytes);
                return written;
            }
        };
    }
}

/// Runs a receiver for two workers on `bytes`, read `at_a_time` at a time.
fn receive_all(bytes: &[u8], at_a_time: usize) -> Vec<Vec<Vec<u8>>> {
    let mut receiver = Receiver::new(2, 2, 1);
    let mut handed = vec![Vec::new(), Vec::new()];
    let mut reads = bytes.chunks(at_a_time);
    loop {
        let read = reads.next().unwrap_or(&[]);
        match receiver.stream_read(read).0 {
            ReceiveStep::Deliver(staged) => {
                for (worker, staged) in staged.into_iter().enumerate() {
                    handed[worker].extend(staged);
                }
            }
            ReceiveStep::ConfirmEnd => {
                let left = reads.next().unwrap_or(&[]).len();
                for (worker, staged) in finished(receiver.stream_end(left)).into_iter().enumerate() {
                    handed[worker].extend(staged);
                }
                return handed;
            }
            ReceiveStep::Finish(_) => panic!("finish"),
            ReceiveStep::Panic(fault) => panic!("{:?}", fault),
        }
    }
}

#[test]
fn what_is_sent_is_received_however_it_is_cut() {
    let messages =
        vec![message(2, 3, b"one"), message(3, 4, b"two"), message(2, 4, b"both"), message(2, 3, b"!")];
    let stashes = vec![
        vec![messages[0].clone()],
        vec![],
        vec![[messages[1].clone(), messages[2].clone()].concat(), messages[3].clone()],
    ];
    let bytes = send_all(stashes);
    assert_eq!(bytes.len(), messages.concat().len() + 48);
    let expected = vec![
        vec![messages[0].clone(), messages[2].clone(), messages[3].clone()],
        vec![messages[1].clone(), messages[2].clone()],
    ];
    for at_a_time in 1..bytes.len() + 1 {
        assert_eq!(receive_all(&bytes, at_a_time), expected);
    }
}

#[test]
fn nothing_sent_is_nothing_received() {
    let bytes = send_all(vec![]);
    assert_eq!(bytes, vec![0u8; 48]);
    assert_eq!(receive_all(&bytes, 5), vec![Vec::<Vec<u8>>::new(), Vec::new()]);
}

#[test]
fn what_is_queued_is_received_however_it_is_cut() {
    let messages = vec![message(0, 1, b"one"), message(1, 2, b"two"), message(0, 2, b"both")];
    let mut stream = queue_greeting();
    stream.extend(send_all(messages.iter().map(|m| vec![m.clone()]).collect()));
    let expected_bytes =
        [vec![0, 0, 0, 0xde, 0xad, 0xc0, 0xff, 0xee], messages.concat(), vec![0u8; 48]].concat();
    assert_eq!(stream, expected_bytes);
    assert!(is_queue_greeting(&stream[..8].try_into().unwrap()));
    let bytes = &stream[8..];
    let expected = vec![
        vec![messages[0].clone(), messages[2].clone()],
        vec![messages[1].clone(), messages[2].clone()],
    ];
    for at_a_time in 1..bytes.len() + 1 {
        let mut receiver = Receiver::new(0, 2, 1);
        let mut handed = vec![Vec::new(), Vec::new()];
        let mut reads = bytes.chunks(at_a_time).peekable();
        while let Some(read) = reads.next() {
            let step = receiver.queue_read(read).0;
            let staged = match reads.peek() {
                Some(_) => delivered(step),
                None => finished(step),
            };
            for (worker, staged) in staged.into_iter().enumerate() {
                handed[worker].extend(staged);
            }
        }
        assert_eq!(handed, expected);
    }
}

#[test]
fn inbox_keeps_the_order_of_each_sender() {
    let (a1, a2) = (message(0, 1, b"a1"), message(0, 2, b"a2"));
    let (b1, b2) = (message(1, 2, b"b1"), message(0, 1, b"b2"));
    let orders = vec![
        vec![a1.clone(), a2.clone(), end(), b1.clone(), b2.clone(), end()],
        vec![b1.clone(), a1.clone(), b2.clone(), a2.clone(), end(), end()],
        vec![b1.clone(), b2.clone(), end(), a1.clone(), a2.clone(), end()],
    ];
    for order in orders {
        for at_a_time in 1..order.len() + 1 {
            let mut receiver = Receiver::new(0, 2, 2);
            let mut handed = vec![Vec::new(), Vec::new()];
            let mut finished = false;
            for slices in order.chunks(at_a_time) {
                assert!(!finished);
                let staged = match receiver.inbox_read(&slices.to_vec()).0 {
                    ReceiveStep::Deliver(staged) => staged,
                    ReceiveStep::Finish(staged) => {
                        finished = true;
                        staged
                    }
                    _ => panic!("fault"),
                };
                for (worker, staged) in staged.into_iter().enumerate() {
                    handed[worker].extend(staged);
                }
            }
            assert!(finished);
            let place = |worker: usize, part: &Vec<u8>| handed[worker].iter().position(|m| m == part);
            assert_eq!((handed[0].len(), handed[1].len()), (3, 2));
            assert!(place(0, &a1) < place(0, &a2));
            assert!(place(0, &a1).is_some() && place(0, &b2).is_some());
            assert!(place(1, &a2).is_some() && place(1, &b1).is_some());
        }
    }
}

#[test]
fn messages_of_one_process_reach_each_worker_alone() {
    // Three processes with two workers each, and a message to each worker, twice.
    let to = |worker: usize| message(worker, worker + 1, format!("to {}", worker).as_bytes());
    let messages: Vec<Vec<u8>> = (0..12).map(|n| to((n * 5) % 6)).collect();
    for process in 0..3 {
        let first = 2 * process;
        let mut receiver = Receiver::new(first, 2, 1);
        let mut bytes: Vec<u8> = Vec::new();
        for m in messages.iter() {
            let target = MessageHeader::try_read(m).unwrap().target_lower;
            if first <= target && target < first + 2 {
                bytes.extend(m);
            }
        }
        bytes.extend(end());
        assert!(matches!(receiver.stream_read(&bytes).0, ReceiveStep::ConfirmEnd));
        let handed = finished(receiver.stream_end(0));
        assert_eq!(handed, vec![vec![to(first), to(first)], vec![to(first + 1), to(first + 1)]]);
    }
}
