use timely_communication::networking::header::MessageHeader;
use timely_communication::networking::send::{SendStep, Sender};

fn sender(sources: Vec<u32>) -> Sender<u32> {
    Sender { sources }
}

#[test]
fn sources_are_drained_while_there_are_any() {
    assert!(matches!(sender(vec![1]).next(), SendStep::Drain));
    assert!(matches!(sender(vec![1, 2]).next(), SendStep::Drain));
}

#[test]
fn empty_stash_is_a_time_to_flush() {
    assert!(matches!(sender(vec![1]).drained(vec![]), SendStep::Flush));
}

#[test]
fn stash_is_written_with_its_headers() {
    let header = MessageHeader {
        channel: 4,
        source: 1,
        target_lower: 0,
        target_upper: 2,
        length: 3,
        seqno: 0,
    };
    let mut bytes = Vec::new();
    header.write_to(&mut bytes);
    bytes.extend_from_slice(b"abc");
    let twice = [bytes.clone(), bytes.clone()].concat();
    match sender(vec![1]).drained(vec![twice.clone(), vec![], bytes.clone()]) {
        SendStep::Write(outgoing) => {
            assert_eq!(outgoing.len(), 3);
            assert_eq!(outgoing[0].bytes, twice);
            assert_eq!(outgoing[0].headers, vec![header, header]);
            assert_eq!(outgoing[1].bytes, Vec::<u8>::new());
            assert_eq!(outgoing[1].headers, vec![]);
            assert_eq!(outgoing[2].bytes, bytes);
            assert_eq!(outgoing[2].headers, vec![header]);
        }
        _ => panic!("nothing to write"),
    }
}

#[test]
fn complete_sources_are_let_go() {
    let mut sender = sender(vec![10, 11, 12, 13]);
    assert!(matches!(sender.flushed(&vec![true, false, false, true]), SendStep::Park));
    assert_eq!(sender.sources, vec![11, 12]);
    assert!(matches!(sender.flushed(&vec![false, false]), SendStep::Park));
    assert_eq!(sender.sources, vec![11, 12]);
    assert!(matches!(sender.flushed(&vec![true, true]), SendStep::Finish(..)));
    assert!(sender.sources.is_empty());
}

#[test]
fn stream_is_closed_with_a_header_of_zeros() {
    match sender(vec![]).next() {
        SendStep::Finish(header, bytes) => {
            assert_eq!(
                header,
                MessageHeader {
                    channel: 0,
                    source: 0,
                    target_lower: 0,
                    target_upper: 0,
                    length: 0,
                    seqno: 0,
                },
            );
            assert_eq!(bytes, vec![0u8; 48]);
        }
        _ => panic!("not finished"),
    }
}

#[test]
fn last_source_is_followed_by_the_closing_header() {
    let mut last = sender(vec![7]);
    match last.flushed(&vec![true]) {
        SendStep::Finish(header, bytes) => {
            assert_eq!(header.length, 0);
            assert_eq!(bytes, vec![0u8; 48]);
        }
        _ => panic!("not finished"),
    }
}
