use timely_communication::networking::framing::headers_in;
use timely_communication::networking::header::{MessageHeader, FIELDS};

fn sample() -> MessageHeader {
    MessageHeader { channel: 1, source: 2, target_lower: 3, target_upper: 4, length: 5, seqno: 6 }
}

fn message(header: MessageHeader, data: &[u8]) -> Vec<u8> {
    let mut bytes = Vec::new();
    header.write_to(&mut bytes);
    bytes.extend_from_slice(data);
    bytes
}

#[test]
fn header_occupies_six_integers() {
    assert_eq!(FIELDS, 6);
    assert_eq!(sample().header_bytes(), 48);
    assert_eq!(sample().required_bytes(), 53);
}

#[test]
fn fields_are_written_big_endian_and_in_order() {
    let header = MessageHeader {
        channel: 0x0102030405060708,
        source: 1,
        target_lower: 2,
        target_upper: 3,
        length: 4,
        seqno: 0x1122,
    };
    let mut bytes = vec![0xff];
    header.write_to(&mut bytes);
    assert_eq!(bytes.len(), 49);
    assert_eq!(bytes[0], 0xff);
    assert_eq!(&bytes[1..9], &[1, 2, 3, 4, 5, 6, 7, 8]);
    assert_eq!(&bytes[9..17], &[0, 0, 0, 0, 0, 0, 0, 1]);
    assert_eq!(&bytes[17..25], &[0, 0, 0, 0, 0, 0, 0, 2]);
    assert_eq!(&bytes[25..33], &[0, 0, 0, 0, 0, 0, 0, 3]);
    assert_eq!(&bytes[33..41], &[0, 0, 0, 0, 0, 0, 0, 4]);
    assert_eq!(&bytes[41..49], &[0, 0, 0, 0, 0, 0, 0x11, 0x22]);
}

#[test]
fn written_header_is_read_back() {
    let bytes = message(sample(), b"hello");
    assert_eq!(MessageHeader::try_read(&bytes), Some(sample()));
    let largest = MessageHeader {
        channel: usize::MAX,
        source: usize::MAX,
        target_lower: usize::MAX,
        target_upper: usize::MAX,
        length: 0,
        seqno: usize::MAX,
    };
    assert_eq!(MessageHeader::try_read(&message(largest, b"")), Some(largest));
}

#[test]
fn read_header_is_written_as_it_was() {
    let mut bytes = message(sample(), b"hello");
    bytes[7] = 0x2a;
    bytes[47] = 0x80;
    let header = MessageHeader::try_read(&bytes).unwrap();
    let mut written = Vec::new();
    header.write_to(&mut written);
    assert_eq!(&written[..], &bytes[..48]);
}

#[test]
fn header_needs_all_its_data() {
    let bytes = message(sample(), b"hello");
    assert_eq!(MessageHeader::try_read(&bytes[..52]), None);
    assert_eq!(MessageHeader::try_read(&bytes[..48]), None);
    assert_eq!(MessageHeader::try_read(&bytes[..47]), None);
    assert_eq!(MessageHeader::try_read(&[]), None);
    let mut longer = bytes.clone();
    longer.push(9);
    assert_eq!(MessageHeader::try_read(&longer), Some(sample()));
}

#[test]
fn header_without_data_needs_itself_alone() {
    let header = MessageHeader { length: 0, ..sample() };
    assert_eq!(MessageHeader::try_read(&message(header, b"")), Some(header));
}

#[test]
fn length_beyond_all_memory_is_never_supported() {
    let header = MessageHeader { length: usize::MAX, ..sample() };
    assert_eq!(MessageHeader::try_read(&message(header, b"hello")), None);
    let header = MessageHeader { length: usize::MAX - 47, ..sample() };
    assert_eq!(MessageHeader::try_read(&message(header, b"hello")), None);
}

#[test]
fn routing_information_needs_four_integers() {
    let bytes = message(sample(), b"hello");
    assert_eq!(MessageHeader::try_read_routing_info(&bytes), Some((1, 3..4)));
    assert_eq!(MessageHeader::try_read_routing_info(&bytes[..32]), Some((1, 3..4)));
    assert_eq!(MessageHeader::try_read_routing_info(&bytes[..31]), None);
    assert_eq!(MessageHeader::try_read_routing_info(&bytes[..24]), None);
    assert_eq!(MessageHeader::try_read_routing_info(&bytes[..16]), None);
    assert_eq!(MessageHeader::try_read_routing_info(&bytes[..7]), None);
    assert_eq!(MessageHeader::try_read_routing_info(&[]), None);
}

#[test]
fn routing_information_is_that_of_the_header() {
    let header = MessageHeader { channel: 9, target_lower: 12, target_upper: 20, ..sample() };
    let bytes = message(header, b"12345");
    let read = MessageHeader::try_read(&bytes).unwrap();
    assert_eq!(
        MessageHeader::try_read_routing_info(&bytes),
        Some((read.channel, read.target_lower..read.target_upper)),
    );
}

#[test]
fn header_depends_on_its_own_bytes_alone() {
    let mut bytes = message(sample(), b"hello");
    let before = MessageHeader::try_read(&bytes);
    bytes.extend_from_slice(&[0xff; 100]);
    assert_eq!(MessageHeader::try_read(&bytes), before);
}

#[test]
fn headers_of_all_whole_messages_are_found() {
    let first = sample();
    let second = MessageHeader { length: 0, seqno: 7, ..sample() };
    let third = MessageHeader { length: 2, seqno: 8, ..sample() };
    let mut bytes = message(first, b"hello");
    bytes.extend(message(second, b""));
    bytes.extend(message(third, b"ab"));
    assert_eq!(headers_in(&bytes), vec![first, second, third]);
    // The last byte is missing.
    assert_eq!(headers_in(&bytes[..bytes.len() - 1]), vec![first, second]);
    assert_eq!(headers_in(&[]), vec![]);
    assert_eq!(headers_in(&bytes[..47]), vec![]);
}

#[test]
fn later_bytes_do_not_change_earlier_headers() {
    let first = message(sample(), b"hello");
    let second = message(MessageHeader { length: 1, ..sample() }, b"x");
    let mut all = first.clone();
    all.extend_from_slice(&second[..20]);
    assert_eq!(headers_in(&all), vec![sample()]);
    all.extend_from_slice(&second[20..]);
    assert_eq!(headers_in(&all), vec![sample(), MessageHeader { length: 1, ..sample() }]);
}
