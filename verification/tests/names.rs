use timely_communication::networking::names::{
    inbox_thread_name, ipc_assembly_name, ipc_bell_name, ipc_inbox_name, ipc_send_thread_name,
    net_recv_thread_name, net_send_thread_name, panic_message, recv_thread_name, send_thread_name,
    worker_thread_name,
};
use timely_communication::text::{decimal_text, numbered};

#[test]
fn numerals_are_decimal() {
    assert_eq!(decimal_text(0), "0");
    assert_eq!(decimal_text(9), "9");
    assert_eq!(decimal_text(10), "10");
    assert_eq!(decimal_text(1234567890), "1234567890");
    assert_eq!(decimal_text(u128::MAX), format!("{}", u128::MAX));
}

#[test]
fn numerals_stand_for_their_numbers() {
    for n in [0u128, 7, 10, 99, 100, 2101, 65535, u64::MAX as u128] {
        assert_eq!(decimal_text(n).parse::<u128>(), Ok(n));
    }
}

#[test]
fn different_numbers_have_different_texts() {
    let texts: Vec<String> = (0..200).map(decimal_text).collect();
    for i in 0..texts.len() {
        for j in 0..i {
            assert_ne!(texts[i], texts[j]);
            assert_ne!(numbered("p", i as u128), numbered("p", j as u128));
        }
    }
    assert_eq!(numbered("p", 12), "p12");
    assert_eq!(numbered("", 12), "12");
}

#[test]
fn services_are_named_by_port() {
    assert_eq!(ipc_inbox_name(2101), "timely/inbox/2101");
    assert_eq!(ipc_bell_name(65535), "timely/bell/65535");
    assert_eq!(ipc_assembly_name("12345"), "timely/assembly-12345");
    assert_ne!(ipc_inbox_name(1), ipc_inbox_name(11));
    assert_ne!(ipc_bell_name(1), ipc_bell_name(11));
    assert_ne!(ipc_inbox_name(1), ipc_bell_name(1));
}

#[test]
fn threads_are_named_by_process() {
    assert_eq!(inbox_thread_name(), "timely:ipc:recv-inbox");
    assert_eq!(ipc_send_thread_name(3), "timely:ipc:send-3");
    assert_eq!(net_send_thread_name(3), "timely:net:send-3");
    assert_eq!(net_recv_thread_name(10), "timely:net:recv-10");
    assert_eq!(send_thread_name(0), "timely:send-0");
    assert_eq!(recv_thread_name(0), "timely:recv-0");
    assert_eq!(worker_thread_name(7), "timely:work-7");
}

#[test]
fn panics_can_be_told_by_how_they_begin() {
    let message = panic_message("reading data", "connection reset");
    assert_eq!(message, "timely communication error: reading data: connection reset");
    assert!(panic_message("", "").starts_with("timely communication error:"));
}
