use packetlens::capture::{driver_error_text, error_buffer_text, trim_text};
use packetlens::clock::{unix_time_micros, unix_time_ms};
use packetlens::process::network_port;
use packetlens::service::{capture_step, CaptureAction, CaptureCounters, CaptureEvent, QueueOutcome};

#[test]
fn a_queued_packet_is_counted_and_reading_goes_on() {
    let mut counters = CaptureCounters::new();
    let action = capture_step(&mut counters, CaptureEvent::Packet { original_length: 60, queue: QueueOutcome::Queued });
    assert!(matches!(action, CaptureAction::Continue));
    assert_eq!(counters.packets, 1);
    assert_eq!(counters.bytes, 60);
    assert_eq!(counters.dropped, 0);
}

#[test]
fn a_packet_that_finds_the_queue_full_is_counted_as_dropped() {
    let mut counters = CaptureCounters::new();
    let action = capture_step(&mut counters, CaptureEvent::Packet { original_length: 1514, queue: QueueOutcome::Full });
    assert!(matches!(action, CaptureAction::Continue));
    assert_eq!(counters.packets, 1);
    assert_eq!(counters.bytes, 1514);
    assert_eq!(counters.dropped, 1);
}

#[test]
fn a_closed_queue_stops_the_capture() {
    let mut counters = CaptureCounters::new();
    let action = capture_step(&mut counters, CaptureEvent::Packet { original_length: 42, queue: QueueOutcome::Closed });
    assert!(matches!(action, CaptureAction::Stop));
    assert_eq!(counters.packets, 1);
    assert_eq!(counters.dropped, 0);
}

#[test]
fn a_read_timeout_changes_nothing() {
    let mut counters = CaptureCounters::new();
    let action = capture_step(&mut counters, CaptureEvent::Nothing);
    assert!(matches!(action, CaptureAction::Continue));
    assert_eq!(counters, CaptureCounters::new());
}

#[test]
fn a_driver_error_fails_the_capture_with_its_message() {
    let mut counters = CaptureCounters::new();
    match capture_step(&mut counters, CaptureEvent::Failure("adapter removed".to_string())) {
        CaptureAction::Fail(message) => assert_eq!(message, "adapter removed"),
        _ => panic!("the capture should fail"),
    }
    assert_eq!(counters, CaptureCounters::new());
}

#[test]
fn error_buffers_are_read_up_to_the_first_nul_and_trimmed() {
    let mut buffer = [0u8; 256];
    let text = b"  no such device \n";
    buffer[..text.len()].copy_from_slice(text);
    buffer[text.len() + 1] = b'x';
    assert_eq!(error_buffer_text(&buffer), "no such device");
}

#[test]
fn an_empty_error_buffer_gives_a_generic_message() {
    assert_eq!(error_buffer_text(&[0u8; 256]), "Npcap 操作失败");
    assert_eq!(error_buffer_text(b" \t\0"), "Npcap 操作失败");
    assert_eq!(driver_error_text("   "), "Npcap 操作失败");
}

#[test]
fn invalid_bytes_in_an_error_buffer_are_replaced() {
    assert_eq!(error_buffer_text(&[b'a', 0xff, b'b', 0]), "a\u{fffd}b");
}

#[test]
fn trimming_removes_white_space_at_both_ends_only() {
    assert_eq!(trim_text("\u{3000} a b \t"), "a b");
    assert_eq!(trim_text(""), "");
    assert_eq!(trim_text("x"), "x");
}

#[test]
fn owner_table_ports_are_in_network_order() {
    assert_eq!(network_port(0x0000_BB01), 443);
    assert_eq!(network_port(0x0000_5000), 80);
    assert_eq!(network_port(0xFFFF_3500), 53);
}

#[test]
fn the_clock_reads_after_the_epoch() {
    let ms = unix_time_ms();
    let micros = unix_time_micros();
    assert!(ms > 1_600_000_000_000);
    assert!(micros / 1_000 >= ms);
}

#[test]
fn a_capture_numbers_its_packets_and_counts_drops() {
    let mut counters = CaptureCounters::new();
    let queues = [QueueOutcome::Queued, QueueOutcome::Full, QueueOutcome::Queued, QueueOutcome::Full];
    let mut ids = Vec::new();
    for (i, queue) in queues.iter().enumerate() {
        ids.push(counters.take_id());
        let action = capture_step(&mut counters, CaptureEvent::Packet { original_length: 100 + i as u32, queue: *queue });
        assert!(matches!(action, CaptureAction::Continue));
    }
    assert_eq!(ids, vec![1, 2, 3, 4]);
    assert_eq!(counters.packets, 4);
    assert_eq!(counters.dropped, 2);
    assert_eq!(counters.bytes, 406);
    assert_eq!(counters.next_id, 5);
}
