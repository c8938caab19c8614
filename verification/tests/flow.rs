use packetlens::clock::unix_time_micros;
use packetlens::flow::FlowTracker;
use packetlens::model::PacketSummary;

fn packet(direction: &str, length: u32) -> PacketSummary {
    PacketSummary {
        id: 1,
        timestamp_micros: unix_time_micros(),
        source: "10.0.0.2".to_string(),
        destination: "1.1.1.1".to_string(),
        source_port: Some(50_000),
        destination_port: Some(443),
        protocol: "TCP".to_string(),
        direction: direction.to_string(),
        length,
        info: String::new(),
        process_id: Some(42),
        process_name: Some("browser.exe".to_string()),
    }
}

fn at(mut p: PacketSummary, timestamp_micros: u64) -> PacketSummary {
    p.timestamp_micros = timestamp_micros;
    p
}

fn swapped(mut p: PacketSummary) -> PacketSummary {
    std::mem::swap(&mut p.source, &mut p.destination);
    std::mem::swap(&mut p.source_port, &mut p.destination_port);
    p
}

#[test]
fn aggregates_process_and_directional_traffic() {
    let mut tracker = FlowTracker::default();
    tracker.observe(&packet("outbound", 100));
    tracker.observe(&packet("inbound", 200));
    let snapshot = tracker.snapshot();

    assert_eq!(snapshot.flows.len(), 1);
    assert_eq!(snapshot.flows[0].upload_bytes, 100);
    assert_eq!(snapshot.flows[0].download_bytes, 200);
    assert_eq!(snapshot.processes[0].process_id, Some(42));
}

#[test]
fn inbound_packet_of_a_connection_joins_its_flow() {
    let mut tracker = FlowTracker::default();
    tracker.observe(&at(packet("outbound", 100), 1_000));
    tracker.observe(&at(swapped(packet("inbound", 300)), 2_000));
    let snapshot = tracker.snapshot_at(3_000);
    assert_eq!(snapshot.flows.len(), 1);
    let flow = &snapshot.flows[0];
    assert_eq!(flow.local_address, "10.0.0.2");
    assert_eq!(flow.local_port, Some(50_000));
    assert_eq!(flow.remote_address, "1.1.1.1");
    assert_eq!(flow.upload_packets, 1);
    assert_eq!(flow.download_packets, 1);
    assert_eq!(flow.download_bytes, 300);
    assert_eq!(flow.first_seen_micros, 1_000);
    assert_eq!(flow.last_seen_micros, 2_000);
    assert_eq!(flow.state, "active");
}

#[test]
fn unknown_direction_is_counted_apart_and_symmetric() {
    let mut tracker = FlowTracker::default();
    tracker.observe(&at(packet("unknown", 10), 1_000));
    tracker.observe(&at(swapped(packet("unknown", 20)), 1_000));
    let snapshot = tracker.snapshot_at(1_000);
    assert_eq!(snapshot.flows.len(), 1);
    let flow = &snapshot.flows[0];
    assert_eq!(flow.unknown_bytes, 30);
    assert_eq!(flow.unknown_packets, 2);
    assert_eq!(flow.upload_bytes, 0);
    assert_eq!(flow.download_bytes, 0);
    // "1.1.1.1" orders before "10.0.0.2"
    assert_eq!(flow.local_address, "1.1.1.1");
    assert_eq!(snapshot.processes[0].unknown_bytes, 30);
}

#[test]
fn other_protocols_are_not_tracked() {
    let mut tracker = FlowTracker::default();
    let mut p = packet("outbound", 10);
    p.protocol = "ICMP".to_string();
    tracker.observe(&p);
    assert_eq!(tracker.snapshot().tracked_flow_count, 0);
}

#[test]
fn flows_go_recent_then_are_forgotten() {
    let mut tracker = FlowTracker::default();
    tracker.observe(&at(packet("outbound", 10), 0));
    let later = tracker.snapshot_at(15_000_001);
    assert_eq!(later.flows[0].state, "recent");
    assert_eq!(later.processes[0].active_connection_count, 0);
    assert_eq!(later.processes[0].connection_count, 1);
    let at_limit = tracker.snapshot_at(300_000_000);
    assert_eq!(at_limit.tracked_flow_count, 1);
    let gone = tracker.snapshot_at(300_000_001);
    assert_eq!(gone.tracked_flow_count, 0);
    assert!(gone.flows.is_empty());
    assert!(gone.processes.is_empty());
}

#[test]
fn flow_ids_are_stable_and_distinct() {
    let mut tracker = FlowTracker::default();
    tracker.observe(&at(packet("outbound", 10), 5));
    let mut other = packet("outbound", 10);
    other.destination_port = Some(80);
    tracker.observe(&at(other, 6));
    let first = tracker.snapshot_at(10);
    let second = tracker.snapshot_at(20);
    assert_eq!(first.flows.len(), 2);
    assert_eq!(first.flows[0].id.len(), 16);
    assert!(first.flows[0].id.chars().all(|c| c.is_ascii_hexdigit() && !c.is_ascii_uppercase()));
    assert_ne!(first.flows[0].id, first.flows[1].id);
    assert_eq!(first.flows[0].id, second.flows[0].id);
    // latest first
    assert_eq!(first.flows[0].remote_port, Some(80));
}

#[test]
fn processes_are_grouped_and_ranked_by_traffic() {
    let mut tracker = FlowTracker::default();
    let mut small = packet("outbound", 10);
    small.process_id = Some(1);
    small.process_name = Some("a.exe".to_string());
    let mut big = packet("inbound", 1_000);
    big.process_id = Some(2);
    big.process_name = None;
    let mut second_of_small = packet("outbound", 5);
    second_of_small.process_id = Some(1);
    second_of_small.process_name = Some("a.exe".to_string());
    second_of_small.destination_port = Some(8080);
    tracker.observe(&at(small, 1));
    tracker.observe(&at(big, 2));
    tracker.observe(&at(second_of_small, 3));
    let snapshot = tracker.snapshot_at(4);
    assert_eq!(snapshot.processes.len(), 2);
    assert_eq!(snapshot.processes[0].process_id, Some(2));
    assert_eq!(snapshot.processes[0].process_name, "未识别进程");
    assert_eq!(snapshot.processes[0].download_bytes, 1_000);
    assert_eq!(snapshot.processes[1].process_name, "a.exe");
    assert_eq!(snapshot.processes[1].connection_count, 2);
    assert_eq!(snapshot.processes[1].upload_bytes, 15);
    assert_eq!(snapshot.processes[1].last_seen_micros, 3);
}

#[test]
fn missing_process_name_is_filled_in_later() {
    let mut tracker = FlowTracker::default();
    let mut first = packet("outbound", 1);
    first.process_name = None;
    tracker.observe(&at(first, 1));
    tracker.observe(&at(packet("outbound", 1), 2));
    let snapshot = tracker.snapshot_at(3);
    assert_eq!(snapshot.flows[0].process_name.as_deref(), Some("browser.exe"));
}

#[test]
fn overfull_table_keeps_the_most_recent_flows() {
    let mut tracker = FlowTracker::default();
    for port in 0..20_001u32 {
        let mut p = packet("outbound", 1);
        p.source_port = Some((port % 65_536) as u16);
        p.process_id = Some(port / 65_536);
        tracker.observe(&at(p, 1_000 + port as u64));
    }
    let snapshot = tracker.snapshot_at(30_000);
    assert_eq!(snapshot.tracked_flow_count, 18_000);
    assert_eq!(snapshot.flows.len(), 5_000);
    assert_eq!(snapshot.flows[0].last_seen_micros, 21_000);
    assert_eq!(snapshot.flows[4_999].last_seen_micros, 16_001);
}

#[test]
fn clear_forgets_everything() {
    let mut tracker = FlowTracker::default();
    tracker.observe(&packet("outbound", 1));
    tracker.clear();
    assert_eq!(tracker.snapshot().tracked_flow_count, 0);
}

#[test]
fn unknown_packet_joins_the_flow_of_its_connection() {
    let mut tracker = FlowTracker::default();
    tracker.observe(&at(packet("outbound", 100), 1_000));
    tracker.observe(&at(swapped(packet("unknown", 7)), 2_000));
    let snapshot = tracker.snapshot_at(2_000);
    assert_eq!(snapshot.flows.len(), 1);
    let flow = &snapshot.flows[0];
    assert_eq!(flow.local_address, "10.0.0.2");
    assert_eq!(flow.upload_bytes, 100);
    assert_eq!(flow.unknown_bytes, 7);
    assert_eq!(flow.unknown_packets, 1);
}

#[test]
fn unknown_direction_between_ports_of_one_address_orders_by_port() {
    let mut tracker = FlowTracker::default();
    let mut p = packet("unknown", 5);
    p.source = "10.0.0.1".to_string();
    p.destination = "10.0.0.1".to_string();
    p.source_port = Some(443);
    p.destination_port = Some(80);
    tracker.observe(&at(p, 1));
    let snapshot = tracker.snapshot_at(1);
    assert_eq!(snapshot.flows[0].local_port, Some(80));
    assert_eq!(snapshot.flows[0].remote_port, Some(443));
}
