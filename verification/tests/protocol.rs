use packetlens::model::CapturedPacket;
use packetlens::protocol::{ipv4_string, summarize};

fn ethernet(ether_type: u16, payload: &[u8]) -> Vec<u8> {
    let mut frame = vec![0x02, 0, 0, 0, 0, 1, 0x02, 0, 0, 0, 0, 2];
    frame.extend_from_slice(&ether_type.to_be_bytes());
    frame.extend_from_slice(payload);
    frame
}

fn ipv4(protocol: u8, source: [u8; 4], destination: [u8; 4], payload: &[u8]) -> Vec<u8> {
    let total = (20 + payload.len()) as u16;
    let mut header = vec![0x45, 0];
    header.extend_from_slice(&total.to_be_bytes());
    header.extend_from_slice(&[0, 0, 0x40, 0, 64, protocol, 0, 0]);
    header.extend_from_slice(&source);
    header.extend_from_slice(&destination);
    header.extend_from_slice(payload);
    header
}

fn tcp(source_port: u16, destination_port: u16, flags: u8) -> Vec<u8> {
    let mut header = Vec::new();
    header.extend_from_slice(&source_port.to_be_bytes());
    header.extend_from_slice(&destination_port.to_be_bytes());
    header.extend_from_slice(&1000u32.to_be_bytes());
    header.extend_from_slice(&2000u32.to_be_bytes());
    header.push(0x50);
    header.push(flags);
    header.extend_from_slice(&4096u16.to_be_bytes());
    header.extend_from_slice(&[0, 0, 0, 0]);
    header
}

fn udp(source_port: u16, destination_port: u16, payload: &[u8]) -> Vec<u8> {
    let mut header = Vec::new();
    header.extend_from_slice(&source_port.to_be_bytes());
    header.extend_from_slice(&destination_port.to_be_bytes());
    header.extend_from_slice(&((8 + payload.len()) as u16).to_be_bytes());
    header.extend_from_slice(&[0, 0]);
    header.extend_from_slice(payload);
    header
}

fn captured(data: Vec<u8>) -> CapturedPacket {
    CapturedPacket { timestamp_micros: 7, original_length: data.len() as u32, data }
}

#[test]
fn malformed_packet_is_reported_as_raw() {
    let packet = CapturedPacket {
        timestamp_micros: 42,
        original_length: 3,
        data: vec![1, 2, 3],
    };
    let summary = summarize(1, &packet);

    assert_eq!(summary.protocol, "RAW");
    assert_eq!(summary.direction, "unknown");
    assert_eq!(summary.id, 1);
}

#[test]
fn raw_summary_describes_captured_bytes() {
    let packet = CapturedPacket { timestamp_micros: 42, original_length: 90, data: vec![1, 2, 3] };
    let summary = summarize(5, &packet);
    assert_eq!(summary.info, "3 captured bytes");
    assert_eq!(summary.source, "—");
    assert_eq!(summary.destination, "—");
    assert_eq!(summary.length, 90);
    assert_eq!(summary.timestamp_micros, 42);
    assert_eq!(summary.source_port, None);
    assert_eq!(summary.process_id, None);
}

#[test]
fn tcp_segment_is_summarized_with_flags() {
    let frame = ethernet(0x0800, &ipv4(6, [10, 0, 0, 2], [1, 1, 1, 1], &tcp(50_000, 443, 0x12)));
    let summary = summarize(2, &captured(frame));
    assert_eq!(summary.protocol, "TCP");
    assert_eq!(summary.source, "10.0.0.2");
    assert_eq!(summary.destination, "1.1.1.1");
    assert_eq!(summary.source_port, Some(50_000));
    assert_eq!(summary.destination_port, Some(443));
    assert_eq!(summary.info, "50000 → 443 [SYN, ACK] Seq=1000 Ack=2000 Win=4096");
}

#[test]
fn tcp_segment_without_flags_has_no_brackets() {
    let frame = ethernet(0x0800, &ipv4(6, [192, 168, 1, 10], [8, 8, 4, 4], &tcp(1, 2, 0)));
    let summary = summarize(3, &captured(frame));
    assert_eq!(summary.info, "1 → 2 Seq=1000 Ack=2000 Win=4096");
}

#[test]
fn udp_to_port_53_is_dns() {
    let frame = ethernet(0x0800, &ipv4(17, [10, 0, 0, 2], [8, 8, 8, 8], &udp(5353, 53, &[0; 4])));
    let summary = summarize(4, &captured(frame));
    assert_eq!(summary.protocol, "DNS");
    assert_eq!(summary.info, "5353 → 53 Len=12");
    let other = ethernet(0x0800, &ipv4(17, [10, 0, 0, 2], [8, 8, 8, 8], &udp(5353, 5354, &[])));
    assert_eq!(summarize(5, &captured(other)).protocol, "UDP");
}

#[test]
fn icmp_and_unknown_ip_payloads() {
    let icmp = ethernet(0x0800, &ipv4(1, [10, 0, 0, 2], [10, 0, 0, 1], &[8, 0, 0, 0, 0, 0, 0, 0]));
    let summary = summarize(6, &captured(icmp));
    assert_eq!(summary.protocol, "ICMP");
    assert_eq!(summary.info, "Internet Control Message Protocol");
    let other = ethernet(0x0800, &ipv4(200, [10, 0, 0, 2], [10, 0, 0, 1], &[1, 2, 3, 4]));
    let summary = summarize(7, &captured(other));
    assert_eq!(summary.protocol, "IPv4");
    assert_eq!(summary.source, "10.0.0.2");
    assert_eq!(summary.info, "38 captured bytes");
}

#[test]
fn ipv6_addresses_use_standard_text() {
    let mut ip = vec![0x60, 0, 0, 0, 0, 8, 17, 64];
    let mut source = [0u8; 16];
    source[0] = 0xfe;
    source[1] = 0x80;
    source[15] = 1;
    let mut destination = [0u8; 16];
    destination[15] = 1;
    ip.extend_from_slice(&source);
    ip.extend_from_slice(&destination);
    ip.extend_from_slice(&udp(1000, 2000, &[]));
    let summary = summarize(8, &captured(ethernet(0x86DD, &ip)));
    assert_eq!(summary.source, "fe80::1");
    assert_eq!(summary.destination, "::1");
    assert_eq!(summary.protocol, "UDP");
}

#[test]
fn arp_is_named() {
    let arp = [0, 1, 8, 0, 6, 4, 0, 1, 2, 0, 0, 0, 0, 1, 10, 0, 0, 1, 0, 0, 0, 0, 0, 0, 10, 0, 0, 2];
    let summary = summarize(9, &captured(ethernet(0x0806, &arp)));
    assert_eq!(summary.protocol, "ARP");
    assert_eq!(summary.info, "Address Resolution Protocol");
}

#[test]
fn ipv4_text_is_dotted_decimal() {
    assert_eq!(ipv4_string([0, 0, 0, 0]), "0.0.0.0");
    assert_eq!(ipv4_string([255, 10, 100, 7]), "255.10.100.7");
}
