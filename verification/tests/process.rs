use packetlens::model::PacketSummary;
use packetlens::process::{IpAddress, OwnerTables, ProcessInfo, ProcessResolver, TcpOwner, UdpOwner};

fn summary(protocol: &str, source: &str, sport: u16, destination: &str, dport: u16) -> PacketSummary {
    PacketSummary {
        id: 1,
        timestamp_micros: 0,
        source: source.to_string(),
        destination: destination.to_string(),
        source_port: Some(sport),
        destination_port: Some(dport),
        protocol: protocol.to_string(),
        direction: "unknown".to_string(),
        length: 60,
        info: String::new(),
        process_id: None,
        process_name: None,
    }
}

fn v4(a: u8, b: u8, c: u8, d: u8) -> IpAddress {
    IpAddress::V4(u32::from_be_bytes([a, b, c, d]))
}

fn tables() -> OwnerTables {
    OwnerTables {
        tcp: vec![TcpOwner {
            local_ip: v4(10, 0, 0, 2),
            local_port: 50_000,
            remote_ip: v4(1, 1, 1, 1),
            remote_port: 443,
            process: ProcessInfo { pid: 42, name: Some("browser.exe".to_string()) },
        }],
        udp: vec![
            UdpOwner {
                local_ip: IpAddress::V4(0),
                local_port: 5353,
                process: ProcessInfo { pid: 7, name: Some("mdns.exe".to_string()) },
            },
            UdpOwner {
                local_ip: IpAddress::V6(1),
                local_port: 9000,
                process: ProcessInfo { pid: 8, name: None },
            },
        ],
    }
}

fn resolver() -> ProcessResolver {
    let mut resolver = ProcessResolver::new();
    resolver.install_tables(tables(), 1_000);
    resolver
}

#[test]
fn tcp_packets_get_owner_and_direction() {
    let resolver = resolver();
    let mut out = summary("TCP", "10.0.0.2", 50_000, "1.1.1.1", 443);
    resolver.enrich(&mut out);
    assert_eq!(out.process_id, Some(42));
    assert_eq!(out.process_name.as_deref(), Some("browser.exe"));
    assert_eq!(out.direction, "outbound");
    let mut back = summary("TCP", "1.1.1.1", 443, "10.0.0.2", 50_000);
    resolver.enrich(&mut back);
    assert_eq!(back.process_id, Some(42));
    assert_eq!(back.direction, "inbound");
}

#[test]
fn udp_falls_back_to_wildcard_endpoints() {
    let resolver = resolver();
    let mut dns = summary("DNS", "224.0.0.251", 5353, "192.168.1.5", 5353);
    resolver.enrich(&mut dns);
    assert_eq!(dns.process_id, Some(7));
    assert_eq!(dns.direction, "outbound");
    let mut v6 = summary("UDP", "2001:db8::1", 4000, "::1", 9000);
    resolver.enrich(&mut v6);
    assert_eq!(v6.process_id, Some(8));
    assert_eq!(v6.process_name, None);
    assert_eq!(v6.direction, "inbound");
}

#[test]
fn unmatched_or_unparsable_packets_are_left_alone() {
    let resolver = resolver();
    let mut stranger = summary("TCP", "10.0.0.9", 1, "1.1.1.1", 443);
    resolver.enrich(&mut stranger);
    assert_eq!(stranger.process_id, None);
    assert_eq!(stranger.direction, "unknown");
    let mut raw = summary("RAW", "10.0.0.2", 50_000, "1.1.1.1", 443);
    resolver.enrich(&mut raw);
    assert_eq!(raw.process_id, None);
    let mut dashed = summary("TCP", "—", 50_000, "1.1.1.1", 443);
    resolver.enrich(&mut dashed);
    assert_eq!(dashed.process_id, None);
}

#[test]
fn tables_are_read_again_after_the_refresh_interval() {
    let fresh = ProcessResolver::new();
    let tcp = summary("TCP", "10.0.0.2", 1, "1.1.1.1", 2);
    let icmp = summary("ICMP", "10.0.0.2", 1, "1.1.1.1", 2);
    assert!(fresh.refresh_due(&tcp, 0));
    assert!(!fresh.refresh_due(&icmp, 0));
    let resolver = resolver();
    assert!(!resolver.refresh_due(&tcp, 1_749));
    assert!(resolver.refresh_due(&tcp, 1_750));
}
