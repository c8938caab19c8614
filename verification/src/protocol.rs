//! One-line summaries of captured Ethernet frames: addresses, ports,
//! protocol and a short description.

use etherparse::{NetSlice, SlicedPacket, TransportSlice};

use vstd::prelude::*;

use crate::model::{CapturedPacket, PacketSummary, PacketSummaryView};
use crate::text::{decimal_text, owned_text, push_decimal};

verus! {

/// The network layer of a frame, as far as a summary needs it.
#[derive(Debug, Clone, Copy, PartialEq, Eq)]
pub enum NetworkLayer {
    Ipv4 { source: [u8; 4], destination: [u8; 4] },
    Ipv6 { source: [u8; 16], destination: [u8; 16] },
    Arp,
    Absent,
}

/// The TCP header fields a summary shows.
#[derive(Debug, Clone, Copy, PartialEq, Eq)]
pub struct TcpHeaderFields {
    pub source_port: u16,
    pub destination_port: u16,
    pub sequence_number: u32,
    pub acknowledgment_number: u32,
    pub window_size: u16,
    pub syn: bool,
    pub ack: bool,
    pub fin: bool,
    pub rst: bool,
    pub psh: bool,
}

/// The UDP header fields a summary shows.
#[derive(Debug, Clone, Copy, PartialEq, Eq)]
pub struct UdpHeaderFields {
    pub source_port: u16,
    pub destination_port: u16,
    pub length: u16,
}

/// The transport layer of a frame, as far as a summary needs it.
#[derive(Debug, Clone, Copy, PartialEq, Eq)]
pub enum TransportLayer {
    Tcp(TcpHeaderFields),
    Udp(UdpHeaderFields),
    Icmpv4,
    Icmpv6,
    Absent,
}

/// Which transport layer a frame carries.
#[derive(Debug, Clone, Copy, PartialEq, Eq)]
pub enum TransportKind {
    Tcp,
    Udp,
    Icmpv4,
    Icmpv6,
    Absent,
}

/// The layers of a frame that a summary reads.
#[derive(Debug, Clone, Copy, PartialEq, Eq)]
pub struct FrameLayers {
    pub network: NetworkLayer,
    pub transport: TransportLayer,
}

/// How etherparse's `SlicedPacket::from_ethernet` slices the bytes of an
/// Ethernet II frame, reduced to the fields a summary reads; `None` when it
/// reports an error. IGMP and unparsed transports count as absent.
pub uninterp spec fn ethernet_frame_layers(data: Seq<u8>) -> Option<FrameLayers>;

/// How the standard library writes an IPv6 address given by its sixteen
/// octets (`Ipv6Addr`'s `Display`, with its zero compression).
pub uninterp spec fn ipv6_address_text(octets: Seq<u8>) -> Seq<char>;

/// The network layer of sliced layers.
pub open spec fn frame_network(f: Option<FrameLayers>) -> Option<NetworkLayer> {
    match f {
        Some(x) => Some(x.network),
        None => None,
    }
}

/// The kind of transport layer of sliced layers.
pub open spec fn frame_transport_kind(f: Option<FrameLayers>) -> TransportKind {
    match f {
        Some(x) => match x.transport {
            TransportLayer::Tcp(_) => TransportKind::Tcp,
            TransportLayer::Udp(_) => TransportKind::Udp,
            TransportLayer::Icmpv4 => TransportKind::Icmpv4,
            TransportLayer::Icmpv6 => TransportKind::Icmpv6,
            TransportLayer::Absent => TransportKind::Absent,
        },
        None => TransportKind::Absent,
    }
}

/// The TCP header of sliced layers, if they carry one.
pub open spec fn frame_tcp(f: Option<FrameLayers>) -> Option<TcpHeaderFields> {
    match f {
        Some(x) => match x.transport {
            TransportLayer::Tcp(h) => Some(h),
            _ => None,
        },
        None => None,
    }
}

/// The UDP header of sliced layers, if they carry one.
pub open spec fn frame_udp(f: Option<FrameLayers>) -> Option<UdpHeaderFields> {
    match f {
        Some(x) => match x.transport {
            TransportLayer::Udp(h) => Some(h),
            _ => None,
        },
        None => None,
    }
}

/// `SlicedPacket::from_ethernet`, network layer: the addresses of an IPv4
/// or IPv6 header, or whether the frame carries ARP or nothing known;
/// `None` when slicing fails, as it does for fewer than the fourteen bytes
/// of an Ethernet II header.
#[verifier::external_body]
fn slice_network(data: &[u8]) -> (network: Option<NetworkLayer>)
    ensures
        network == frame_network(ethernet_frame_layers(data@)),
        data@.len() < 14 ==> network is None,
{
    match SlicedPacket::from_ethernet(data) {
        Err(_) => None,
        Ok(sliced) => Some(match sliced.net {
            Some(NetSlice::Ipv4(ip)) => NetworkLayer::Ipv4 { source: ip.header().source(), destination: ip.header().destination() },
            Some(NetSlice::Ipv6(ip)) => NetworkLayer::Ipv6 { source: ip.header().source(), destination: ip.header().destination() },
            Some(NetSlice::Arp(_)) => NetworkLayer::Arp,
            None => NetworkLayer::Absent,
        }),
    }
}

/// `SlicedPacket::from_ethernet`, transport layer: which kind it is.
#[verifier::external_body]
fn slice_transport_kind(data: &[u8]) -> (kind: TransportKind)
    ensures
        kind == frame_transport_kind(ethernet_frame_layers(data@)),
{
    match SlicedPacket::from_ethernet(data) {
        Ok(SlicedPacket { transport: Some(TransportSlice::Tcp(_)), .. }) => TransportKind::Tcp,
        Ok(SlicedPacket { transport: Some(TransportSlice::Udp(_)), .. }) => TransportKind::Udp,
        Ok(SlicedPacket { transport: Some(TransportSlice::Icmpv4(_)), .. }) => TransportKind::Icmpv4,
        Ok(SlicedPacket { transport: Some(TransportSlice::Icmpv6(_)), .. }) => TransportKind::Icmpv6,
        Ok(SlicedPacket { transport: Some(TransportSlice::Igmp(_)), .. }) => TransportKind::Absent,
        Ok(SlicedPacket { transport: None, .. }) => TransportKind::Absent,
        Err(_) => TransportKind::Absent,
    }
}

/// `SlicedPacket::from_ethernet`, TCP header fields, if the frame has one.
#[verifier::external_body]
fn slice_tcp(data: &[u8]) -> (header: Option<TcpHeaderFields>)
    ensures
        header == frame_tcp(ethernet_frame_layers(data@)),
{
    match SlicedPacket::from_ethernet(data) {
        Ok(SlicedPacket { transport: Some(TransportSlice::Tcp(t)), .. }) => Some(TcpHeaderFields {
            source_port: t.source_port(), destination_port: t.destination_port(),
            sequence_number: t.sequence_number(), acknowledgment_number: t.acknowledgment_number(),
            window_size: t.window_size(), syn: t.syn(), ack: t.ack(), fin: t.fin(), rst: t.rst(), psh: t.psh(),
        }),
        _ => None,
    }
}

/// `SlicedPacket::from_ethernet`, UDP header fields, if the frame has one.
#[verifier::external_body]
fn slice_udp(data: &[u8]) -> (header: Option<UdpHeaderFields>)
    ensures
        header == frame_udp(ethernet_frame_layers(data@)),
{
    match SlicedPacket::from_ethernet(data) {
        Ok(SlicedPacket { transport: Some(TransportSlice::Udp(u)), .. }) => Some(UdpHeaderFields {
            source_port: u.source_port(), destination_port: u.destination_port(), length: u.length(),
        }),
        _ => None,
    }
}

/// `Ipv6Addr::from(octets).to_string()`: the standard text of an IPv6
/// address.
#[verifier::external_body]
fn ipv6_text(octets: [u8; 16]) -> (text: String)
    ensures
        text@ == ipv6_address_text(octets@),
{
    core::net::Ipv6Addr::from(octets).to_string()
}


/// Every summary starts unattributed: of unknown direction, with no
/// process, and keeps the packet's id, capture time and original length.
pub proof fn lemma_summaries_start_unattributed(
    id: u64,
    timestamp_micros: u64,
    length: u32,
    captured: nat,
    frame: Option<FrameLayers>,
)
    ensures
        summary_of_frame(id, timestamp_micros, length, captured, frame).direction == "unknown"@,
        summary_of_frame(id, timestamp_micros, length, captured, frame).process_id is None,
        summary_of_frame(id, timestamp_micros, length, captured, frame).process_name is None,
        summary_of_frame(id, timestamp_micros, length, captured, frame).id == id,
        summary_of_frame(id, timestamp_micros, length, captured, frame).timestamp_micros == timestamp_micros,
        summary_of_frame(id, timestamp_micros, length, captured, frame).length == length,
{
}

/// A UDP datagram over IPv4 or IPv6 is summarized with its two ports and
/// named DNS exactly when either port is 53 (the query's destination or
/// the answer's source), UDP otherwise.
pub proof fn lemma_udp_named_dns_by_either_port(
    id: u64,
    timestamp_micros: u64,
    length: u32,
    captured: nat,
    frame: FrameLayers,
    h: UdpHeaderFields,
)
    requires
        frame.transport == TransportLayer::Udp(h),
        frame.network is Ipv4 || frame.network is Ipv6,
    ensures
        ({
            let s = summary_of_frame(id, timestamp_micros, length, captured, Some(frame));
            &&& s.protocol == (if h.source_port == 53 || h.destination_port == 53 { "DNS"@ } else { "UDP"@ })
            &&& s.source_port == Some(h.source_port)
            &&& s.destination_port == Some(h.destination_port)
        }),
{
}

/// Dotted-decimal text of an IPv4 address.
pub open spec fn ipv4_text(o: Seq<u8>) -> Seq<char> {
    decimal_text(o[0] as nat) + "."@ + decimal_text(o[1] as nat) + "."@ + decimal_text(o[2] as nat) + "."@
        + decimal_text(o[3] as nat)
}

/// Description of a frame that could not be decoded.
pub open spec fn raw_info_text(captured: nat) -> Seq<char> {
    decimal_text(captured) + " captured bytes"@
}

/// Names of the TCP flags that are set, in the order SYN, ACK, FIN, RST, PSH.
pub open spec fn tcp_flag_names(h: TcpHeaderFields) -> Seq<Seq<char>> {
    (if h.syn { seq!["SYN"@] } else { Seq::empty() }) + (if h.ack { seq!["ACK"@] } else { Seq::empty() })
        + (if h.fin { seq!["FIN"@] } else { Seq::empty() }) + (if h.rst { seq!["RST"@] } else { Seq::empty() })
        + (if h.psh { seq!["PSH"@] } else { Seq::empty() })
}

/// Texts joined with a separator between neighbours.
pub open spec fn join_with(names: Seq<Seq<char>>, separator: Seq<char>) -> Seq<char>
    decreases names.len(),
{
    if names.len() == 0 {
        Seq::empty()
    } else if names.len() == 1 {
        names[0]
    } else {
        join_with(names.drop_last(), separator) + separator + names.last()
    }
}

/// The set TCP flags in brackets after a space, or nothing when none is set.
pub open spec fn tcp_flags_text(h: TcpHeaderFields) -> Seq<char> {
    let names = tcp_flag_names(h);
    if names.len() == 0 {
        Seq::empty()
    } else {
        " ["@ + join_with(names, ", "@) + "]"@
    }
}

/// Description of a TCP segment: ports, flags, sequence and acknowledgment
/// numbers and window.
pub open spec fn tcp_info_text(h: TcpHeaderFields) -> Seq<char> {
    decimal_text(h.source_port as nat) + " → "@ + decimal_text(h.destination_port as nat) + tcp_flags_text(h)
        + " Seq="@ + decimal_text(h.sequence_number as nat) + " Ack="@
        + decimal_text(h.acknowledgment_number as nat) + " Win="@ + decimal_text(h.window_size as nat)
}

/// Description of a UDP datagram: ports and length.
pub open spec fn udp_info_text(h: UdpHeaderFields) -> Seq<char> {
    decimal_text(h.source_port as nat) + " → "@ + decimal_text(h.destination_port as nat) + " Len="@
        + decimal_text(h.length as nat)
}

/// A UDP datagram to or from port 53 is DNS.
pub open spec fn is_dns(h: UdpHeaderFields) -> bool {
    h.source_port == 53 || h.destination_port == 53
}

/// The summary of a frame nothing is known of: no addresses, protocol RAW,
/// direction unknown, and the number of captured bytes as description.
pub open spec fn raw_summary(id: u64, timestamp_micros: u64, length: u32, captured: nat) -> PacketSummaryView {
    PacketSummaryView {
        id,
        timestamp_micros,
        source: "—"@,
        destination: "—"@,
        source_port: None,
        destination_port: None,
        protocol: "RAW"@,
        direction: "unknown"@,
        length,
        info: raw_info_text(captured),
        process_id: None,
        process_name: None,
    }
}

/// A summary of an IP packet refined by its transport layer.
pub open spec fn with_transport(s: PacketSummaryView, t: TransportLayer) -> PacketSummaryView {
    match t {
        TransportLayer::Tcp(h) => PacketSummaryView {
            source_port: Some(h.source_port),
            destination_port: Some(h.destination_port),
            protocol: "TCP"@,
            info: tcp_info_text(h),
            ..s
        },
        TransportLayer::Udp(h) => PacketSummaryView {
            source_port: Some(h.source_port),
            destination_port: Some(h.destination_port),
            protocol: if is_dns(h) { "DNS"@ } else { "UDP"@ },
            info: udp_info_text(h),
            ..s
        },
        TransportLayer::Icmpv4 => PacketSummaryView {
            protocol: "ICMP"@,
            info: "Internet Control Message Protocol"@,
            ..s
        },
        TransportLayer::Icmpv6 => PacketSummaryView {
            protocol: "ICMPv6"@,
            info: "Internet Control Message Protocol v6"@,
            ..s
        },
        TransportLayer::Absent => s,
    }
}

/// The summary of a captured frame given how it was sliced: a frame that
/// could not be sliced or carries no known network layer stays RAW; ARP is
/// named; IPv4 and IPv6 show their addresses and, when present, TCP, UDP
/// (DNS on port 53) or ICMP details.
pub open spec fn summary_of_frame(
    id: u64,
    timestamp_micros: u64,
    length: u32,
    captured: nat,
    frame: Option<FrameLayers>,
) -> PacketSummaryView {
    let base = raw_summary(id, timestamp_micros, length, captured);
    match frame {
        None => base,
        Some(f) => match f.network {
            NetworkLayer::Absent => base,
            NetworkLayer::Arp => PacketSummaryView {
                protocol: "ARP"@,
                info: "Address Resolution Protocol"@,
                ..base
            },
            NetworkLayer::Ipv4 { source, destination } => with_transport(
                PacketSummaryView {
                    source: ipv4_text(source@),
                    destination: ipv4_text(destination@),
                    protocol: "IPv4"@,
                    ..base
                },
                f.transport,
            ),
            NetworkLayer::Ipv6 { source, destination } => with_transport(
                PacketSummaryView {
                    source: ipv6_address_text(source@),
                    destination: ipv6_address_text(destination@),
                    protocol: "IPv6"@,
                    ..base
                },
                f.transport,
            ),
        },
    }
}

/// Dotted-decimal text of an IPv4 address.
pub fn ipv4_string(o: [u8; 4]) -> (s: String)
    ensures
        s@ == ipv4_text(o@),
{
    let mut s = String::new();
    push_decimal(&mut s, o[0] as u64);
    s.append(".");
    push_decimal(&mut s, o[1] as u64);
    s.append(".");
    push_decimal(&mut s, o[2] as u64);
    s.append(".");
    push_decimal(&mut s, o[3] as u64);
    assert(s@ =~= ipv4_text(o@));
    s
}

/// The set TCP flags in brackets after a space, or nothing.
fn tcp_flags_string(h: &TcpHeaderFields) -> (s: String)
    ensures
        s@ == tcp_flags_text(*h),
{
    let mut names: Vec<&str> = Vec::new();
    if h.syn { names.push("SYN"); }
    if h.ack { names.push("ACK"); }
    if h.fin { names.push("FIN"); }
    if h.rst { names.push("RST"); }
    if h.psh { names.push("PSH"); }
    let ghost nv = names@.map_values(|x: &str| x@);
    assert(nv =~= tcp_flag_names(*h));
    if names.len() == 0 {
        return String::new();
    }
    let mut joined = String::new();
    joined.append(names[0]);
    assert(nv.take(1) =~= seq![nv[0]]);
    let mut i: usize = 1;
    while i < names.len()
        invariant
            nv == names@.map_values(|x: &str| x@),
            1 <= i <= names@.len(),
            joined@ == join_with(nv.take(i as int), ", "@),
        decreases names@.len() - i,
    {
        joined.append(", ");
        joined.append(names[i]);
        assert(nv.take(i + 1).drop_last() =~= nv.take(i as int));
        assert(joined@ =~= join_with(nv.take(i as int), ", "@) + ", "@ + nv[i as int]);
        i = i + 1;
    }
    assert(nv.take(names@.len() as int) =~= nv);
    let mut s = owned_text(" [");
    s.append(joined.as_str());
    s.append("]");
    assert(s@ =~= tcp_flags_text(*h));
    s
}

/// Description of a TCP segment.
fn tcp_info_string(h: &TcpHeaderFields) -> (s: String)
    ensures
        s@ == tcp_info_text(*h),
{
    let mut s = String::new();
    push_decimal(&mut s, h.source_port as u64);
    s.append(" → ");
    push_decimal(&mut s, h.destination_port as u64);
    let flags = tcp_flags_string(h);
    s.append(flags.as_str());
    s.append(" Seq=");
    push_decimal(&mut s, h.sequence_number as u64);
    s.append(" Ack=");
    push_decimal(&mut s, h.acknowledgment_number as u64);
    s.append(" Win=");
    push_decimal(&mut s, h.window_size as u64);
    assert(s@ =~= tcp_info_text(*h));
    s
}

/// Description of a UDP datagram.
fn udp_info_string(h: &UdpHeaderFields) -> (s: String)
    ensures
        s@ == udp_info_text(*h),
{
    let mut s = String::new();
    push_decimal(&mut s, h.source_port as u64);
    s.append(" → ");
    push_decimal(&mut s, h.destination_port as u64);
    s.append(" Len=");
    push_decimal(&mut s, h.length as u64);
    assert(s@ =~= udp_info_text(*h));
    s
}

/// Refines the summary of an IP packet with its transport layer.
fn apply_transport(summary: &mut PacketSummary, transport: TransportLayer)
    ensures
        final(summary)@ == with_transport(old(summary)@, transport),
{
    match transport {
        TransportLayer::Tcp(h) => {
            summary.source_port = Some(h.source_port);
            summary.destination_port = Some(h.destination_port);
            summary.protocol = owned_text("TCP");
            summary.info = tcp_info_string(&h);
        },
        TransportLayer::Udp(h) => {
            summary.source_port = Some(h.source_port);
            summary.destination_port = Some(h.destination_port);
            let dns = h.source_port == 53 || h.destination_port == 53;
            summary.protocol = if dns { owned_text("DNS") } else { owned_text("UDP") };
            summary.info = udp_info_string(&h);
        },
        TransportLayer::Icmpv4 => {
            summary.protocol = owned_text("ICMP");
            summary.info = owned_text("Internet Control Message Protocol");
        },
        TransportLayer::Icmpv6 => {
            summary.protocol = owned_text("ICMPv6");
            summary.info = owned_text("Internet Control Message Protocol v6");
        },
        TransportLayer::Absent => {},
    }
}

/// The summary of a captured frame given how it was sliced (`None` when it
/// could not be).
pub fn summarize_frame(id: u64, packet: &CapturedPacket, frame: Option<FrameLayers>) -> (summary: PacketSummary)
    ensures
        summary@ == summary_of_frame(
            id,
            packet.timestamp_micros,
            packet.original_length,
            packet.data@.len(),
            frame,
        ),
{
    let mut info = String::new();
    push_decimal(&mut info, packet.data.len() as u64);
    info.append(" captured bytes");
    let mut summary = PacketSummary {
        id,
        timestamp_micros: packet.timestamp_micros,
        source: owned_text("—"),
        destination: owned_text("—"),
        source_port: None,
        destination_port: None,
        protocol: owned_text("RAW"),
        direction: owned_text("unknown"),
        length: packet.original_length,
        info,
        process_id: None,
        process_name: None,
    };
    assert(summary@ =~= raw_summary(id, packet.timestamp_micros, packet.original_length, packet.data@.len()));
    match frame {
        None => summary,
        Some(f) => match f.network {
            NetworkLayer::Absent => summary,
            NetworkLayer::Arp => {
                summary.protocol = owned_text("ARP");
                summary.info = owned_text("Address Resolution Protocol");
                summary
            },
            NetworkLayer::Ipv4 { source, destination } => {
                summary.source = ipv4_string(source);
                summary.destination = ipv4_string(destination);
                summary.protocol = owned_text("IPv4");
                apply_transport(&mut summary, f.transport);
                summary
            },
            NetworkLayer::Ipv6 { source, destination } => {
                summary.source = ipv6_text(source);
                summary.destination = ipv6_text(destination);
                summary.protocol = owned_text("IPv6");
                apply_transport(&mut summary, f.transport);
                summary
            },
        },
    }
}

/// How the frame's bytes are sliced, read through the slicing wrappers.
fn slice_frame(data: &[u8]) -> (frame: Option<FrameLayers>)
    ensures
        frame == ethernet_frame_layers(data@),
        data@.len() < 14 ==> frame is None,
{
    match slice_network(data) {
        None => None,
        Some(network) => {
            let transport = match slice_transport_kind(data) {
                TransportKind::Tcp => match slice_tcp(data) {
                    Some(h) => TransportLayer::Tcp(h),
                    None => TransportLayer::Absent,
                },
                TransportKind::Udp => match slice_udp(data) {
                    Some(h) => TransportLayer::Udp(h),
                    None => TransportLayer::Absent,
                },
                TransportKind::Icmpv4 => TransportLayer::Icmpv4,
                TransportKind::Icmpv6 => TransportLayer::Icmpv6,
                TransportKind::Absent => TransportLayer::Absent,
            };
            Some(FrameLayers { network, transport })
        },
    }
}

/// Summarizes a captured Ethernet frame as it is sliced by etherparse.
pub fn summarize(id: u64, packet: &CapturedPacket) -> (summary: PacketSummary)
    ensures
        summary@ == summary_of_frame(
            id,
            packet.timestamp_micros,
            packet.original_length,
            packet.data@.len(),
            ethernet_frame_layers(packet.data@),
        ),
        packet.data@.len() < 14 ==> summary@ == raw_summary(
            id,
            packet.timestamp_micros,
            packet.original_length,
            packet.data@.len(),
        ),
{
    let frame = slice_frame(packet.data.as_slice());
    summarize_frame(id, packet, frame)
}

} // verus!
