//! The plain values that flow between capture, analysis, storage and the
//! user interface.

use vstd::prelude::*;

verus! {

/// A capture device as offered to the user.
#[derive(Debug, Clone)]
pub struct NetworkInterface {
    pub name: String,
    pub description: Option<String>,
    pub addresses: Vec<String>,
    pub loopback: bool,
}

/// What the user asks for when starting a capture.
#[derive(Debug, Clone)]
pub struct CaptureRequest {
    pub device_name: String,
    pub filter: Option<String>,
    pub promiscuous: bool,
    pub snapshot_length: i32,
}

/// One decoded packet as shown in the live list.
#[derive(Debug, Clone)]
pub struct PacketSummary {
    pub id: u64,
    pub timestamp_micros: u64,
    pub source: String,
    pub destination: String,
    pub source_port: Option<u16>,
    pub destination_port: Option<u16>,
    pub protocol: String,
    pub direction: String,
    pub length: u32,
    pub info: String,
    pub process_id: Option<u32>,
    pub process_name: Option<String>,
}

/// Mathematical model of a [`PacketSummary`]: every string by its characters.
pub struct PacketSummaryView {
    pub id: u64,
    pub timestamp_micros: u64,
    pub source: Seq<char>,
    pub destination: Seq<char>,
    pub source_port: Option<u16>,
    pub destination_port: Option<u16>,
    pub protocol: Seq<char>,
    pub direction: Seq<char>,
    pub length: u32,
    pub info: Seq<char>,
    pub process_id: Option<u32>,
    pub process_name: Option<Seq<char>>,
}

/// The characters of an optional string.
pub open spec fn opt_text(s: Option<String>) -> Option<Seq<char>> {
    match s {
        Some(t) => Some(t@),
        None => None,
    }
}

impl View for PacketSummary {
    type V = PacketSummaryView;

    open spec fn view(&self) -> PacketSummaryView {
        PacketSummaryView {
            id: self.id,
            timestamp_micros: self.timestamp_micros,
            source: self.source@,
            destination: self.destination@,
            source_port: self.source_port,
            destination_port: self.destination_port,
            protocol: self.protocol@,
            direction: self.direction@,
            length: self.length,
            info: self.info@,
            process_id: self.process_id,
            process_name: opt_text(self.process_name),
        }
    }
}

/// Copies an optional string, keeping its characters.
pub fn clone_opt_text(s: &Option<String>) -> (r: Option<String>)
    ensures
        opt_text(r) == opt_text(*s),
{
    match s {
        Some(t) => Some(t.clone()),
        None => None,
    }
}

/// Running totals of a capture.
#[derive(Debug, Clone, Default)]
pub struct CaptureStatistics {
    pub captured_packets: u64,
    pub captured_bytes: u64,
    pub dropped_packets: u64,
    pub storage_dropped_packets: u64,
    pub packets_per_second: u64,
    pub bytes_per_second: u64,
}

/// A group of summaries delivered to the user interface at once.
#[derive(Debug, Clone)]
pub struct PacketBatch {
    pub packets: Vec<PacketSummary>,
    pub statistics: CaptureStatistics,
}

/// The state of the capture as reported to the user interface.
#[derive(Debug, Clone)]
pub struct CaptureStatus {
    pub running: bool,
    pub device_name: Option<String>,
    pub session_id: Option<String>,
    pub started_at_unix_ms: Option<u64>,
    pub npcap_available: bool,
    pub last_error: Option<String>,
}

/// A stored capture session as listed in the history.
#[derive(Debug, Clone)]
pub struct CaptureSessionSummary {
    pub id: String,
    pub started_at_ms: u64,
    pub ended_at_ms: Option<u64>,
    pub device_name: String,
    pub filter: Option<String>,
    pub status: String,
    pub packet_count: u64,
    pub byte_count: u64,
    pub storage_dropped: u64,
    pub segment_count: u32,
    pub directory_path: String,
    pub last_error: Option<String>,
}

/// One row of the stored packet index.
#[derive(Debug, Clone)]
pub struct StoredPacketSummary {
    pub id: u64,
    pub timestamp_micros: u64,
    pub segment_index: u32,
    pub file_offset: u64,
    pub captured_length: u32,
    pub source: String,
    pub destination: String,
    pub source_port: Option<u16>,
    pub destination_port: Option<u16>,
    pub protocol: String,
    pub length: u32,
    pub info: String,
    pub process_id: Option<u32>,
    pub process_name: Option<String>,
}

/// A raw frame as delivered by the capture driver.
#[derive(Debug)]
pub struct CapturedPacket {
    pub timestamp_micros: u64,
    pub original_length: u32,
    pub data: Vec<u8>,
}

/// One tracked connection as reported in a snapshot.
#[derive(Debug, Clone)]
pub struct FlowSummary {
    pub id: String,
    pub protocol: String,
    pub local_address: String,
    pub local_port: Option<u16>,
    pub remote_address: String,
    pub remote_port: Option<u16>,
    pub process_id: Option<u32>,
    pub process_name: Option<String>,
    pub first_seen_micros: u64,
    pub last_seen_micros: u64,
    pub state: String,
    pub upload_packets: u64,
    pub download_packets: u64,
    pub unknown_packets: u64,
    pub upload_bytes: u64,
    pub download_bytes: u64,
    pub unknown_bytes: u64,
}

/// Traffic of one process, summed over its connections.
#[derive(Debug, Clone)]
pub struct ProcessTrafficSummary {
    pub process_id: Option<u32>,
    pub process_name: String,
    pub connection_count: u64,
    pub active_connection_count: u64,
    pub upload_packets: u64,
    pub download_packets: u64,
    pub unknown_packets: u64,
    pub upload_bytes: u64,
    pub download_bytes: u64,
    pub unknown_bytes: u64,
    pub last_seen_micros: u64,
}

/// The connection and process views at one instant.
#[derive(Debug, Clone)]
pub struct FlowSnapshot {
    pub generated_at_micros: u64,
    pub tracked_flow_count: u64,
    pub flows: Vec<FlowSummary>,
    pub processes: Vec<ProcessTrafficSummary>,
}


/// Model of a [`FlowSummary`].
pub struct FlowSummaryView {
    pub id: Seq<char>,
    pub protocol: Seq<char>,
    pub local_address: Seq<char>,
    pub local_port: Option<u16>,
    pub remote_address: Seq<char>,
    pub remote_port: Option<u16>,
    pub process_id: Option<u32>,
    pub process_name: Option<Seq<char>>,
    pub first_seen_micros: u64,
    pub last_seen_micros: u64,
    pub state: Seq<char>,
    pub upload_packets: u64,
    pub download_packets: u64,
    pub unknown_packets: u64,
    pub upload_bytes: u64,
    pub download_bytes: u64,
    pub unknown_bytes: u64,
}

impl View for FlowSummary {
    type V = FlowSummaryView;

    open spec fn view(&self) -> FlowSummaryView {
        FlowSummaryView {
            id: self.id@,
            protocol: self.protocol@,
            local_address: self.local_address@,
            local_port: self.local_port,
            remote_address: self.remote_address@,
            remote_port: self.remote_port,
            process_id: self.process_id,
            process_name: opt_text(self.process_name),
            first_seen_micros: self.first_seen_micros,
            last_seen_micros: self.last_seen_micros,
            state: self.state@,
            upload_packets: self.upload_packets,
            download_packets: self.download_packets,
            unknown_packets: self.unknown_packets,
            upload_bytes: self.upload_bytes,
            download_bytes: self.download_bytes,
            unknown_bytes: self.unknown_bytes,
        }
    }
}

/// Model of a [`ProcessTrafficSummary`].
pub struct ProcessTrafficView {
    pub process_id: Option<u32>,
    pub process_name: Seq<char>,
    pub connection_count: u64,
    pub active_connection_count: u64,
    pub upload_packets: u64,
    pub download_packets: u64,
    pub unknown_packets: u64,
    pub upload_bytes: u64,
    pub download_bytes: u64,
    pub unknown_bytes: u64,
    pub last_seen_micros: u64,
}

impl View for ProcessTrafficSummary {
    type V = ProcessTrafficView;

    open spec fn view(&self) -> ProcessTrafficView {
        ProcessTrafficView {
            process_id: self.process_id,
            process_name: self.process_name@,
            connection_count: self.connection_count,
            active_connection_count: self.active_connection_count,
            upload_packets: self.upload_packets,
            download_packets: self.download_packets,
            unknown_packets: self.unknown_packets,
            upload_bytes: self.upload_bytes,
            download_bytes: self.download_bytes,
            unknown_bytes: self.unknown_bytes,
            last_seen_micros: self.last_seen_micros,
        }
    }
}

/// Model of a [`FlowSnapshot`].
pub struct FlowSnapshotView {
    pub generated_at_micros: u64,
    pub tracked_flow_count: u64,
    pub flows: Seq<FlowSummaryView>,
    pub processes: Seq<ProcessTrafficView>,
}

impl View for FlowSnapshot {
    type V = FlowSnapshotView;

    open spec fn view(&self) -> FlowSnapshotView {
        FlowSnapshotView {
            generated_at_micros: self.generated_at_micros,
            tracked_flow_count: self.tracked_flow_count,
            flows: self.flows@.map_values(|f: FlowSummary| f@),
            processes: self.processes@.map_values(|p: ProcessTrafficSummary| p@),
        }
    }
}

} // verus!
