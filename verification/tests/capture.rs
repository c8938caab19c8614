use packetlens::capture::{
    available, effective_filter, interfaces, list_interfaces, npcap_available, packet_timestamp_micros,
    promiscuous_flag, read_outcome, snapshot_length, unsupported_platform_message, CaptureDevice, ReadOutcome,
};
use packetlens::model::{CaptureRequest, CaptureStatus};
use packetlens::service::{start_permission, CaptureCounters};

fn request(filter: Option<&str>, snapshot_length: i32) -> CaptureRequest {
    CaptureRequest {
        device_name: "eth0".to_string(),
        filter: filter.map(str::to_string),
        promiscuous: true,
        snapshot_length,
    }
}

#[test]
fn without_a_driver_there_is_no_live_capture() {
    let load: Result<(), String> = Err(unsupported_platform_message());
    assert!(!npcap_available(&load));
    assert!(!available(&load));
    assert_eq!(list_interfaces(Err(unsupported_platform_message())).unwrap_err(), "PacketLens 当前只支持 Windows 实时抓包");
    let status = CaptureStatus::idle(npcap_available(&load));
    assert!(!status.running);
    assert!(!status.npcap_available);
}

#[test]
fn a_loaded_driver_makes_npcap_available() {
    assert!(npcap_available(&Ok(())));
    assert!(CaptureStatus::idle(npcap_available(&Ok(()))).npcap_available);
}

#[test]
fn devices_without_a_name_are_not_offered() {
    let devices = vec![
        CaptureDevice { name: Some("\\Device\\NPF_{A}".to_string()), description: Some("Ethernet".to_string()), flags: 0 },
        CaptureDevice { name: None, description: Some("ghost".to_string()), flags: 0 },
        CaptureDevice { name: Some(String::new()), description: None, flags: 1 },
        CaptureDevice { name: Some("\\Device\\NPF_Loopback".to_string()), description: None, flags: 0x11 },
    ];
    let offered = list_interfaces(Ok(devices)).unwrap();
    assert_eq!(offered.len(), 2);
    assert_eq!(offered[0].name, "\\Device\\NPF_{A}");
    assert_eq!(offered[0].description.as_deref(), Some("Ethernet"));
    assert!(!offered[0].loopback);
    assert!(offered[0].addresses.is_empty());
    assert_eq!(offered[1].name, "\\Device\\NPF_Loopback");
    assert!(offered[1].loopback);
}

#[test]
fn a_driver_listing_error_is_passed_on() {
    assert_eq!(interfaces(Err("no devices".to_string())).unwrap_err(), "no devices");
}

#[test]
fn open_parameters_are_bounded() {
    assert_eq!(snapshot_length(&request(None, 10)), 64);
    assert_eq!(snapshot_length(&request(None, 1500)), 1500);
    assert_eq!(snapshot_length(&request(None, 1_000_000)), 65_535);
    assert_eq!(promiscuous_flag(&request(None, 0)), 1);
}

#[test]
fn blank_filters_are_not_installed() {
    assert_eq!(effective_filter(&request(None, 0)), None);
    assert_eq!(effective_filter(&request(Some(" \t\u{3000} "), 0)), None);
    assert_eq!(effective_filter(&request(Some(" tcp port 80"), 0)), Some(" tcp port 80".to_string()));
}

#[test]
fn driver_results_are_read() {
    assert_eq!(read_outcome(1, true, true), ReadOutcome::Packet);
    assert_eq!(read_outcome(1, false, true), ReadOutcome::Failure);
    assert_eq!(read_outcome(0, false, false), ReadOutcome::Nothing);
    assert_eq!(read_outcome(-2, false, false), ReadOutcome::Nothing);
    assert_eq!(read_outcome(-1, false, false), ReadOutcome::Failure);
}

#[test]
fn timestamps_combine_seconds_and_microseconds() {
    assert_eq!(packet_timestamp_micros(2, 5), 2_000_005);
    assert_eq!(packet_timestamp_micros(-1, -5), 0);
    assert_eq!(packet_timestamp_micros(i32::MAX, 999_999), 2_147_483_647_999_999);
}

#[test]
fn a_second_capture_is_refused() {
    assert!(start_permission(false).is_ok());
    assert_eq!(start_permission(true).unwrap_err(), "抓包任务已经在运行");
}

#[test]
fn counters_track_ids_bytes_and_drops() {
    let mut counters = CaptureCounters::new();
    assert_eq!(counters.take_id(), 1);
    assert_eq!(counters.take_id(), 2);
    counters.record_packet(100, true);
    counters.record_packet(50, false);
    let statistics = counters.statistics(3, 10, 20);
    assert_eq!(statistics.captured_packets, 2);
    assert_eq!(statistics.captured_bytes, 150);
    assert_eq!(statistics.dropped_packets, 1);
    assert_eq!(statistics.storage_dropped_packets, 3);
}

#[test]
fn status_follows_the_capture() {
    let mut status = CaptureStatus::capturing(&"eth0".to_string(), Some("1-2".to_string()), 99);
    assert!(status.running);
    assert_eq!(status.device_name.as_deref(), Some("eth0"));
    status.record_capture_failure("lost device".to_string());
    assert!(!status.running);
    assert_eq!(status.last_error.as_deref(), Some("lost device"));
    let mut idle = CaptureStatus::idle(true);
    idle.record_open_failure("no such device".to_string(), false);
    assert!(!idle.npcap_available);
    assert_eq!(idle.last_error.as_deref(), Some("no such device"));
    idle.record_stop();
    assert!(!idle.running);
}
