use packetlens::model::CapturedPacket;
use packetlens::storage::{
    deletable_directory, enhanced_packet_block, finish_outcome, index_flush_due, packet_page_limit,
    pcapng_headers, segment_file_name, session_id, session_page_limit, QuotaCleanup, SegmentLedger,
    MAX_SEGMENT_AGE_MS, MAX_SEGMENT_BYTES,
};

fn le32(bytes: &[u8]) -> u32 {
    u32::from_le_bytes(bytes.try_into().unwrap())
}

#[test]
fn pcapng_headers_have_valid_block_lengths() {
    let headers = pcapng_headers();
    assert_eq!(headers.len(), 48);
    assert_eq!(u32::from_le_bytes(headers[4..8].try_into().unwrap()), 28);
    assert_eq!(u32::from_le_bytes(headers[24..28].try_into().unwrap()), 28);
    assert_eq!(u32::from_le_bytes(headers[32..36].try_into().unwrap()), 20);
    assert_eq!(u32::from_le_bytes(headers[44..48].try_into().unwrap()), 20);
}

#[test]
fn enhanced_packet_block_is_padded_and_self_describing() {
    let packet = CapturedPacket {
        timestamp_micros: 123,
        original_length: 3,
        data: vec![1, 2, 3],
    };
    let block = enhanced_packet_block(&packet);
    assert_eq!(block.len(), 36);
    assert_eq!(u32::from_le_bytes(block[4..8].try_into().unwrap()), 36);
    assert_eq!(u32::from_le_bytes(block[32..36].try_into().unwrap()), 36);
}

#[test]
fn pcapng_headers_carry_types_magic_and_link_type() {
    let headers = pcapng_headers();
    assert_eq!(le32(&headers[0..4]), 0x0A0D_0D0A);
    assert_eq!(le32(&headers[8..12]), 0x1A2B_3C4D);
    assert_eq!(u16::from_le_bytes([headers[12], headers[13]]), 1);
    assert_eq!(u16::from_le_bytes([headers[14], headers[15]]), 0);
    assert_eq!(&headers[16..24], &[0xff; 8]);
    assert_eq!(le32(&headers[28..32]), 1);
    assert_eq!(u16::from_le_bytes([headers[36], headers[37]]), 1);
    assert_eq!(le32(&headers[40..44]), 65_535);
}

#[test]
fn enhanced_packet_block_fields_and_padding() {
    let packet = CapturedPacket {
        timestamp_micros: 0x0000_0001_0000_0002,
        original_length: 1500,
        data: vec![9, 8, 7, 6, 5],
    };
    let block = enhanced_packet_block(&packet);
    assert_eq!(block.len(), 40);
    assert_eq!(le32(&block[0..4]), 6);
    assert_eq!(le32(&block[4..8]), 40);
    assert_eq!(le32(&block[8..12]), 0);
    assert_eq!(le32(&block[12..16]), 1);
    assert_eq!(le32(&block[16..20]), 2);
    assert_eq!(le32(&block[20..24]), 5);
    assert_eq!(le32(&block[24..28]), 1500);
    assert_eq!(&block[28..33], &[9, 8, 7, 6, 5]);
    assert_eq!(&block[33..36], &[0, 0, 0]);
    assert_eq!(le32(&block[36..40]), 40);
}

#[test]
fn enhanced_packet_block_of_aligned_and_empty_frames() {
    let aligned = CapturedPacket { timestamp_micros: 0, original_length: 4, data: vec![1, 2, 3, 4] };
    assert_eq!(enhanced_packet_block(&aligned).len(), 36);
    let empty = CapturedPacket { timestamp_micros: 0, original_length: 0, data: Vec::new() };
    let block = enhanced_packet_block(&empty);
    assert_eq!(block.len(), 32);
    assert_eq!(le32(&block[28..32]), 32);
}

#[test]
fn segment_names_are_zero_padded() {
    assert_eq!(segment_file_name(0), "segment-0000.pcapng");
    assert_eq!(segment_file_name(7), "segment-0007.pcapng");
    assert_eq!(segment_file_name(1234), "segment-1234.pcapng");
    assert_eq!(segment_file_name(98765), "segment-98765.pcapng");
}

#[test]
fn session_ids_join_start_time_and_process() {
    assert_eq!(session_id(1_700_000_000_123, 4242), "1700000000123-4242");
    assert_eq!(session_id(0, 0), "0-0");
}

#[test]
fn page_limits_are_clamped() {
    assert_eq!(session_page_limit(0), 1);
    assert_eq!(session_page_limit(50), 50);
    assert_eq!(session_page_limit(5000), 200);
    assert_eq!(packet_page_limit(0), 1);
    assert_eq!(packet_page_limit(999), 999);
    assert_eq!(packet_page_limit(1001), 1000);
}

#[test]
fn segment_rotation_follows_size_and_age() {
    let mut ledger = SegmentLedger::new(48);
    assert!(!ledger.needs_rotation(MAX_SEGMENT_BYTES, 0));
    let offset = ledger.record_block(36, 3);
    assert_eq!(offset, 48);
    assert_eq!(ledger.bytes_written, 84);
    assert_eq!(ledger.total_packets, 1);
    assert_eq!(ledger.total_bytes, 3);
    assert!(!ledger.needs_rotation(36, MAX_SEGMENT_AGE_MS - 1));
    assert!(ledger.needs_rotation(36, MAX_SEGMENT_AGE_MS));
    assert!(ledger.needs_rotation(MAX_SEGMENT_BYTES, 0));
    ledger.start_next_segment(48);
    assert_eq!(ledger.segment_index, 1);
    assert_eq!(ledger.bytes_written, 48);
    assert_eq!(ledger.segment_packets, 0);
    assert_eq!(ledger.total_packets, 1);
    assert_eq!(ledger.segment_count(), 2);
}

#[test]
fn index_rows_flush_by_count_or_time() {
    assert!(!index_flush_due(255, 499));
    assert!(index_flush_due(256, 0));
    assert!(index_flush_due(0, 500));
}

#[test]
fn quota_cleanup_does_nothing_within_quota() {
    let cleanup = QuotaCleanup::new(vec![40, 60], 100);
    assert_eq!(cleanup.next_candidate(), None);
}

#[test]
fn quota_cleanup_removes_oldest_until_nine_tenths() {
    // 110 of 100: removing 15 leaves 95, still above 90, so a second goes.
    let mut cleanup = QuotaCleanup::new(vec![15, 15, 80], 100);
    assert_eq!(cleanup.next_candidate(), Some(0));
    cleanup.record_outcome(true);
    assert_eq!(cleanup.next_candidate(), Some(1));
    cleanup.record_outcome(true);
    assert_eq!(cleanup.next_candidate(), None);
}

#[test]
fn quota_cleanup_skips_sessions_it_cannot_remove() {
    let mut cleanup = QuotaCleanup::new(vec![50, 50, 50], 100);
    assert_eq!(cleanup.next_candidate(), Some(0));
    cleanup.record_outcome(false);
    assert_eq!(cleanup.next_candidate(), Some(1));
    cleanup.record_outcome(true);
    assert_eq!(cleanup.next_candidate(), Some(2));
    cleanup.record_outcome(true);
    assert_eq!(cleanup.next_candidate(), None);
}

#[test]
fn finished_sessions_report_errors() {
    let ok = finish_outcome("completed", None, None);
    assert_eq!(ok.status, "completed");
    assert_eq!(ok.last_error, None);
    let failed = finish_outcome("completed", Some("disk full"), Some("later".to_string()));
    assert_eq!(failed.status, "error");
    assert_eq!(failed.last_error.as_deref(), Some("disk full"));
    let flush = finish_outcome("completed", None, Some("commit failed".to_string()));
    assert_eq!(flush.status, "error");
    assert_eq!(flush.last_error.as_deref(), Some("commit failed"));
    let empty = finish_outcome("completed", Some(""), None);
    assert_eq!(empty.status, "completed");
    assert_eq!(empty.last_error, None);
}

#[test]
fn only_finished_sessions_can_be_deleted() {
    assert_eq!(deletable_directory(Some("/tmp/x".to_string())), Ok("/tmp/x".to_string()));
    assert_eq!(deletable_directory(None), Err("捕获会话不存在或仍在运行".to_string()));
}
