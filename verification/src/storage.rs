//! Capture storage: pcapng framing of raw frames, segment and index
//! bookkeeping, session records and the disk quota.

use vstd::prelude::*;

use crate::model::{opt_text, CaptureSessionSummary, CapturedPacket, PacketSummary, StoredPacketSummary};
use crate::text::{decimal_text, padded_decimal_text, push_decimal};

verus! {

/// Little-endian bytes of a 16-bit value.
#[verifier::opaque]
pub open spec fn le16(v: u16) -> Seq<u8> {
    seq![(v % 256) as u8, (v / 256) as u8]
}

/// Little-endian bytes of a 32-bit value.
#[verifier::opaque]
pub open spec fn le32(v: u32) -> Seq<u8> {
    seq![
        (v % 256) as u8,
        ((v / 256) % 256) as u8,
        ((v / 65536) % 256) as u8,
        (v / 16777216) as u8,
    ]
}

/// A 16-bit field takes two bytes.
pub broadcast proof fn lemma_le16_length(a: u16)
    ensures
        #[trigger] le16(a).len() == 2,
{
    reveal(le16);
}

/// A 32-bit field takes four bytes.
pub broadcast proof fn lemma_le32_length(b: u32)
    ensures
        #[trigger] le32(b).len() == 4,
{
    reveal(le32);
}

/// Little-endian bytes of a 64-bit value.
pub open spec fn le64(v: u64) -> Seq<u8> {
    le32((v % 0x1_0000_0000) as u32) + le32((v / 0x1_0000_0000) as u32)
}

/// Appends `value` in little-endian order.
pub fn push_u16(output: &mut Vec<u8>, value: u16)
    ensures
        final(output)@ == old(output)@ + le16(value),
{
    reveal(le16);
    output.push((value % 256) as u8);
    output.push((value / 256) as u8);
    assert(output@ =~= old(output)@ + le16(value));
}

/// Appends `value` in little-endian order.
pub fn push_u32(output: &mut Vec<u8>, value: u32)
    ensures
        final(output)@ == old(output)@ + le32(value),
{
    reveal(le32);
    output.push((value % 256) as u8);
    output.push(((value / 256) % 256) as u8);
    output.push(((value / 65536) % 256) as u8);
    output.push((value / 16777216) as u8);
    assert(output@ =~= old(output)@ + le32(value));
}

/// Block type of a pcapng Section Header Block.
pub const SECTION_HEADER_BLOCK_TYPE: u32 = 0x0A0D_0D0A;
/// The pcapng byte-order magic.
pub const BYTE_ORDER_MAGIC: u32 = 0x1A2B_3C4D;
/// Total length of the Section Header Block written here.
pub const SECTION_HEADER_BLOCK_LENGTH: u32 = 28;
/// Block type of a pcapng Interface Description Block.
pub const INTERFACE_BLOCK_TYPE: u32 = 1;
/// Total length of the Interface Description Block written here.
pub const INTERFACE_BLOCK_LENGTH: u32 = 20;
/// Link type of every capture: Ethernet.
pub const LINKTYPE_ETHERNET: u16 = 1;
/// Snapshot length announced in the interface description.
pub const INTERFACE_SNAPLEN: u32 = 65_535;
/// Block type of a pcapng Enhanced Packet Block.
pub const ENHANCED_PACKET_BLOCK_TYPE: u32 = 6;

/// The Section Header Block (version 1.0, unknown section length).
pub open spec fn section_header_block() -> Seq<u8> {
    le32(SECTION_HEADER_BLOCK_TYPE) + le32(SECTION_HEADER_BLOCK_LENGTH) + le32(BYTE_ORDER_MAGIC)
        + le16(1) + le16(0) + le64(0xFFFF_FFFF_FFFF_FFFF) + le32(SECTION_HEADER_BLOCK_LENGTH)
}

/// The Interface Description Block of the single Ethernet interface.
pub open spec fn interface_description_block() -> Seq<u8> {
    le32(INTERFACE_BLOCK_TYPE) + le32(INTERFACE_BLOCK_LENGTH) + le16(LINKTYPE_ETHERNET) + le16(0)
        + le32(INTERFACE_SNAPLEN) + le32(INTERFACE_BLOCK_LENGTH)
}

/// The bytes that open every pcapng segment.
pub open spec fn pcapng_header_bytes() -> Seq<u8> {
    section_header_block() + interface_description_block()
}

/// The header blocks that open every pcapng segment.
pub fn pcapng_headers() -> (output: Vec<u8>)
    ensures
        output@ == pcapng_header_bytes(),
{
    broadcast use {lemma_le16_length, lemma_le32_length};

    let mut output: Vec<u8> = Vec::with_capacity(48);
    push_u32(&mut output, SECTION_HEADER_BLOCK_TYPE);
    push_u32(&mut output, SECTION_HEADER_BLOCK_LENGTH);
    push_u32(&mut output, BYTE_ORDER_MAGIC);
    push_u16(&mut output, 1);
    push_u16(&mut output, 0);
    push_u32(&mut output, 0xFFFF_FFFF);
    push_u32(&mut output, 0xFFFF_FFFF);
    push_u32(&mut output, SECTION_HEADER_BLOCK_LENGTH);
    let ghost shb = output@;
    assert(shb =~= section_header_block());

    push_u32(&mut output, INTERFACE_BLOCK_TYPE);
    push_u32(&mut output, INTERFACE_BLOCK_LENGTH);
    push_u16(&mut output, LINKTYPE_ETHERNET);
    push_u16(&mut output, 0);
    push_u32(&mut output, INTERFACE_SNAPLEN);
    push_u32(&mut output, INTERFACE_BLOCK_LENGTH);
    assert(output@ =~= shb + interface_description_block());
    output
}

/// Each header block starts with its type and carries its total length both
/// right after the type and as its last four bytes; the two blocks fill
/// exactly 48 bytes.
pub proof fn lemma_pcapng_header_layout()
    ensures
        pcapng_header_bytes().len() == 48,
        pcapng_header_bytes().subrange(0, 4) == le32(SECTION_HEADER_BLOCK_TYPE),
        pcapng_header_bytes().subrange(4, 8) == le32(SECTION_HEADER_BLOCK_LENGTH),
        pcapng_header_bytes().subrange(24, 28) == le32(SECTION_HEADER_BLOCK_LENGTH),
        pcapng_header_bytes().subrange(28, 32) == le32(INTERFACE_BLOCK_TYPE),
        pcapng_header_bytes().subrange(32, 36) == le32(INTERFACE_BLOCK_LENGTH),
        pcapng_header_bytes().subrange(44, 48) == le32(INTERFACE_BLOCK_LENGTH),
        SECTION_HEADER_BLOCK_LENGTH + INTERFACE_BLOCK_LENGTH == 48,
{
    broadcast use {lemma_le16_length, lemma_le32_length};

    let h = pcapng_header_bytes();
    assert(h.subrange(0, 4) =~= le32(SECTION_HEADER_BLOCK_TYPE));
    assert(h.subrange(4, 8) =~= le32(SECTION_HEADER_BLOCK_LENGTH));
    assert(h.subrange(24, 28) =~= le32(SECTION_HEADER_BLOCK_LENGTH));
    assert(h.subrange(28, 32) =~= le32(INTERFACE_BLOCK_TYPE));
    assert(h.subrange(32, 36) =~= le32(INTERFACE_BLOCK_LENGTH));
    assert(h.subrange(44, 48) =~= le32(INTERFACE_BLOCK_LENGTH));
}


/// Zero bytes that pad a captured frame of `len` bytes to a multiple of four.
pub open spec fn epb_padding(len: nat) -> nat {
    ((4 - len % 4) % 4) as nat
}

/// Total length of the Enhanced Packet Block of a frame of `len` bytes.
pub open spec fn epb_total_length(len: nat) -> nat {
    32 + len + epb_padding(len)
}

/// The Enhanced Packet Block of one frame: type, total length, interface 0,
/// the timestamp in microseconds split into high and low 32 bits, captured
/// and original lengths, the frame padded with zeros to a multiple of four,
/// and the total length again. Lengths are stored as 32-bit fields.
pub open spec fn enhanced_packet_block_bytes(timestamp_micros: u64, original_length: u32, data: Seq<u8>) -> Seq<u8> {
    let total = epb_total_length(data.len()) as u32;
    le32(ENHANCED_PACKET_BLOCK_TYPE) + le32(total) + le32(0)
        + le32((timestamp_micros / 0x1_0000_0000) as u32)
        + le32((timestamp_micros % 0x1_0000_0000) as u32)
        + le32(data.len() as u32) + le32(original_length)
        + data + Seq::new(epb_padding(data.len()), |i: int| 0u8) + le32(total)
}

/// Frames a captured packet as a pcapng Enhanced Packet Block.
pub fn enhanced_packet_block(packet: &CapturedPacket) -> (output: Vec<u8>)
    requires
        packet.data@.len() + 35 <= usize::MAX,
    ensures
        output@ == enhanced_packet_block_bytes(packet.timestamp_micros, packet.original_length, packet.data@),
{
    broadcast use {lemma_le16_length, lemma_le32_length};

    let len = packet.data.len();
    let padding = (4 - len % 4) % 4;
    let total_length = 32 + len + padding;
    let ts = packet.timestamp_micros;
    let timestamp_high = (ts >> 32) as u32;
    let timestamp_low = ts as u32;
    assert(ts >> 32 == ts / 0x1_0000_0000) by (bit_vector);
    assert(ts as u32 == ts % 0x1_0000_0000) by (bit_vector);

    let mut output: Vec<u8> = Vec::with_capacity(total_length);
    push_u32(&mut output, ENHANCED_PACKET_BLOCK_TYPE);
    push_u32(&mut output, total_length as u32);
    push_u32(&mut output, 0);
    push_u32(&mut output, timestamp_high);
    push_u32(&mut output, timestamp_low);
    push_u32(&mut output, len as u32);
    push_u32(&mut output, packet.original_length);
    let ghost head = output@;
    let mut i: usize = 0;
    while i < len
        invariant
            i <= len,
            len == packet.data@.len(),
            output@ == head + packet.data@.subrange(0, i as int),
        decreases len - i,
    {
        output.push(packet.data[i]);
        i = i + 1;
        assert(output@ =~= head + packet.data@.subrange(0, i as int));
    }
    assert(packet.data@.subrange(0, len as int) =~= packet.data@);
    let ghost body = output@;
    let mut j: usize = 0;
    while j < padding
        invariant
            j <= padding,
            padding < 4,
            output@ == body + Seq::new(j as nat, |k: int| 0u8),
        decreases padding - j,
    {
        output.push(0u8);
        j = j + 1;
        assert(output@ =~= body + Seq::new(j as nat, |k: int| 0u8));
    }
    push_u32(&mut output, total_length as u32);
    assert(output@ =~= enhanced_packet_block_bytes(packet.timestamp_micros, packet.original_length, packet.data@));
    output
}

/// A prefix of a concatenation is read from its first part.
proof fn lemma_subrange_of_front(x: Seq<u8>, y: Seq<u8>, i: int, j: int)
    requires
        0 <= i <= j <= x.len(),
    ensures
        (x + y).subrange(i, j) == x.subrange(i, j),
{
    assert((x + y).subrange(i, j) =~= x.subrange(i, j));
}

/// A part after the first of a concatenation is read from the second part.
proof fn lemma_subrange_of_back(x: Seq<u8>, y: Seq<u8>, i: int, j: int)
    requires
        x.len() <= i <= j <= x.len() + y.len(),
    ensures
        (x + y).subrange(i, j) == y.subrange(i - x.len(), j - x.len()),
{
    assert((x + y).subrange(i, j) =~= y.subrange(i - x.len(), j - x.len()));
}

/// Seven little-endian 32-bit fields: where the second and sixth lie.
proof fn lemma_seven_fields(a: u32, b: u32, c: u32, d: u32, e: u32, f: u32, g: u32)
    ensures
        ({
            let p = le32(a) + le32(b) + le32(c) + le32(d) + le32(e) + le32(f) + le32(g);
            &&& p.len() == 28
            &&& p.subrange(4, 8) == le32(b)
            &&& p.subrange(20, 24) == le32(f)
        }),
{
    broadcast use {lemma_le16_length, lemma_le32_length};

    let p = le32(a) + le32(b) + le32(c) + le32(d) + le32(e) + le32(f) + le32(g);
    assert(p.subrange(4, 8) =~= le32(b));
    assert(p.subrange(20, 24) =~= le32(f));
}

/// A frame's block is self-describing: it is a multiple of four bytes long,
/// at least 32 bytes longer than the frame, and when its length fits the
/// 32-bit length field, that field holds the block's length both after the
/// block type and in the last four bytes, around the unchanged frame.
pub proof fn lemma_enhanced_packet_block_layout(timestamp_micros: u64, original_length: u32, data: Seq<u8>)
    requires
        epb_total_length(data.len()) <= u32::MAX,
    ensures
        ({
            let block = enhanced_packet_block_bytes(timestamp_micros, original_length, data);
            let total = epb_total_length(data.len());
            &&& block.len() == total
            &&& total % 4 == 0
            &&& total >= data.len() + 32
            &&& total < data.len() + 36
            &&& block.subrange(4, 8) == le32(total as u32)
            &&& block.subrange(total - 4, total as int) == le32(total as u32)
            &&& block.subrange(20, 24) == le32(data.len() as u32)
            &&& block.subrange(28, 28 + data.len() as int) == data
        }),
{
    broadcast use {lemma_le16_length, lemma_le32_length};

    let total = epb_total_length(data.len());
    let t = total as u32;
    let hi = (timestamp_micros / 0x1_0000_0000) as u32;
    let lo = (timestamp_micros % 0x1_0000_0000) as u32;
    let prefix = le32(ENHANCED_PACKET_BLOCK_TYPE) + le32(t) + le32(0) + le32(hi) + le32(lo)
        + le32(data.len() as u32) + le32(original_length);
    let pad = Seq::new(epb_padding(data.len()), |i: int| 0u8);
    let block = enhanced_packet_block_bytes(timestamp_micros, original_length, data);
    lemma_seven_fields(ENHANCED_PACKET_BLOCK_TYPE, t, 0, hi, lo, data.len() as u32, original_length);
    let with_data = prefix + data;
    let body = with_data + pad;
    assert(block == body + le32(t));
    lemma_subrange_of_front(body, le32(t), 4, 8);
    lemma_subrange_of_front(with_data, pad, 4, 8);
    lemma_subrange_of_front(prefix, data, 4, 8);
    lemma_subrange_of_front(body, le32(t), 20, 24);
    lemma_subrange_of_front(with_data, pad, 20, 24);
    lemma_subrange_of_front(prefix, data, 20, 24);
    lemma_subrange_of_front(body, le32(t), 28, 28 + data.len() as int);
    lemma_subrange_of_front(with_data, pad, 28, 28 + data.len() as int);
    lemma_subrange_of_back(prefix, data, 28, 28 + data.len() as int);
    assert(data.subrange(0, data.len() as int) =~= data);
    lemma_subrange_of_back(body, le32(t), total - 4, total as int);
    assert(le32(t).subrange(0, 4) =~= le32(t));
}


/// A frame on its way to storage, with its summary for the index.
pub struct StoragePacket {
    pub summary: PacketSummary,
    pub packet: CapturedPacket,
}

/// Capacity of the queue between capture and storage.
pub const STORAGE_QUEUE_CAPACITY: usize = 4_096;
/// Index rows are committed once this many are pending.
pub const INDEX_BATCH_SIZE: usize = 256;
/// Index rows are committed at least this often, in milliseconds.
pub const FLUSH_INTERVAL_MS: u64 = 500;
/// A segment is closed before it would grow past this many bytes.
pub const MAX_SEGMENT_BYTES: u64 = 512 * 1024 * 1024;
/// A segment is closed once it is this old, in milliseconds.
pub const MAX_SEGMENT_AGE_MS: u64 = 30 * 60 * 1000;
/// Default disk quota for all stored sessions.
pub const DEFAULT_DISK_QUOTA_BYTES: u64 = 10 * 1024 * 1024 * 1024;

/// Where the writer stands in the current pcapng segment and in the session.
#[derive(Debug, Clone, Copy, PartialEq, Eq)]
pub struct SegmentLedger {
    pub segment_index: u32,
    pub bytes_written: u64,
    pub segment_packets: u64,
    pub total_packets: u64,
    pub total_bytes: u64,
}

impl SegmentLedger {
    /// The ledger of a fresh session whose first segment holds only its
    /// `header_length` header bytes.
    pub fn new(header_length: u64) -> (ledger: Self)
        ensures
            ledger == (SegmentLedger {
                segment_index: 0,
                bytes_written: header_length,
                segment_packets: 0,
                total_packets: 0,
                total_bytes: 0,
            }),
    {
        SegmentLedger {
            segment_index: 0,
            bytes_written: header_length,
            segment_packets: 0,
            total_packets: 0,
            total_bytes: 0,
        }
    }

    /// Whether a block of `block_length` bytes must open a new segment: the
    /// current one already holds a packet and either would grow past the size
    /// limit or has reached the age limit.
    pub fn needs_rotation(&self, block_length: u64, segment_age_ms: u64) -> (rotate: bool)
        ensures
            rotate == (self.segment_packets > 0 && (self.bytes_written.saturating_add(block_length)
                > MAX_SEGMENT_BYTES || segment_age_ms >= MAX_SEGMENT_AGE_MS)),
    {
        self.segment_packets > 0 && (self.bytes_written.saturating_add(block_length)
            > MAX_SEGMENT_BYTES || segment_age_ms >= MAX_SEGMENT_AGE_MS)
    }

    /// Moves on to the next segment, which starts with its header bytes.
    pub fn start_next_segment(&mut self, header_length: u64)
        ensures
            final(self).segment_index == old(self).segment_index.saturating_add(1),
            final(self).bytes_written == header_length,
            final(self).segment_packets == 0,
            final(self).total_packets == old(self).total_packets,
            final(self).total_bytes == old(self).total_bytes,
    {
        self.segment_index = self.segment_index.saturating_add(1);
        self.bytes_written = header_length;
        self.segment_packets = 0;
    }

    /// Accounts for one block written at the end of the segment and returns
    /// the offset at which it starts.
    pub fn record_block(&mut self, block_length: u64, original_length: u32) -> (file_offset: u64)
        ensures
            file_offset == old(self).bytes_written,
            final(self).segment_index == old(self).segment_index,
            final(self).bytes_written == old(self).bytes_written.saturating_add(block_length),
            final(self).segment_packets == old(self).segment_packets.saturating_add(1),
            final(self).total_packets == old(self).total_packets.saturating_add(1),
            final(self).total_bytes == old(self).total_bytes.saturating_add(original_length as u64),
    {
        let file_offset = self.bytes_written;
        self.bytes_written = self.bytes_written.saturating_add(block_length);
        self.segment_packets = self.segment_packets.saturating_add(1);
        self.total_packets = self.total_packets.saturating_add(1);
        self.total_bytes = self.total_bytes.saturating_add(original_length as u64);
        file_offset
    }

    /// Number of segments the session has opened so far.
    pub fn segment_count(&self) -> (count: i64)
        ensures
            count == self.segment_index + 1,
    {
        self.segment_index as i64 + 1
    }
}

/// Whether pending index rows are due for a commit.
pub fn index_flush_due(pending_rows: usize, since_flush_ms: u64) -> (due: bool)
    ensures
        due == (pending_rows >= INDEX_BATCH_SIZE || since_flush_ms >= FLUSH_INTERVAL_MS),
{
    pending_rows >= INDEX_BATCH_SIZE || since_flush_ms >= FLUSH_INTERVAL_MS
}

/// The size of all sessions, summed oldest first with saturating additions.
pub open spec fn saturating_total(sizes: Seq<u64>) -> u64
    decreases sizes.len(),
{
    if sizes.len() == 0 {
        0
    } else {
        saturating_total(sizes.drop_last()).saturating_add(sizes.last())
    }
}

/// Nine tenths of the quota: where a cleanup stops.
pub open spec fn quota_target(quota: u64) -> u64 {
    ((if quota as int * 9 > u64::MAX { u64::MAX as int } else { quota as int * 9 }) / 10) as u64
}

/// Model of a disk quota cleanup over the finished sessions, oldest first.
pub struct QuotaCleanupView {
    pub sizes: Seq<u64>,
    pub quota: u64,
    pub target: u64,
    pub total: u64,
    pub next: nat,
    pub over_quota: bool,
}

/// A disk quota cleanup in progress. Finished sessions are offered oldest
/// first; once their total exceeds the quota, sessions are removed until the
/// total falls to nine tenths of the quota. A session whose files could not
/// be removed is skipped and keeps counting.
pub struct QuotaCleanup {
    sizes: Vec<u64>,
    quota: u64,
    target: u64,
    total: u64,
    next: usize,
    over_quota: bool,
}

impl View for QuotaCleanup {
    type V = QuotaCleanupView;

    closed spec fn view(&self) -> QuotaCleanupView {
        QuotaCleanupView {
            sizes: self.sizes@,
            quota: self.quota,
            target: self.target,
            total: self.total,
            next: self.next as nat,
            over_quota: self.over_quota,
        }
    }
}

impl QuotaCleanup {
    /// Starts a cleanup over the sizes of the finished sessions, oldest first.
    pub fn new(sizes: Vec<u64>, quota: u64) -> (cleanup: Self)
        ensures
            cleanup@.sizes == sizes@,
            cleanup@.quota == quota,
            cleanup@.target == quota_target(quota),
            cleanup@.total == saturating_total(sizes@),
            cleanup@.next == 0,
            cleanup@.over_quota == (saturating_total(sizes@) > quota),
    {
        let mut total: u64 = 0;
        let mut i: usize = 0;
        while i < sizes.len()
            invariant
                i <= sizes@.len(),
                total == saturating_total(sizes@.subrange(0, i as int)),
            decreases sizes@.len() - i,
        {
            assert(sizes@.subrange(0, i + 1).drop_last() =~= sizes@.subrange(0, i as int));
            total = total.saturating_add(sizes[i]);
            i = i + 1;
        }
        assert(sizes@.subrange(0, sizes@.len() as int) =~= sizes@);
        let target = (if quota > u64::MAX / 9 { u64::MAX } else { quota * 9 }) / 10;
        QuotaCleanup { sizes, quota, target, total, next: 0, over_quota: total > quota }
    }

    /// The index of the next session to remove, or `None` when the cleanup is
    /// over: the total never exceeded the quota, it has fallen to the target,
    /// or every session has been offered.
    pub fn next_candidate(&self) -> (candidate: Option<usize>)
        ensures
            candidate == (if self@.over_quota && self@.total > self@.target && self@.next
                < self@.sizes.len() {
                Some(self@.next as usize)
            } else {
                None::<usize>
            }),
    {
        if self.over_quota && self.total > self.target && self.next < self.sizes.len() {
            Some(self.next)
        } else {
            None
        }
    }

    /// Records whether the offered session was removed.
    pub fn record_outcome(&mut self, removed: bool)
        requires
            old(self)@.next < old(self)@.sizes.len(),
        ensures
            final(self)@.sizes == old(self)@.sizes,
            final(self)@.quota == old(self)@.quota,
            final(self)@.target == old(self)@.target,
            final(self)@.over_quota == old(self)@.over_quota,
            final(self)@.next == old(self)@.next + 1,
            final(self)@.total == (if removed {
                old(self)@.total.saturating_sub(old(self)@.sizes[old(self)@.next as int])
            } else {
                old(self)@.total
            }),
    {
        if removed {
            self.total = self.total.saturating_sub(self.sizes[self.next]);
        }
        assert(self.next < self.sizes.len());
        self.next = self.next + 1;
    }
}

/// A cleanup removes nothing while the sessions fit the quota, and once it
/// is over with sessions left unoffered, the total has fallen to the target.
pub proof fn lemma_quota_cleanup_stops(c: QuotaCleanupView)
    ensures
        !c.over_quota ==> !(c.over_quota && c.total > c.target && c.next < c.sizes.len()),
        (c.over_quota && c.next < c.sizes.len() && !(c.over_quota && c.total > c.target)) ==> c.total
            <= c.target,
        quota_target(c.quota) <= c.quota,
{
}

/// Outcome of a finished storage session.
pub struct SessionOutcome {
    pub status: String,
    pub last_error: Option<String>,
}

/// The error a finished session reports: the writer's own error if any,
/// else the error of the final commit, else none.
pub open spec fn final_error_text(last_error: Option<Seq<char>>, flush_error: Option<Seq<char>>) -> Seq<char> {
    match last_error {
        Some(e) => e,
        None => match flush_error {
            Some(e) => e,
            None => Seq::empty(),
        },
    }
}

/// How a session is recorded when it ends: with the requested status when no
/// error text remains, else as "error" with that text.
pub fn finish_outcome(status: &str, last_error: Option<&str>, flush_error: Option<String>) -> (outcome: SessionOutcome)
    ensures
        ({
            let chosen = final_error_text(
                match last_error { Some(e) => Some(e@), None => None },
                opt_text(flush_error),
            );
            &&& outcome.status@ == (if chosen.len() == 0 { status@ } else { "error"@ })
            &&& opt_text(outcome.last_error) == (if chosen.len() == 0 { None } else { Some(chosen) })
        }),
{
    let chosen: String = match last_error {
        Some(e) => String::from_str(e),
        None => match flush_error {
            Some(e) => e,
            None => String::new(),
        },
    };
    if chosen.as_str().is_empty() {
        SessionOutcome { status: String::from_str(status), last_error: None }
    } else {
        SessionOutcome { status: String::from_str("error"), last_error: Some(chosen) }
    }
}


/// Identifier of a session: its start time in milliseconds and the id of the
/// process that recorded it.
pub fn session_id(started_at_ms: u64, process_id: u32) -> (id: String)
    ensures
        id@ == decimal_text(started_at_ms as nat) + "-"@ + decimal_text(process_id as nat),
{
    let mut id = String::new();
    push_decimal(&mut id, started_at_ms);
    id.append("-");
    push_decimal(&mut id, process_id as u64);
    assert(id@ =~= decimal_text(started_at_ms as nat) + "-"@ + decimal_text(process_id as nat));
    id
}

/// File name of a segment: its index with at least four digits.
pub fn segment_file_name(index: u32) -> (name: String)
    ensures
        name@ == "segment-"@ + padded_decimal_text(index as nat, 4) + ".pcapng"@,
{
    let mut digits = String::new();
    push_decimal(&mut digits, index as u64);
    let count = digits.as_str().unicode_len();
    let mut name = String::from_str("segment-");
    let ghost head = name@;
    let mut zeros: usize = count;
    while zeros < 4
        invariant
            count == decimal_text(index as nat).len(),
            count <= zeros <= 4 || (count > 4 && zeros == count),
            name@ == head + Seq::new((zeros - count) as nat, |i: int| '0'),
        decreases 4 - zeros,
    {
        proof { reveal_strlit("0"); }
        name.append("0");
        zeros = zeros + 1;
        assert(name@ =~= head + Seq::new((zeros - count) as nat, |i: int| '0'));
    }
    let ghost padded = name@;
    name.append(digits.as_str());
    name.append(".pcapng");
    proof {
        let d = decimal_text(index as nat);
        if d.len() < 4 {
            assert(padded =~= head + Seq::new((4 - d.len()) as nat, |i: int| '0'));
        } else {
            assert(padded =~= head);
        }
    }
    assert(name@ =~= "segment-"@ + padded_decimal_text(index as nat, 4) + ".pcapng"@);
    name
}

/// Page size of the session history: between 1 and 200.
pub fn session_page_limit(limit: u32) -> (clamped: u32)
    ensures
        clamped == (if limit < 1 { 1 } else if limit > 200 { 200 } else { limit }),
{
    if limit < 1 { 1 } else if limit > 200 { 200 } else { limit }
}

/// Page size of a session's packet list: between 1 and 1000.
pub fn packet_page_limit(limit: u32) -> (clamped: u32)
    ensures
        clamped == (if limit < 1 { 1 } else if limit > 1_000 { 1_000 } else { limit }),
{
    if limit < 1 { 1 } else if limit > 1_000 { 1_000 } else { limit }
}

/// Message given when a session to delete is unknown or still recording.
pub fn session_not_deletable_message() -> (message: String)
    ensures
        message@ == "捕获会话不存在或仍在运行"@,
{
    String::from_str("捕获会话不存在或仍在运行")
}

/// The directory to remove when deleting a session: the one recorded for a
/// finished session, or an error when no finished session has that id.
pub fn deletable_directory(directory: Option<String>) -> (result: Result<String, String>)
    ensures
        match directory {
            Some(d) => result matches Ok(r) && r@ == d@,
            None => result matches Err(e) && e@ == "捕获会话不存在或仍在运行"@,
        },
{
    match directory {
        Some(d) => Ok(d),
        None => Err(session_not_deletable_message()),
    }
}

/// An optional stored integer read back as a port.
pub open spec fn stored_port(v: Option<i64>) -> Option<u16> {
    match v {
        Some(x) => Some(x as u16),
        None => None,
    }
}

/// A port read back from its column is missing exactly when the column is
/// NULL, and otherwise is the column's value taken as a port.
pub proof fn lemma_stored_port_keeps_missing(v: Option<i64>)
    ensures
        (stored_port(v) is None) == (v is None),
        v matches Some(x) ==> stored_port(v) == Some(x as u16),
{
}

fn port_from_column(v: Option<i64>) -> (r: Option<u16>)
    ensures
        r == stored_port(v),
{
    match v {
        Some(x) => Some(x as u16),
        None => None,
    }
}

impl CaptureSessionSummary {
    /// A history entry from the columns of its stored row.
    pub fn from_row(
        id: String,
        started_at_ms: i64,
        ended_at_ms: Option<i64>,
        device_name: String,
        filter: Option<String>,
        status: String,
        packet_count: i64,
        byte_count: i64,
        storage_dropped: i64,
        segment_count: i64,
        directory_path: String,
        last_error: Option<String>,
    ) -> (summary: Self)
        ensures
            summary.id@ == id@,
            summary.started_at_ms == started_at_ms as u64,
            summary.ended_at_ms == (match ended_at_ms { Some(v) => Some(v as u64), None => None }),
            summary.device_name@ == device_name@,
            opt_text(summary.filter) == opt_text(filter),
            summary.status@ == status@,
            summary.packet_count == packet_count as u64,
            summary.byte_count == byte_count as u64,
            summary.storage_dropped == storage_dropped as u64,
            summary.segment_count == segment_count as u32,
            summary.directory_path@ == directory_path@,
            opt_text(summary.last_error) == opt_text(last_error),
    {
        CaptureSessionSummary {
            id,
            started_at_ms: started_at_ms as u64,
            ended_at_ms: match ended_at_ms { Some(v) => Some(v as u64), None => None },
            device_name,
            filter,
            status,
            packet_count: packet_count as u64,
            byte_count: byte_count as u64,
            storage_dropped: storage_dropped as u64,
            segment_count: segment_count as u32,
            directory_path,
            last_error,
        }
    }
}

impl StoredPacketSummary {
    /// A packet index entry from the columns of its stored row.
    pub fn from_row(
        packet_id: i64,
        timestamp_micros: i64,
        segment_index: i64,
        file_offset: i64,
        captured_length: i64,
        original_length: i64,
        protocol: String,
        source: String,
        destination: String,
        source_port: Option<i64>,
        destination_port: Option<i64>,
        process_id: Option<i64>,
        process_name: Option<String>,
        info: String,
    ) -> (summary: Self)
        ensures
            summary.id == packet_id as u64,
            summary.timestamp_micros == timestamp_micros as u64,
            summary.segment_index == segment_index as u32,
            summary.file_offset == file_offset as u64,
            summary.captured_length == captured_length as u32,
            summary.length == original_length as u32,
            summary.protocol@ == protocol@,
            summary.source@ == source@,
            summary.destination@ == destination@,
            summary.source_port == stored_port(source_port),
            summary.destination_port == stored_port(destination_port),
            (summary.source_port is None) == (source_port is None),
            (summary.destination_port is None) == (destination_port is None),
            source_port matches Some(v) ==> summary.source_port == Some(v as u16),
            destination_port matches Some(v) ==> summary.destination_port == Some(v as u16),
            summary.process_id == (match process_id { Some(v) => Some(v as u32), None => None }),
            opt_text(summary.process_name) == opt_text(process_name),
            summary.info@ == info@,
    {
        StoredPacketSummary {
            id: packet_id as u64,
            timestamp_micros: timestamp_micros as u64,
            segment_index: segment_index as u32,
            file_offset: file_offset as u64,
            captured_length: captured_length as u32,
            source,
            destination,
            source_port: port_from_column(source_port),
            destination_port: port_from_column(destination_port),
            protocol,
            length: original_length as u32,
            info,
            process_id: match process_id { Some(v) => Some(v as u32), None => None },
            process_name,
        }
    }
}

} // verus!
