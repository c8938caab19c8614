//! Capture session bookkeeping: the status shown to the user as a capture
//! starts, fails and stops, and the counters of captured and dropped packets.

use vstd::prelude::*;

use crate::model::{opt_text, CaptureStatistics, CaptureStatus};

verus! {

/// Capacity of the queue of summaries waiting for the user interface.
pub const SUMMARY_QUEUE_CAPACITY: usize = 8_192;
/// Most summaries delivered in one batch after the first.
pub const MAX_BATCH_EXTRA: usize = 2_048;
/// Interval between batches, in milliseconds.
pub const BATCH_INTERVAL_MS: u64 = 100;

/// The message given when a capture is started while one is running.
pub open spec fn already_running_text() -> Seq<char> {
    "抓包任务已经在运行"@
}

/// Whether a capture may start: not while one is running.
pub fn start_permission(already_running: bool) -> (result: Result<(), String>)
    ensures
        already_running <==> result is Err,
        result matches Err(e) ==> e@ == already_running_text(),
{
    if already_running {
        Err(String::from_str("抓包任务已经在运行"))
    } else {
        Ok(())
    }
}

impl CaptureStatus {
    /// The status before any capture: nothing running, nothing failed, and
    /// whether Npcap is available as the driver answered. This is the
    /// default status, given the driver's answer.
    pub fn idle(npcap_available: bool) -> (status: Self)
        ensures
            !status.running,
            status.device_name is None,
            status.session_id is None,
            status.started_at_unix_ms is None,
            status.npcap_available == npcap_available,
            status.last_error is None,
    {
        CaptureStatus {
            running: false,
            device_name: None,
            session_id: None,
            started_at_unix_ms: None,
            npcap_available,
            last_error: None,
        }
    }

    /// The status of a capture that has just opened its device.
    pub fn capturing(device_name: &String, session_id: Option<String>, started_at_unix_ms: u64) -> (status: Self)
        ensures
            status.running,
            opt_text(status.device_name) == Some(device_name@),
            opt_text(status.session_id) == opt_text(session_id),
            status.started_at_unix_ms == Some(started_at_unix_ms),
            status.npcap_available,
            status.last_error is None,
    {
        CaptureStatus {
            running: true,
            device_name: Some(device_name.clone()),
            session_id,
            started_at_unix_ms: Some(started_at_unix_ms),
            npcap_available: true,
            last_error: None,
        }
    }

    /// A capture that could not be opened: not running, with the error and
    /// whether the driver is present now.
    pub fn record_open_failure(&mut self, error: String, npcap_available: bool)
        ensures
            !final(self).running,
            opt_text(final(self).last_error) == Some(error@),
            final(self).npcap_available == npcap_available,
            opt_text(final(self).device_name) == opt_text(old(self).device_name),
            opt_text(final(self).session_id) == opt_text(old(self).session_id),
            final(self).started_at_unix_ms == old(self).started_at_unix_ms,
    {
        self.running = false;
        self.last_error = Some(error);
        self.npcap_available = npcap_available;
    }

    /// A capture that failed while reading: not running, with the error.
    pub fn record_capture_failure(&mut self, error: String)
        ensures
            !final(self).running,
            opt_text(final(self).last_error) == Some(error@),
            final(self).npcap_available == old(self).npcap_available,
            opt_text(final(self).device_name) == opt_text(old(self).device_name),
            opt_text(final(self).session_id) == opt_text(old(self).session_id),
            final(self).started_at_unix_ms == old(self).started_at_unix_ms,
    {
        self.running = false;
        self.last_error = Some(error);
    }

    /// A capture that was stopped: not running, everything else kept.
    pub fn record_stop(&mut self)
        ensures
            !final(self).running,
            opt_text(final(self).last_error) == opt_text(old(self).last_error),
            final(self).npcap_available == old(self).npcap_available,
            opt_text(final(self).device_name) == opt_text(old(self).device_name),
            opt_text(final(self).session_id) == opt_text(old(self).session_id),
            final(self).started_at_unix_ms == old(self).started_at_unix_ms,
    {
        self.running = false;
    }
}

/// Running counts of one capture.
#[derive(Debug, Clone, Copy, PartialEq, Eq)]
pub struct CaptureCounters {
    pub packets: u64,
    pub bytes: u64,
    pub dropped: u64,
    pub next_id: u64,
}

impl CaptureCounters {
    /// Counts of a capture that has seen nothing; packet ids start at 1.
    pub fn new() -> (counters: Self)
        ensures
            counters == (CaptureCounters { packets: 0, bytes: 0, dropped: 0, next_id: 1 }),
    {
        CaptureCounters { packets: 0, bytes: 0, dropped: 0, next_id: 1 }
    }

    /// The id of the next packet.
    pub fn take_id(&mut self) -> (id: u64)
        ensures
            id == old(self).next_id,
            final(self).next_id == old(self).next_id.wrapping_add(1),
            final(self).packets == old(self).packets,
            final(self).bytes == old(self).bytes,
            final(self).dropped == old(self).dropped,
    {
        let id = self.next_id;
        self.next_id = self.next_id.wrapping_add(1);
        id
    }

    /// Counts one captured packet of `original_length` bytes; one that did
    /// not fit the queue to the user interface also counts as dropped.
    pub fn record_packet(&mut self, original_length: u32, queued: bool)
        ensures
            final(self).packets == old(self).packets.wrapping_add(1),
            final(self).bytes == old(self).bytes.wrapping_add(original_length as u64),
            final(self).dropped == (if queued { old(self).dropped } else { old(self).dropped.wrapping_add(1) }),
            final(self).next_id == old(self).next_id,
    {
        self.packets = self.packets.wrapping_add(1);
        self.bytes = self.bytes.wrapping_add(original_length as u64);
        if !queued {
            self.dropped = self.dropped.wrapping_add(1);
        }
    }

    /// The statistics reported with a batch, with the rates measured since
    /// the previous one.
    pub fn statistics(&self, storage_dropped: u64, packets_per_second: u64, bytes_per_second: u64) -> (s: CaptureStatistics)
        ensures
            s.captured_packets == self.packets,
            s.captured_bytes == self.bytes,
            s.dropped_packets == self.dropped,
            s.storage_dropped_packets == storage_dropped,
            s.packets_per_second == packets_per_second,
            s.bytes_per_second == bytes_per_second,
    {
        CaptureStatistics {
            captured_packets: self.packets,
            captured_bytes: self.bytes,
            dropped_packets: self.dropped,
            storage_dropped_packets: storage_dropped,
            packets_per_second,
            bytes_per_second,
        }
    }
}

/// What became of a summary offered to the queue towards the user interface.
#[derive(Debug, Clone, Copy, PartialEq, Eq)]
pub enum QueueOutcome {
    /// It was queued.
    Queued,
    /// The queue was full and the summary was dropped.
    Full,
    /// Nobody receives from the queue any more.
    Closed,
}

/// One turn of the capture loop, as the loop saw it.
pub enum CaptureEvent {
    /// A packet of `original_length` bytes was read and its summary offered
    /// to the queue.
    Packet { original_length: u32, queue: QueueOutcome },
    /// No packet arrived within the read timeout.
    Nothing,
    /// The driver reported an error.
    Failure(String),
}

/// What the capture loop does next.
pub enum CaptureAction {
    /// Read again.
    Continue,
    /// Stop reading: nobody receives the summaries.
    Stop,
    /// Stop reading and report the capture as failed with this error.
    Fail(String),
}

/// Counts one turn of the capture loop and decides the next: a packet is
/// counted, and also counted as dropped when the queue was full; the loop
/// stops when the queue is closed, and fails with the driver's error.
pub fn capture_step(counters: &mut CaptureCounters, event: CaptureEvent) -> (action: CaptureAction)
    ensures
        match event {
            CaptureEvent::Packet { original_length, queue } => {
                &&& final(counters).packets == old(counters).packets.wrapping_add(1)
                &&& final(counters).bytes == old(counters).bytes.wrapping_add(original_length as u64)
                &&& final(counters).dropped == (if queue == QueueOutcome::Full {
                    old(counters).dropped.wrapping_add(1)
                } else {
                    old(counters).dropped
                })
                &&& final(counters).next_id == old(counters).next_id
                &&& (if queue == QueueOutcome::Closed { action is Stop } else { action is Continue })
            },
            CaptureEvent::Nothing => *final(counters) == *old(counters) && action is Continue,
            CaptureEvent::Failure(e) => *final(counters) == *old(counters) && (action matches CaptureAction::Fail(f)
                && f@ == e@),
        },
{
    match event {
        CaptureEvent::Packet { original_length, queue } => {
            let queued = match queue {
                QueueOutcome::Full => false,
                _ => true,
            };
            counters.record_packet(original_length, queued);
            match queue {
                QueueOutcome::Closed => CaptureAction::Stop,
                _ => CaptureAction::Continue,
            }
        },
        CaptureEvent::Nothing => CaptureAction::Continue,
        CaptureEvent::Failure(e) => CaptureAction::Fail(e),
    }
}

/// The counters after one packet of a capture: its id taken, then the
/// packet counted with what became of its summary.
pub open spec fn after_packet(c: CaptureCounters, original_length: u32, queue: QueueOutcome) -> CaptureCounters {
    CaptureCounters {
        packets: c.packets.wrapping_add(1),
        bytes: c.bytes.wrapping_add(original_length as u64),
        dropped: if queue == QueueOutcome::Full { c.dropped.wrapping_add(1) } else { c.dropped },
        next_id: c.next_id.wrapping_add(1),
    }
}

/// The counters after the packets of a capture, each given by its original
/// length and what became of its summary, in the order they were read.
pub open spec fn after_packets(c: CaptureCounters, packets: Seq<(u32, QueueOutcome)>) -> CaptureCounters
    decreases packets.len(),
{
    if packets.len() == 0 {
        c
    } else {
        after_packet(after_packets(c, packets.drop_last()), packets.last().0, packets.last().1)
    }
}

/// How many of the packets found the queue full.
pub open spec fn full_count(packets: Seq<(u32, QueueOutcome)>) -> nat
    decreases packets.len(),
{
    if packets.len() == 0 {
        0
    } else {
        full_count(packets.drop_last()) + if packets.last().1 == QueueOutcome::Full { 1nat } else { 0nat }
    }
}

/// The sum of the packets' original lengths.
pub open spec fn length_total(packets: Seq<(u32, QueueOutcome)>) -> nat
    decreases packets.len(),
{
    if packets.len() == 0 {
        0
    } else {
        length_total(packets.drop_last()) + packets.last().0 as nat
    }
}

/// One packet's turn of the capture loop, its id taken with `take_id` and
/// then counted with `capture_step`, leaves the counters as `after_packet`
/// says.
pub proof fn lemma_packet_turn(
    before: CaptureCounters,
    taken: CaptureCounters,
    after: CaptureCounters,
    original_length: u32,
    queue: QueueOutcome,
)
    requires
        taken.next_id == before.next_id.wrapping_add(1),
        taken.packets == before.packets,
        taken.bytes == before.bytes,
        taken.dropped == before.dropped,
        after.packets == taken.packets.wrapping_add(1),
        after.bytes == taken.bytes.wrapping_add(original_length as u64),
        after.dropped == (if queue == QueueOutcome::Full { taken.dropped.wrapping_add(1) } else { taken.dropped }),
        after.next_id == taken.next_id,
    ensures
        after == after_packet(before, original_length, queue),
{
}

/// Over a capture that starts from fresh counters, the packets get the ids
/// 1, 2, 3, ... in the order they are read; every packet is counted; the
/// dropped count is the number of packets that found the queue full, never
/// more than the captured count; and the byte count is the sum of the
/// original lengths (while the counts stay below their limits).
pub proof fn lemma_capture_accounting(packets: Seq<(u32, QueueOutcome)>)
    requires
        packets.len() < u64::MAX,
        length_total(packets) <= u64::MAX,
    ensures
        ({
            let fresh = CaptureCounters { packets: 0, bytes: 0, dropped: 0, next_id: 1 };
            let c = after_packets(fresh, packets);
            &&& c.packets == packets.len()
            &&& c.next_id == packets.len() + 1
            &&& c.dropped == full_count(packets)
            &&& c.dropped <= c.packets
            &&& c.bytes == length_total(packets)
            &&& forall|k: int| 0 <= k < packets.len() ==> #[trigger] after_packets(fresh, packets.take(k)).next_id == k + 1
        }),
    decreases packets.len(),
{
    let fresh = CaptureCounters { packets: 0, bytes: 0, dropped: 0, next_id: 1 };
    if packets.len() > 0 {
        let d = packets.drop_last();
        lemma_full_count_bounded(d);
        lemma_capture_accounting(d);
        assert forall|k: int| 0 <= k < packets.len() implies #[trigger] after_packets(fresh, packets.take(k)).next_id
            == k + 1 by {
            if k < d.len() {
                assert(packets.take(k) =~= d.take(k));
            } else {
                assert(packets.take(k) =~= d);
            }
        }
    }
    lemma_full_count_bounded(packets);
}

proof fn lemma_full_count_bounded(packets: Seq<(u32, QueueOutcome)>)
    ensures
        full_count(packets) <= packets.len(),
    decreases packets.len(),
{
    if packets.len() > 0 {
        lemma_full_count_bounded(packets.drop_last());
    }
}

/// A packet is only ever dropped after being counted: while the counts stay
/// below their limit, dropped packets never outnumber captured ones.
pub proof fn lemma_dropped_within_captured(before: CaptureCounters, after: CaptureCounters, original_length: u32, queued: bool)
    requires
        before.dropped <= before.packets,
        before.packets < u64::MAX,
        after.packets == before.packets.wrapping_add(1),
        after.dropped == (if queued { before.dropped } else { before.dropped.wrapping_add(1) }),
    ensures
        after.dropped <= after.packets,
        after.packets == before.packets + 1,
{
}

} // verus!
