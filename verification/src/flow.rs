//! The flow table: packets of TCP, UDP and DNS grouped into connections by
//! protocol, local and remote endpoint and owning process, with traffic
//! counted per direction, and the connection and process views built from it.

use vstd::prelude::*;

use std::collections::hash_map::DefaultHasher;
use std::collections::HashMap;
use std::hash::Hasher;

use vstd::std_specs::hash::DefaultHasherAdditionalSpecFns;

use crate::clock::unix_time_micros;
use crate::model::{
    clone_opt_text, opt_text, FlowSnapshot, FlowSnapshotView, FlowSummary, FlowSummaryView, PacketSummary,
    PacketSummaryView, ProcessTrafficSummary, ProcessTrafficView,
};
use crate::ranking::{is_ranking, min_nat, positions, rank_descending};
use crate::text::{
    bytes_lt, hex_text, is_lower_hex, lemma_hex_text_shape, owned_text, push_hex, text_port_le, text_port_le_exec,
    utf8_of,
};

verus! {

/// A flow seen within this many microseconds is active.
pub const ACTIVE_WINDOW_MICROS: u64 = 15 * 1_000_000;
/// A flow not seen for longer than this many microseconds is forgotten.
pub const RETENTION_WINDOW_MICROS: u64 = 5 * 60 * 1_000_000;
/// Most flows held at once.
pub const MAX_TRACKED_FLOWS: usize = 20_000;
/// Most flows reported in one snapshot.
pub const MAX_SNAPSHOT_FLOWS: usize = 5_000;
/// Flows kept when an overfull table is compacted: nine tenths of the limit.
pub const COMPACTED_FLOWS: usize = 18_000;

/// What identifies a connection.
pub struct FlowKey {
    pub protocol: String,
    pub local_address: String,
    pub local_port: Option<u16>,
    pub remote_address: String,
    pub remote_port: Option<u16>,
    pub process_id: Option<u32>,
}

/// Model of a [`FlowKey`].
pub struct FlowKeyView {
    pub protocol: Seq<char>,
    pub local_address: Seq<char>,
    pub local_port: Option<u16>,
    pub remote_address: Seq<char>,
    pub remote_port: Option<u16>,
    pub process_id: Option<u32>,
}

impl View for FlowKey {
    type V = FlowKeyView;

    open spec fn view(&self) -> FlowKeyView {
        FlowKeyView {
            protocol: self.protocol@,
            local_address: self.local_address@,
            local_port: self.local_port,
            remote_address: self.remote_address@,
            remote_port: self.remote_port,
            process_id: self.process_id,
        }
    }
}

/// One tracked connection.
struct FlowEntry {
    key: FlowKey,
    process_name: Option<String>,
    first_seen_micros: u64,
    last_seen_micros: u64,
    upload_packets: u64,
    download_packets: u64,
    unknown_packets: u64,
    upload_bytes: u64,
    download_bytes: u64,
    unknown_bytes: u64,
}

/// Model of one tracked connection.
pub struct FlowEntryView {
    pub key: FlowKeyView,
    pub process_name: Option<Seq<char>>,
    pub first_seen_micros: u64,
    pub last_seen_micros: u64,
    pub upload_packets: u64,
    pub download_packets: u64,
    pub unknown_packets: u64,
    pub upload_bytes: u64,
    pub download_bytes: u64,
    pub unknown_bytes: u64,
}

impl View for FlowEntry {
    type V = FlowEntryView;

    closed spec fn view(&self) -> FlowEntryView {
        FlowEntryView {
            key: self.key@,
            process_name: opt_text(self.process_name),
            first_seen_micros: self.first_seen_micros,
            last_seen_micros: self.last_seen_micros,
            upload_packets: self.upload_packets,
            download_packets: self.download_packets,
            unknown_packets: self.unknown_packets,
            upload_bytes: self.upload_bytes,
            download_bytes: self.download_bytes,
            unknown_bytes: self.unknown_bytes,
        }
    }
}

/// The protocols that form flows.
pub open spec fn is_tracked_protocol(protocol: Seq<char>) -> bool {
    protocol == "TCP"@ || protocol == "UDP"@ || protocol == "DNS"@
}

/// The connection a packet belongs to. An outbound packet's source is the
/// local end, an inbound packet's destination is; when the direction is
/// unknown, the endpoint that orders first (address bytes, then port, a
/// missing port counting as 0) is taken as local, so both directions of a
/// connection meet in one flow.
pub open spec fn flow_key_of(p: PacketSummaryView) -> FlowKeyView {
    let source_first = text_port_le(
        p.source,
        match p.source_port { Some(x) => x, None => 0u16 },
        p.destination,
        match p.destination_port { Some(x) => x, None => 0u16 },
    );
    if p.direction == "outbound"@ || (p.direction != "inbound"@ && source_first) {
        FlowKeyView {
            protocol: p.protocol,
            local_address: p.source,
            local_port: p.source_port,
            remote_address: p.destination,
            remote_port: p.destination_port,
            process_id: p.process_id,
        }
    } else {
        FlowKeyView {
            protocol: p.protocol,
            local_address: p.destination,
            local_port: p.destination_port,
            remote_address: p.source,
            remote_port: p.source_port,
            process_id: p.process_id,
        }
    }
}

/// A new flow for a key, first seen with packet `p`, with nothing counted yet.
pub open spec fn fresh_entry(key: FlowKeyView, p: PacketSummaryView) -> FlowEntryView {
    FlowEntryView {
        key,
        process_name: p.process_name,
        first_seen_micros: p.timestamp_micros,
        last_seen_micros: p.timestamp_micros,
        upload_packets: 0,
        download_packets: 0,
        unknown_packets: 0,
        upload_bytes: 0,
        download_bytes: 0,
        unknown_bytes: 0,
    }
}

/// A flow after counting packet `p`: the latest time is kept, a missing
/// process name is filled in, and the packet and its length are added to the
/// upload, download or unknown counters as its direction says.
pub open spec fn account(e: FlowEntryView, p: PacketSummaryView) -> FlowEntryView {
    let len = p.length as u64;
    let outbound = p.direction == "outbound"@;
    let inbound = p.direction == "inbound"@;
    FlowEntryView {
        key: e.key,
        process_name: if e.process_name is None && p.process_name is Some {
            p.process_name
        } else {
            e.process_name
        },
        first_seen_micros: e.first_seen_micros,
        last_seen_micros: if e.last_seen_micros >= p.timestamp_micros {
            e.last_seen_micros
        } else {
            p.timestamp_micros
        },
        upload_packets: if outbound { e.upload_packets.saturating_add(1) } else { e.upload_packets },
        upload_bytes: if outbound { e.upload_bytes.saturating_add(len) } else { e.upload_bytes },
        download_packets: if !outbound && inbound {
            e.download_packets.saturating_add(1)
        } else {
            e.download_packets
        },
        download_bytes: if !outbound && inbound {
            e.download_bytes.saturating_add(len)
        } else {
            e.download_bytes
        },
        unknown_packets: if !outbound && !inbound {
            e.unknown_packets.saturating_add(1)
        } else {
            e.unknown_packets
        },
        unknown_bytes: if !outbound && !inbound {
            e.unknown_bytes.saturating_add(len)
        } else {
            e.unknown_bytes
        },
    }
}

/// A key with its two endpoints exchanged.
pub open spec fn swapped_key(k: FlowKeyView) -> FlowKeyView {
    FlowKeyView {
        protocol: k.protocol,
        local_address: k.remote_address,
        local_port: k.remote_port,
        remote_address: k.local_address,
        remote_port: k.local_port,
        process_id: k.process_id,
    }
}

/// The connection a key stands for, whichever end it takes as local: the
/// key written with the endpoint that orders first (address bytes, then
/// port, a missing port counting as 0) in front.
pub open spec fn connection_of(k: FlowKeyView) -> FlowKeyView {
    if text_port_le(
        k.local_address,
        match k.local_port { Some(x) => x, None => 0u16 },
        k.remote_address,
        match k.remote_port { Some(x) => x, None => 0u16 },
    ) {
        k
    } else {
        swapped_key(k)
    }
}

/// No two flows stand for the same connection.
pub open spec fn distinct_connections(s: Seq<FlowEntryView>) -> bool {
    forall|i: int, j: int| 0 <= i < s.len() && 0 <= j < s.len() && i != j
        ==> connection_of(s[i].key) != connection_of(s[j].key)
}

/// Where the flow of connection `c` stands, if it is tracked.
pub open spec fn connection_position(s: Seq<FlowEntryView>, c: FlowKeyView) -> Option<int> {
    if exists|i: int| 0 <= i < s.len() && connection_of(s[i].key) == c {
        Some(choose|i: int| 0 <= i < s.len() && connection_of(s[i].key) == c)
    } else {
        None
    }
}

/// The flows after counting packet `p`, before any compaction: packets of
/// other protocols are ignored; the flow of the packet's connection, whichever
/// end it took as local, is updated in place; a new one is appended, its
/// ends as the packet's direction says.
pub open spec fn observe_entries(s: Seq<FlowEntryView>, p: PacketSummaryView) -> Seq<FlowEntryView> {
    if !is_tracked_protocol(p.protocol) {
        s
    } else {
        let key = flow_key_of(p);
        match connection_position(s, connection_of(key)) {
            Some(i) => s.update(i, account(s[i], p)),
            None => s.push(account(fresh_entry(key, p), p)),
        }
    }
}


/// Whether a flow last seen at its time is still kept at `now`.
pub open spec fn is_retained(e: FlowEntryView, now: u64) -> bool {
    now.saturating_sub(e.last_seen_micros) <= RETENTION_WINDOW_MICROS
}

/// The flows still kept at `now`, in their order.
pub open spec fn retained(s: Seq<FlowEntryView>, now: u64) -> Seq<FlowEntryView>
    decreases s.len(),
{
    if s.len() == 0 {
        s
    } else {
        let r = retained(s.drop_last(), now);
        if is_retained(s.last(), now) {
            r.push(s.last())
        } else {
            r
        }
    }
}

/// Position of the first among the least recently seen flows.
pub open spec fn oldest_index(s: Seq<FlowEntryView>) -> int
    decreases s.len(),
{
    if s.len() <= 1 {
        0
    } else {
        let j = oldest_index(s.drop_last());
        if s.last().last_seen_micros < s[j].last_seen_micros {
            s.len() - 1
        } else {
            j
        }
    }
}

/// The flows left after removing the least recently seen one `k` times.
pub open spec fn remove_oldest(s: Seq<FlowEntryView>, k: nat) -> Seq<FlowEntryView>
    decreases k,
{
    if k == 0 || s.len() == 0 {
        s
    } else {
        remove_oldest(s.remove(oldest_index(s)), (k - 1) as nat)
    }
}

/// An overfull table after compaction at `now`: flows past the retention
/// window go first; if still over the limit, the least recently seen flows
/// go until nine tenths of the limit remain.
pub open spec fn compacted(s: Seq<FlowEntryView>, now: u64) -> Seq<FlowEntryView> {
    let r = retained(s, now);
    if r.len() <= MAX_TRACKED_FLOWS {
        r
    } else {
        remove_oldest(r, (r.len() - COMPACTED_FLOWS) as nat)
    }
}

/// The flows after observing packet `p`: counted, then compacted at the
/// packet's time if the table went over the limit.
pub open spec fn observed(s: Seq<FlowEntryView>, p: PacketSummaryView) -> Seq<FlowEntryView> {
    let counted = observe_entries(s, p);
    if counted.len() > MAX_TRACKED_FLOWS {
        compacted(counted, p.timestamp_micros)
    } else {
        counted
    }
}

/// The least recently seen flow is seen no later than any other.
pub proof fn lemma_oldest_index(s: Seq<FlowEntryView>)
    requires
        s.len() > 0,
    ensures
        0 <= oldest_index(s) < s.len(),
        forall|k: int| 0 <= k < s.len() ==> s[oldest_index(s)].last_seen_micros <= #[trigger] s[k].last_seen_micros,
    decreases s.len(),
{
    if s.len() > 1 {
        let d = s.drop_last();
        lemma_oldest_index(d);
        let j = oldest_index(d);
        assert(d[j] == s[j]);
        assert forall|k: int| 0 <= k < s.len() implies s[oldest_index(s)].last_seen_micros
            <= #[trigger] s[k].last_seen_micros by {
            if k < s.len() - 1 {
                assert(d[k] == s[k]);
            }
        }
    }
}

/// Keeping the recent flows keeps a subsequence of distinct, recent flows.
pub proof fn lemma_retained(s: Seq<FlowEntryView>, now: u64)
    ensures
        retained(s, now).len() <= s.len(),
        forall|i: int| 0 <= i < retained(s, now).len() ==> s.contains(#[trigger] retained(s, now)[i]),
        forall|i: int| 0 <= i < retained(s, now).len() ==> is_retained(#[trigger] retained(s, now)[i], now),
        forall|i: int| 0 <= i < s.len() && is_retained(#[trigger] s[i], now) ==> retained(s, now).contains(s[i]),
        distinct_connections(s) ==> distinct_connections(retained(s, now)),
        (forall|i: int| 0 <= i < s.len() ==> is_retained(#[trigger] s[i], now)) ==> retained(s, now) == s,
    decreases s.len(),
{
    if s.len() > 0 {
        let d = s.drop_last();
        lemma_retained(d, now);
        let r = retained(d, now);
        assert forall|i: int| 0 <= i < retained(s, now).len() implies s.contains(#[trigger] retained(s, now)[i]) by {
            if i < r.len() {
                assert(d.contains(r[i]));
                let k = choose|k: int| 0 <= k < d.len() && d[k] == r[i];
                assert(s[k] == r[i]);
            } else {
                assert(s[s.len() - 1] == s.last());
            }
        }
        assert forall|i: int| 0 <= i < s.len() && is_retained(#[trigger] s[i], now) implies retained(s, now).contains(s[i]) by {
            if i < s.len() - 1 {
                assert(d[i] == s[i]);
                assert(r.contains(s[i]));
                let k = choose|k: int| 0 <= k < r.len() && r[k] == s[i];
                assert(retained(s, now)[k] == s[i]);
            } else {
                assert(retained(s, now)[retained(s, now).len() - 1] == s[i]);
            }
        }
        if distinct_connections(s) {
            assert(distinct_connections(d));
            if is_retained(s.last(), now) {
                assert forall|i: int| 0 <= i < r.len() implies connection_of(r[i].key) != connection_of(s.last().key) by {
                    assert(d.contains(r[i]));
                    let k = choose|k: int| 0 <= k < d.len() && d[k] == r[i];
                    assert(s[k] == r[i]);
                    assert(k != s.len() - 1);
                }
            }
        }
        if forall|i: int| 0 <= i < s.len() ==> is_retained(#[trigger] s[i], now) {
            assert forall|i: int| 0 <= i < d.len() implies is_retained(#[trigger] d[i], now) by {
                assert(d[i] == s[i]);
            }
            assert(is_retained(s[s.len() - 1], now));
            assert(s.drop_last().push(s.last()) =~= s);
        }
    }
}

/// Removing the least recently seen flows `k` times leaves `k` fewer,
/// distinct flows, each of them from the table.
pub proof fn lemma_remove_oldest(s: Seq<FlowEntryView>, k: nat)
    requires
        k <= s.len(),
    ensures
        remove_oldest(s, k).len() == s.len() - k,
        forall|i: int| 0 <= i < remove_oldest(s, k).len() ==> s.contains(#[trigger] remove_oldest(s, k)[i]),
        distinct_connections(s) ==> distinct_connections(remove_oldest(s, k)),
    decreases k,
{
    if k > 0 && s.len() > 0 {
        lemma_oldest_index(s);
        let t = s.remove(oldest_index(s));
        lemma_remove_oldest(t, (k - 1) as nat);
        let r = remove_oldest(t, (k - 1) as nat);
        assert forall|i: int| 0 <= i < r.len() implies s.contains(#[trigger] r[i]) by {
            assert(t.contains(r[i]));
            let j = choose|j: int| 0 <= j < t.len() && t[j] == r[i];
            if j < oldest_index(s) {
                assert(s[j] == r[i]);
            } else {
                assert(s[j + 1] == r[i]);
            }
        }
        if distinct_connections(s) {
            assert forall|a: int, b: int| 0 <= a < t.len() && 0 <= b < t.len() && a != b
                implies connection_of(t[a].key) != connection_of(t[b].key) by {
                let a2 = if a < oldest_index(s) { a } else { a + 1 };
                let b2 = if b < oldest_index(s) { b } else { b + 1 };
                assert(t[a] == s[a2]);
                assert(t[b] == s[b2]);
            }
        }
    }
}

/// The table never outgrows its limit and never holds a connection twice.
pub proof fn lemma_observed_bounded(s: Seq<FlowEntryView>, p: PacketSummaryView)
    requires
        distinct_connections(s),
        s.len() <= MAX_TRACKED_FLOWS,
    ensures
        distinct_connections(observed(s, p)),
        observed(s, p).len() <= MAX_TRACKED_FLOWS,
{
    let counted = observe_entries(s, p);
    if is_tracked_protocol(p.protocol) {
        let key = flow_key_of(p);
        match connection_position(s, connection_of(key)) {
            Some(i) => {
                assert(0 <= i < s.len() && connection_of(s[i].key) == connection_of(key));
                assert(counted[i].key == s[i].key);
                assert forall|a: int, b: int| 0 <= a < counted.len() && 0 <= b < counted.len() && a != b
                    implies connection_of(counted[a].key) != connection_of(counted[b].key) by {
                    assert(counted[a].key == s[a].key);
                    assert(counted[b].key == s[b].key);
                }
            },
            None => {
                assert forall|a: int| 0 <= a < s.len() implies connection_of(s[a].key) != connection_of(key) by {}
                assert forall|a: int, b: int| 0 <= a < counted.len() && 0 <= b < counted.len() && a != b
                    implies connection_of(counted[a].key) != connection_of(counted[b].key) by {
                    if a < s.len() && b < s.len() {
                        assert(counted[a] == s[a] && counted[b] == s[b]);
                    } else if a < s.len() {
                        assert(counted[a] == s[a]);
                        assert(counted[b].key == key);
                    } else {
                        assert(counted[b] == s[b]);
                        assert(counted[a].key == key);
                    }
                }
            },
        }
    }
    assert(distinct_connections(counted));
    if counted.len() > MAX_TRACKED_FLOWS {
        let now = p.timestamp_micros;
        lemma_retained(counted, now);
        let r = retained(counted, now);
        if r.len() > MAX_TRACKED_FLOWS {
            lemma_remove_oldest(r, (r.len() - COMPACTED_FLOWS) as nat);
        }
    }
}


/// Bytes hashed for an optional port: a tag, then the port little-endian.
pub open spec fn port_hash_bytes(p: Option<u16>) -> Seq<u8> {
    match p {
        Some(x) => seq![1u8, (x % 256) as u8, (x / 256) as u8],
        None => seq![0u8],
    }
}

/// Bytes hashed for an optional process id: a tag, then the id little-endian.
pub open spec fn pid_hash_bytes(p: Option<u32>) -> Seq<u8> {
    match p {
        Some(x) => seq![1u8, (x % 256) as u8, ((x / 256) % 256) as u8, ((x / 65536) % 256) as u8, (x / 16777216) as u8],
        None => seq![0u8],
    }
}

/// What is written to the hasher for a flow key, field by field; each text
/// is followed by a 0xff byte, as `str` hashing does.
pub open spec fn flow_hash_input(k: FlowKeyView) -> Seq<Seq<u8>> {
    seq![
        utf8_of(k.protocol), seq![0xffu8],
        utf8_of(k.local_address), seq![0xffu8], port_hash_bytes(k.local_port),
        utf8_of(k.remote_address), seq![0xffu8], port_hash_bytes(k.remote_port),
        pid_hash_bytes(k.process_id),
    ]
}

/// The identifier of a flow: sixteen lower-case hexadecimal digits of the
/// default hasher's digest of its key. It depends on the key alone.
pub open spec fn flow_id_text(k: FlowKeyView) -> Seq<char> {
    hex_text(DefaultHasher::spec_finish(flow_hash_input(k)) as nat, 16)
}

/// "active" for a flow seen within the active window before `now`, else
/// "recent".
pub open spec fn flow_state_text(last_seen_micros: u64, now: u64) -> Seq<char> {
    if now.saturating_sub(last_seen_micros) <= ACTIVE_WINDOW_MICROS {
        "active"@
    } else {
        "recent"@
    }
}

/// How a tracked flow is reported at `now`.
pub open spec fn flow_summary_of(e: FlowEntryView, now: u64) -> FlowSummaryView {
    FlowSummaryView {
        id: flow_id_text(e.key),
        protocol: e.key.protocol,
        local_address: e.key.local_address,
        local_port: e.key.local_port,
        remote_address: e.key.remote_address,
        remote_port: e.key.remote_port,
        process_id: e.key.process_id,
        process_name: e.process_name,
        first_seen_micros: e.first_seen_micros,
        last_seen_micros: e.last_seen_micros,
        state: flow_state_text(e.last_seen_micros, now),
        upload_packets: e.upload_packets,
        download_packets: e.download_packets,
        unknown_packets: e.unknown_packets,
        upload_bytes: e.upload_bytes,
        download_bytes: e.download_bytes,
        unknown_bytes: e.unknown_bytes,
    }
}

/// Name under which connections of an unnamed process are grouped.
pub open spec fn unidentified_process() -> Seq<char> {
    "未识别进程"@
}

/// The process name a flow is grouped under.
pub open spec fn group_name(f: FlowSummaryView) -> Seq<char> {
    match f.process_name {
        Some(n) => n,
        None => unidentified_process(),
    }
}

/// Where the group of a process id and name stands, if present.
pub open spec fn group_position(g: Seq<ProcessTrafficView>, pid: Option<u32>, name: Seq<char>) -> Option<int> {
    if exists|i: int| 0 <= i < g.len() && g[i].process_id == pid && g[i].process_name == name {
        Some(choose|i: int| 0 <= i < g.len() && g[i].process_id == pid && g[i].process_name == name)
    } else {
        None
    }
}

/// No two groups share a process id and name.
pub open spec fn distinct_groups(g: Seq<ProcessTrafficView>) -> bool {
    forall|i: int, j: int| 0 <= i < g.len() && 0 <= j < g.len() && i != j ==>
        !(g[i].process_id == g[j].process_id && g[i].process_name == g[j].process_name)
}

/// A process group with no connections yet.
pub open spec fn empty_group(pid: Option<u32>, name: Seq<char>) -> ProcessTrafficView {
    ProcessTrafficView {
        process_id: pid,
        process_name: name,
        connection_count: 0,
        active_connection_count: 0,
        upload_packets: 0,
        download_packets: 0,
        unknown_packets: 0,
        upload_bytes: 0,
        download_bytes: 0,
        unknown_bytes: 0,
        last_seen_micros: 0,
    }
}

/// A process group after adding one of its connections: one more
/// connection (and active one, if it is), its counters added with
/// saturation, the latest time kept.
pub open spec fn add_flow(p: ProcessTrafficView, f: FlowSummaryView) -> ProcessTrafficView {
    ProcessTrafficView {
        process_id: p.process_id,
        process_name: p.process_name,
        connection_count: p.connection_count.saturating_add(1),
        active_connection_count: if f.state == "active"@ {
            p.active_connection_count.saturating_add(1)
        } else {
            p.active_connection_count
        },
        upload_packets: p.upload_packets.saturating_add(f.upload_packets),
        download_packets: p.download_packets.saturating_add(f.download_packets),
        unknown_packets: p.unknown_packets.saturating_add(f.unknown_packets),
        upload_bytes: p.upload_bytes.saturating_add(f.upload_bytes),
        download_bytes: p.download_bytes.saturating_add(f.download_bytes),
        unknown_bytes: p.unknown_bytes.saturating_add(f.unknown_bytes),
        last_seen_micros: if p.last_seen_micros >= f.last_seen_micros {
            p.last_seen_micros
        } else {
            f.last_seen_micros
        },
    }
}

/// The connections of a flow list grouped by process id and name, groups in
/// order of their first connection.
pub open spec fn process_groups(flows: Seq<FlowSummaryView>) -> Seq<ProcessTrafficView>
    decreases flows.len(),
{
    if flows.len() == 0 {
        Seq::empty()
    } else {
        let g = process_groups(flows.drop_last());
        let f = flows.last();
        match group_position(g, f.process_id, group_name(f)) {
            Some(k) => g.update(k, add_flow(g[k], f)),
            None => g.push(add_flow(empty_group(f.process_id, group_name(f)), f)),
        }
    }
}

/// A quantity a process group reports about its connections.
pub enum GroupCounter {
    Connections,
    ActiveConnections,
    UploadPackets,
    DownloadPackets,
    UnknownPackets,
    UploadBytes,
    DownloadBytes,
    UnknownBytes,
    LastSeen,
}

/// What one reported flow contributes to a quantity: one connection, one
/// active connection if it is active, its counters, its last-seen time.
pub open spec fn flow_amount(f: FlowSummaryView, c: GroupCounter) -> u64 {
    match c {
        GroupCounter::Connections => 1,
        GroupCounter::ActiveConnections => if f.state == "active"@ { 1 } else { 0 },
        GroupCounter::UploadPackets => f.upload_packets,
        GroupCounter::DownloadPackets => f.download_packets,
        GroupCounter::UnknownPackets => f.unknown_packets,
        GroupCounter::UploadBytes => f.upload_bytes,
        GroupCounter::DownloadBytes => f.download_bytes,
        GroupCounter::UnknownBytes => f.unknown_bytes,
        GroupCounter::LastSeen => f.last_seen_micros,
    }
}

/// The value of a quantity that a process group reports.
pub open spec fn group_amount(g: ProcessTrafficView, c: GroupCounter) -> u64 {
    match c {
        GroupCounter::Connections => g.connection_count,
        GroupCounter::ActiveConnections => g.active_connection_count,
        GroupCounter::UploadPackets => g.upload_packets,
        GroupCounter::DownloadPackets => g.download_packets,
        GroupCounter::UnknownPackets => g.unknown_packets,
        GroupCounter::UploadBytes => g.upload_bytes,
        GroupCounter::DownloadBytes => g.download_bytes,
        GroupCounter::UnknownBytes => g.unknown_bytes,
        GroupCounter::LastSeen => g.last_seen_micros,
    }
}

/// Whether a reported flow belongs to the process of id `pid` and name
/// `name`: same id, and same name, a flow without one counting as the
/// unidentified process.
pub open spec fn grouped_under(f: FlowSummaryView, pid: Option<u32>, name: Seq<char>) -> bool {
    &&& f.process_id == pid
    &&& match f.process_name {
        Some(n) => n == name,
        None => name == "未识别进程"@,
    }
}

/// A quantity over the flows of one process: the latest last-seen time,
/// and for the others the sum with saturation (0 for no flows).
pub open spec fn total_over(flows: Seq<FlowSummaryView>, pid: Option<u32>, name: Seq<char>, c: GroupCounter) -> u64
    decreases flows.len(),
{
    if flows.len() == 0 {
        0
    } else {
        let rest = total_over(flows.drop_last(), pid, name, c);
        let f = flows.last();
        if !grouped_under(f, pid, name) {
            rest
        } else {
            match c {
                GroupCounter::LastSeen => if rest >= flow_amount(f, c) { rest } else { flow_amount(f, c) },
                _ => rest.saturating_add(flow_amount(f, c)),
            }
        }
    }
}

proof fn lemma_total_over_none(flows: Seq<FlowSummaryView>, pid: Option<u32>, name: Seq<char>, c: GroupCounter)
    requires
        forall|j: int| 0 <= j < flows.len() ==> !grouped_under(#[trigger] flows[j], pid, name),
    ensures
        total_over(flows, pid, name, c) == 0,
    decreases flows.len(),
{
    if flows.len() > 0 {
        let d = flows.drop_last();
        assert forall|j: int| 0 <= j < d.len() implies !grouped_under(#[trigger] d[j], pid, name) by {
            assert(d[j] == flows[j]);
        }
        lemma_total_over_none(d, pid, name, c);
        assert(!grouped_under(flows[flows.len() - 1], pid, name));
    }
}

/// Each process group reports, for every quantity, exactly that quantity
/// over the reported flows of its process id and name: its connections,
/// its active connections, the saturating sums of their packet and byte
/// counters in each direction, and their latest last-seen time. No two
/// groups share a process, and every flow belongs to a group.
pub proof fn lemma_process_group_totals(flows: Seq<FlowSummaryView>)
    ensures
        distinct_groups(process_groups(flows)),
        forall|k: int, c: GroupCounter| 0 <= k < process_groups(flows).len() ==> #[trigger] group_amount(
            process_groups(flows)[k],
            c,
        ) == total_over(flows, process_groups(flows)[k].process_id, process_groups(flows)[k].process_name, c),
        forall|j: int| 0 <= j < flows.len() ==> exists|k: int| 0 <= k < process_groups(flows).len()
            && grouped_under(#[trigger] flows[j], process_groups(flows)[k].process_id, process_groups(flows)[k].process_name),
    decreases flows.len(),
{
    if flows.len() > 0 {
        let d = flows.drop_last();
        let f = flows.last();
        let g = process_groups(d);
        lemma_process_group_totals(d);
        let gn = group_name(f);
        assert(grouped_under(f, f.process_id, gn));
        assert forall|pid: Option<u32>, name: Seq<char>| grouped_under(f, pid, name) implies pid == f.process_id
            && name == gn by {}
        let r = process_groups(flows);
        match group_position(g, f.process_id, gn) {
            Some(k0) => {
                assert(0 <= k0 < g.len() && g[k0].process_id == f.process_id && g[k0].process_name == gn);
                assert(r == g.update(k0, add_flow(g[k0], f)));
                assert forall|k: int, c: GroupCounter| 0 <= k < r.len() implies #[trigger] group_amount(r[k], c)
                    == total_over(flows, r[k].process_id, r[k].process_name, c) by {
                    assert(group_amount(g[k], c) == total_over(d, g[k].process_id, g[k].process_name, c));
                    if k == k0 {
                        assert(r[k].process_id == g[k].process_id && r[k].process_name == g[k].process_name);
                    } else {
                        assert(r[k] == g[k]);
                        assert(!grouped_under(f, g[k].process_id, g[k].process_name));
                    }
                }
                assert forall|j: int| 0 <= j < flows.len() implies exists|k: int| 0 <= k < r.len()
                    && grouped_under(#[trigger] flows[j], r[k].process_id, r[k].process_name) by {
                    if j < d.len() {
                        assert(flows[j] == d[j]);
                        let k = choose|k: int| 0 <= k < g.len() && grouped_under(d[j], g[k].process_id, g[k].process_name);
                        assert(r[k].process_id == g[k].process_id && r[k].process_name == g[k].process_name);
                    } else {
                        assert(flows[j] == f);
                        assert(grouped_under(flows[j], r[k0].process_id, r[k0].process_name));
                    }
                }
            },
            None => {
                assert forall|k: int| 0 <= k < g.len() implies !(g[k].process_id == f.process_id
                    && g[k].process_name == gn) by {}
                assert(r == g.push(add_flow(empty_group(f.process_id, gn), f)));
                assert forall|j: int| 0 <= j < d.len() implies !grouped_under(#[trigger] d[j], f.process_id, gn) by {
                    let k = choose|k: int| 0 <= k < g.len() && grouped_under(d[j], g[k].process_id, g[k].process_name);
                    if grouped_under(d[j], f.process_id, gn) {
                        assert(g[k].process_id == f.process_id);
                        assert(g[k].process_name == gn);
                    }
                }
                assert forall|k: int, c: GroupCounter| 0 <= k < r.len() implies #[trigger] group_amount(r[k], c)
                    == total_over(flows, r[k].process_id, r[k].process_name, c) by {
                    if k < g.len() {
                        assert(r[k] == g[k]);
                        assert(group_amount(g[k], c) == total_over(d, g[k].process_id, g[k].process_name, c));
                        assert(!grouped_under(f, g[k].process_id, g[k].process_name));
                    } else {
                        lemma_total_over_none(d, f.process_id, gn, c);
                    }
                }
                assert forall|j: int| 0 <= j < flows.len() implies exists|k: int| 0 <= k < r.len()
                    && grouped_under(#[trigger] flows[j], r[k].process_id, r[k].process_name) by {
                    if j < d.len() {
                        assert(flows[j] == d[j]);
                        let k = choose|k: int| 0 <= k < g.len() && grouped_under(d[j], g[k].process_id, g[k].process_name);
                        assert(r[k] == g[k]);
                    } else {
                        assert(flows[j] == f);
                        assert(grouped_under(flows[j], r[g.len() as int].process_id, r[g.len() as int].process_name));
                    }
                }
            },
        }
    }
}

/// All bytes of a process, in every direction, with saturation.
pub open spec fn process_total(p: ProcessTrafficView) -> u64 {
    p.upload_bytes.saturating_add(p.download_bytes).saturating_add(p.unknown_bytes)
}

/// The totals of process groups.
pub open spec fn process_totals(g: Seq<ProcessTrafficView>) -> Seq<u64> {
    g.map_values(|p: ProcessTrafficView| process_total(p))
}

/// The last-seen times of flows.
pub open spec fn last_seen_keys(s: Seq<FlowEntryView>) -> Seq<u64> {
    s.map_values(|e: FlowEntryView| e.last_seen_micros)
}

/// What a snapshot at `now` of the flows `before` reports: its time, the
/// number of flows kept, the most recently seen ones (at most the snapshot
/// limit, latest first, earlier-tracked first among equals), and the
/// processes of those flows, busiest first, earlier group first among equals.
pub open spec fn snapshot_of(before: Seq<FlowEntryView>, now: u64, r: FlowSnapshotView) -> bool {
    let kept = retained(before, now);
    let groups = process_groups(r.flows);
    &&& r.generated_at_micros == now
    &&& r.tracked_flow_count == kept.len()
    &&& exists|order: Seq<int>|
        is_ranking(last_seen_keys(kept), order, min_nat(MAX_SNAPSHOT_FLOWS as nat, kept.len()))
            && r.flows == order.map_values(|i: int| flow_summary_of(kept[i], now))
    &&& exists|order: Seq<int>|
        is_ranking(process_totals(groups), order, groups.len())
            && r.processes == order.map_values(|i: int| groups[i])
}


/// Byte-wise order is a strict total order: never both ways, and one way
/// between different sequences.
pub proof fn lemma_bytes_lt_total(a: Seq<u8>, b: Seq<u8>)
    ensures
        !(bytes_lt(a, b) && bytes_lt(b, a)),
        a != b ==> bytes_lt(a, b) || bytes_lt(b, a),
        !bytes_lt(a, a),
    decreases a.len(),
{
    if a.len() > 0 && b.len() > 0 {
        lemma_bytes_lt_total(a.drop_first(), b.drop_first());
        if a[0] == b[0] && a != b {
            assert(a =~= seq![a[0]] + a.drop_first());
            assert(b =~= seq![b[0]] + b.drop_first());
        }
    } else if a.len() > 0 || b.len() > 0 {
    } else {
        assert(a =~= b);
    }
    if a.len() > 0 {
        lemma_bytes_lt_total(a.drop_first(), a.drop_first());
    }
}

/// Both directions of one connection meet in one flow: an outbound packet
/// and an inbound packet between the same endpoints, swapped, of the same
/// protocol and process, have the same key.
pub proof fn lemma_directions_share_flow(outgoing: PacketSummaryView, incoming: PacketSummaryView)
    requires
        outgoing.direction == "outbound"@,
        incoming.direction == "inbound"@,
        incoming.source == outgoing.destination,
        incoming.destination == outgoing.source,
        incoming.source_port == outgoing.destination_port,
        incoming.destination_port == outgoing.source_port,
        incoming.protocol == outgoing.protocol,
        incoming.process_id == outgoing.process_id,
    ensures
        flow_key_of(outgoing) == flow_key_of(incoming),
{
    reveal_strlit("outbound");
    reveal_strlit("inbound");
    assert("outbound"@ != "inbound"@) by {
        assert("outbound"@[0] != "inbound"@[0]);
    }
}

/// Without a known direction, the two directions of a connection still meet
/// in one flow: swapping source and destination (with their ports) leaves
/// the key unchanged. The one exception, excluded here, is a packet whose
/// two endpoints have the same address and differ only in one port being
/// missing and the other being 0.
pub proof fn lemma_unknown_direction_symmetric(p: PacketSummaryView, q: PacketSummaryView)
    requires
        p.direction != "outbound"@,
        p.direction != "inbound"@,
        q.direction == p.direction,
        q.source == p.destination,
        q.destination == p.source,
        q.source_port == p.destination_port,
        q.destination_port == p.source_port,
        q.protocol == p.protocol,
        q.process_id == p.process_id,
        !(p.source == p.destination && p.source_port != p.destination_port
            && (match p.source_port { Some(x) => x, None => 0u16 })
            == (match p.destination_port { Some(x) => x, None => 0u16 })),
    ensures
        flow_key_of(p) == flow_key_of(q),
{
    broadcast use vstd::utf8::encode_utf8_decode_utf8;

    lemma_bytes_lt_total(utf8_of(p.source), utf8_of(p.destination));
    if utf8_of(p.source) == utf8_of(p.destination) {
        assert(vstd::utf8::decode_utf8(utf8_of(p.source)) == p.source);
        assert(vstd::utf8::decode_utf8(utf8_of(p.destination)) == p.destination);
    }
}

/// Whether a key's two endpoints have the same address and differ only in
/// one port being missing and the other being 0: the one shape whose two
/// orientations order alike.
pub open spec fn ambiguous_endpoints(k: FlowKeyView) -> bool {
    k.local_address == k.remote_address && k.local_port != k.remote_port
        && (match k.local_port { Some(x) => x, None => 0u16 })
        == (match k.remote_port { Some(x) => x, None => 0u16 })
}

/// Exchanging a key's endpoints leaves its connection unchanged, but for
/// the ambiguous shape.
pub proof fn lemma_connection_of_swapped(k: FlowKeyView)
    requires
        !ambiguous_endpoints(k),
    ensures
        connection_of(swapped_key(k)) == connection_of(k),
{
    broadcast use vstd::utf8::encode_utf8_decode_utf8;

    lemma_bytes_lt_total(utf8_of(k.local_address), utf8_of(k.remote_address));
    if utf8_of(k.local_address) == utf8_of(k.remote_address) {
        assert(vstd::utf8::decode_utf8(utf8_of(k.local_address)) == k.local_address);
        assert(vstd::utf8::decode_utf8(utf8_of(k.remote_address)) == k.remote_address);
    }
    assert(swapped_key(swapped_key(k)) == k);
}

/// Packets between the same two endpoints, in either order, of the same
/// protocol and process, belong to one connection whatever direction each
/// is labelled with, so they are counted in one flow. Excluded is the
/// ambiguous shape of endpoints.
pub proof fn lemma_endpoints_share_connection(p: PacketSummaryView, q: PacketSummaryView)
    requires
        q.protocol == p.protocol,
        q.process_id == p.process_id,
        (q.source == p.source && q.source_port == p.source_port && q.destination == p.destination
            && q.destination_port == p.destination_port) || (q.source == p.destination
            && q.source_port == p.destination_port && q.destination == p.source
            && q.destination_port == p.source_port),
        !ambiguous_endpoints(flow_key_of(p)),
    ensures
        connection_of(flow_key_of(p)) == connection_of(flow_key_of(q)),
{
    let k = flow_key_of(p);
    let forward = FlowKeyView {
        protocol: p.protocol,
        local_address: p.source,
        local_port: p.source_port,
        remote_address: p.destination,
        remote_port: p.destination_port,
        process_id: p.process_id,
    };
    assert(k == forward || k == swapped_key(forward));
    assert(flow_key_of(q) == forward || flow_key_of(q) == swapped_key(forward));
    assert(swapped_key(swapped_key(forward)) == forward);
    assert(!ambiguous_endpoints(forward));
    lemma_connection_of_swapped(forward);
}

/// Each packet counted into a flow is counted once, in exactly one of the
/// upload, download and unknown counters, with its length added to the
/// matching byte counter (while the counters are below their limit).
pub proof fn lemma_packet_counted_once(e: FlowEntryView, p: PacketSummaryView)
    requires
        e.upload_packets < u64::MAX,
        e.download_packets < u64::MAX,
        e.unknown_packets < u64::MAX,
        e.upload_bytes + p.length <= u64::MAX,
        e.download_bytes + p.length <= u64::MAX,
        e.unknown_bytes + p.length <= u64::MAX,
    ensures
        ({
            let a = account(e, p);
            &&& a.upload_packets + a.download_packets + a.unknown_packets
                == e.upload_packets + e.download_packets + e.unknown_packets + 1
            &&& a.upload_bytes + a.download_bytes + a.unknown_bytes
                == e.upload_bytes + e.download_bytes + e.unknown_bytes + p.length
            &&& a.key == e.key
            &&& a.first_seen_micros == e.first_seen_micros
        }),
{
}

/// The flow a packet is counted into, as it stands before the packet: the
/// tracked flow of its connection, else a new flow for its key.
pub open spec fn flow_before(s: Seq<FlowEntryView>, p: PacketSummaryView) -> FlowEntryView {
    match connection_position(s, connection_of(flow_key_of(p))) {
        Some(k) => s[k],
        None => fresh_entry(flow_key_of(p), p),
    }
}

/// Where the flow a packet is counted into stands: that of its connection,
/// else just after the tracked flows.
pub open spec fn flow_index(s: Seq<FlowEntryView>, p: PacketSummaryView) -> int {
    match connection_position(s, connection_of(flow_key_of(p))) {
        Some(k) => k,
        None => s.len() as int,
    }
}

/// Observing a packet of a tracked protocol, when the table does not
/// overflow, counts it into the flow of its connection and changes no other
/// flow.
pub proof fn lemma_observe_counts_into_flow(s: Seq<FlowEntryView>, p: PacketSummaryView)
    requires
        distinct_connections(s),
        s.len() <= MAX_TRACKED_FLOWS,
        is_tracked_protocol(p.protocol),
        observe_entries(s, p).len() <= MAX_TRACKED_FLOWS,
    ensures
        ({
            let s1 = observed(s, p);
            let i = flow_index(s, p);
            &&& 0 <= i < s1.len()
            &&& s1[i] == account(flow_before(s, p), p)
            &&& connection_of(s1[i].key) == connection_of(flow_key_of(p))
            &&& distinct_connections(s1)
            &&& s1.len() <= MAX_TRACKED_FLOWS
            &&& forall|j: int| 0 <= j < s.len() && j != i ==> s1[j] == s[j]
        }),
{
    lemma_observed_bounded(s, p);
    let c = connection_of(flow_key_of(p));
    match connection_position(s, c) {
        Some(k) => {
            assert(0 <= k < s.len() && connection_of(s[k].key) == c);
        },
        None => {},
    }
}

/// A packet whose connection is that of the packet observed before it, when
/// the table did not overflow, is counted into the same flow, and no flow
/// is added.
pub proof fn lemma_same_connection_same_flow(s: Seq<FlowEntryView>, p: PacketSummaryView, q: PacketSummaryView)
    requires
        distinct_connections(s),
        s.len() <= MAX_TRACKED_FLOWS,
        is_tracked_protocol(p.protocol),
        q.protocol == p.protocol,
        connection_of(flow_key_of(q)) == connection_of(flow_key_of(p)),
        observe_entries(s, p).len() <= MAX_TRACKED_FLOWS,
    ensures
        ({
            let s1 = observed(s, p);
            let i = flow_index(s, p);
            &&& flow_index(s1, q) == i
            &&& flow_before(s1, q) == s1[i]
            &&& observed(s1, q) == s1.update(i, account(s1[i], q))
        }),
{
    lemma_observe_counts_into_flow(s, p);
    let s1 = observed(s, p);
    let i = flow_index(s, p);
    let c = connection_of(flow_key_of(p));
    assert(exists|j: int| 0 <= j < s1.len() && connection_of(s1[j].key) == c) by {
        assert(0 <= i < s1.len() && connection_of(s1[i].key) == c);
    }
    let w = choose|j: int| 0 <= j < s1.len() && connection_of(s1[j].key) == c;
    assert(w == i) by {
        if w != i {
            assert(connection_of(s1[w].key) != connection_of(s1[i].key));
        }
    }
    assert(connection_position(s1, c) == Some(i));
}

/// Both directions of a connection are counted in one flow: after an
/// outbound packet, the inbound packet between the same endpoints, swapped,
/// of the same protocol and process, adds no flow and counts as download in
/// the flow that counted the outbound one as upload, leaving the other
/// counters as they were (when the table does not overflow).
pub proof fn lemma_reply_counted_in_flow(s: Seq<FlowEntryView>, p: PacketSummaryView, q: PacketSummaryView)
    requires
        distinct_connections(s),
        s.len() <= MAX_TRACKED_FLOWS,
        is_tracked_protocol(p.protocol),
        p.direction == "outbound"@,
        q.direction == "inbound"@,
        q.source == p.destination,
        q.destination == p.source,
        q.source_port == p.destination_port,
        q.destination_port == p.source_port,
        q.protocol == p.protocol,
        q.process_id == p.process_id,
        observe_entries(s, p).len() <= MAX_TRACKED_FLOWS,
    ensures
        ({
            let e = flow_before(s, p);
            let s1 = observed(s, p);
            let i = flow_index(s, p);
            let s2 = observed(s1, q);
            &&& s1[i].upload_packets == e.upload_packets.saturating_add(1)
            &&& s1[i].upload_bytes == e.upload_bytes.saturating_add(p.length as u64)
            &&& s1[i].download_packets == e.download_packets && s1[i].download_bytes == e.download_bytes
            &&& s1[i].unknown_packets == e.unknown_packets && s1[i].unknown_bytes == e.unknown_bytes
            &&& s2.len() == s1.len()
            &&& forall|j: int| 0 <= j < s1.len() && j != i ==> s2[j] == s1[j]
            &&& s2[i].key == s1[i].key
            &&& s2[i].download_packets == s1[i].download_packets.saturating_add(1)
            &&& s2[i].download_bytes == s1[i].download_bytes.saturating_add(q.length as u64)
            &&& s2[i].upload_packets == s1[i].upload_packets && s2[i].upload_bytes == s1[i].upload_bytes
            &&& s2[i].unknown_packets == s1[i].unknown_packets && s2[i].unknown_bytes == s1[i].unknown_bytes
        }),
{
    lemma_directions_share_flow(p, q);
    lemma_same_connection_same_flow(s, p, q);
    lemma_observe_counts_into_flow(s, p);
    reveal_strlit("outbound");
    reveal_strlit("inbound");
    assert("outbound"@ != "inbound"@) by {
        assert("outbound"@[0] != "inbound"@[0]);
    }
}

/// Packets of unknown direction are counted symmetrically: a packet and the
/// packet between the same endpoints, swapped, of the same protocol,
/// process and direction, are counted in one flow, each adding to its
/// unknown counters and to no other, and no flow is added for the second
/// (when the table does not overflow). A flow they open is keyed with the
/// end that orders first (address bytes, then port, a missing port counting
/// as 0) as local. Excluded is the ambiguous shape of endpoints, where the
/// two orders tie.
pub proof fn lemma_unknown_counted_symmetrically(s: Seq<FlowEntryView>, p: PacketSummaryView, q: PacketSummaryView)
    requires
        distinct_connections(s),
        s.len() <= MAX_TRACKED_FLOWS,
        is_tracked_protocol(p.protocol),
        p.direction != "outbound"@,
        p.direction != "inbound"@,
        q.direction == p.direction,
        q.source == p.destination,
        q.destination == p.source,
        q.source_port == p.destination_port,
        q.destination_port == p.source_port,
        q.protocol == p.protocol,
        q.process_id == p.process_id,
        !ambiguous_endpoints(flow_key_of(p)),
        observe_entries(s, p).len() <= MAX_TRACKED_FLOWS,
    ensures
        ({
            let e = flow_before(s, p);
            let s1 = observed(s, p);
            let i = flow_index(s, p);
            let s2 = observed(s1, q);
            &&& s1[i].unknown_packets == e.unknown_packets.saturating_add(1)
            &&& s1[i].unknown_bytes == e.unknown_bytes.saturating_add(p.length as u64)
            &&& s1[i].upload_packets == e.upload_packets && s1[i].upload_bytes == e.upload_bytes
            &&& s1[i].download_packets == e.download_packets && s1[i].download_bytes == e.download_bytes
            &&& s2.len() == s1.len()
            &&& forall|j: int| 0 <= j < s1.len() && j != i ==> s2[j] == s1[j]
            &&& s2[i].key == s1[i].key
            &&& s2[i].unknown_packets == s1[i].unknown_packets.saturating_add(1)
            &&& s2[i].unknown_bytes == s1[i].unknown_bytes.saturating_add(q.length as u64)
            &&& s2[i].upload_packets == s1[i].upload_packets && s2[i].upload_bytes == s1[i].upload_bytes
            &&& s2[i].download_packets == s1[i].download_packets && s2[i].download_bytes == s1[i].download_bytes
            &&& connection_position(s, connection_of(flow_key_of(p))) is None ==> {
                let k = s1[i].key;
                &&& k == flow_key_of(p)
                &&& text_port_le(
                    k.local_address,
                    match k.local_port { Some(x) => x, None => 0u16 },
                    k.remote_address,
                    match k.remote_port { Some(x) => x, None => 0u16 },
                )
            }
        }),
{
    lemma_unknown_direction_symmetric(p, q);
    lemma_same_connection_same_flow(s, p, q);
    lemma_observe_counts_into_flow(s, p);
    lemma_bytes_lt_total(utf8_of(p.source), utf8_of(p.destination));
}

/// The protocols that form flows are exactly TCP, UDP and DNS: observing a
/// packet of any other protocol leaves the table as it was, and observing
/// one of these three (when the table does not overflow) counts the packet
/// into the flow of its connection.
pub proof fn lemma_tracked_protocols(s: Seq<FlowEntryView>, p: PacketSummaryView)
    requires
        distinct_connections(s),
        s.len() <= MAX_TRACKED_FLOWS,
    ensures
        !(p.protocol == "TCP"@ || p.protocol == "UDP"@ || p.protocol == "DNS"@) ==> observed(s, p) == s,
        (p.protocol == "TCP"@ || p.protocol == "UDP"@ || p.protocol == "DNS"@) && observe_entries(s, p).len()
            <= MAX_TRACKED_FLOWS ==> ({
            let i = flow_index(s, p);
            &&& 0 <= i < observed(s, p).len()
            &&& observed(s, p)[i] == account(flow_before(s, p), p)
            &&& connection_of(observed(s, p)[i].key) == connection_of(flow_key_of(p))
        }),
{
    if p.protocol == "TCP"@ || p.protocol == "UDP"@ || p.protocol == "DNS"@ {
        if observe_entries(s, p).len() <= MAX_TRACKED_FLOWS {
            lemma_observe_counts_into_flow(s, p);
        }
    }
}

/// Traffic of unknown direction is never counted as upload or download:
/// after observing such a packet, every flow has the upload and download
/// counts it had before, or none if it is new.
pub proof fn lemma_unknown_direction_not_counted(s: Seq<FlowEntryView>, p: PacketSummaryView)
    requires
        distinct_connections(s),
        s.len() <= MAX_TRACKED_FLOWS,
        p.direction != "outbound"@,
        p.direction != "inbound"@,
    ensures
        forall|f: FlowEntryView| #[trigger] observed(s, p).contains(f) ==> (
            (exists|j: int| 0 <= j < s.len() && s[j].key == f.key && s[j].upload_packets == f.upload_packets
                && s[j].upload_bytes == f.upload_bytes && s[j].download_packets == f.download_packets
                && s[j].download_bytes == f.download_bytes)
            || (f.upload_packets == 0 && f.upload_bytes == 0 && f.download_packets == 0 && f.download_bytes == 0)),
{
    let counted = observe_entries(s, p);
    // every flow counted is an old flow, an old flow updated without
    // upload or download, or a new flow with neither
    assert forall|f: FlowEntryView| #[trigger] counted.contains(f) implies (
        (exists|j: int| 0 <= j < s.len() && s[j].key == f.key && s[j].upload_packets == f.upload_packets
            && s[j].upload_bytes == f.upload_bytes && s[j].download_packets == f.download_packets
            && s[j].download_bytes == f.download_bytes)
        || (f.upload_packets == 0 && f.upload_bytes == 0 && f.download_packets == 0 && f.download_bytes == 0)) by {
        let i = choose|i: int| 0 <= i < counted.len() && counted[i] == f;
        if is_tracked_protocol(p.protocol) {
            let key = flow_key_of(p);
            match connection_position(s, connection_of(key)) {
                Some(k) => {
                    assert(0 <= k < s.len() && connection_of(s[k].key) == connection_of(key));
                    assert(s[i].key == f.key);
                },
                None => {
                    if i < s.len() {
                        assert(s[i] == f);
                    }
                },
            }
        } else {
            assert(s[i] == f);
        }
    }
    if counted.len() > MAX_TRACKED_FLOWS {
        let now = p.timestamp_micros;
        lemma_retained(counted, now);
        let r = retained(counted, now);
        assert forall|f: FlowEntryView| #[trigger] r.contains(f) implies counted.contains(f) by {
            let i = choose|i: int| 0 <= i < r.len() && r[i] == f;
            assert(counted.contains(r[i]));
        }
        if r.len() > MAX_TRACKED_FLOWS {
            let k = (r.len() - COMPACTED_FLOWS) as nat;
            lemma_remove_oldest(r, k);
            assert forall|f: FlowEntryView| #[trigger] remove_oldest(r, k).contains(f) implies r.contains(f) by {
                let i = choose|i: int| 0 <= i < remove_oldest(r, k).len() && remove_oldest(r, k)[i] == f;
                assert(r.contains(remove_oldest(r, k)[i]));
            }
        }
    }
}

/// Compaction removes the least recently seen flows: every flow it removes
/// was seen no later than every flow it keeps.
pub proof fn lemma_remove_oldest_keeps_recent(s: Seq<FlowEntryView>, k: nat)
    requires
        k <= s.len(),
    ensures
        forall|x: FlowEntryView, y: FlowEntryView|
            #[trigger] s.contains(x) && !remove_oldest(s, k).contains(x) && #[trigger] remove_oldest(s, k).contains(y)
                ==> x.last_seen_micros <= y.last_seen_micros,
    decreases k,
{
    if k > 0 && s.len() > 0 {
        lemma_oldest_index(s);
        let m = oldest_index(s);
        let t = s.remove(m);
        lemma_remove_oldest_keeps_recent(t, (k - 1) as nat);
        lemma_remove_oldest(t, (k - 1) as nat);
        let r = remove_oldest(t, (k - 1) as nat);
        assert forall|x: FlowEntryView, y: FlowEntryView|
            #[trigger] s.contains(x) && !r.contains(x) && #[trigger] r.contains(y) implies x.last_seen_micros <= y.last_seen_micros by {
            let iy = choose|iy: int| 0 <= iy < r.len() && r[iy] == y;
            assert(t.contains(r[iy]));
            let jy = choose|jy: int| 0 <= jy < t.len() && t[jy] == y;
            let jy2 = if jy < m { jy } else { jy + 1 };
            assert(s[jy2] == y);
            let ix = choose|ix: int| 0 <= ix < s.len() && s[ix] == x;
            if ix != m {
                let jx = if ix < m { ix } else { ix - 1 };
                assert(t[jx] == x);
                assert(t.contains(x));
            }
        }
    }
}

/// The same key always gets the same identifier.
pub proof fn lemma_flow_id_stable(a: FlowKeyView, b: FlowKeyView)
    requires
        a == b,
    ensures
        flow_id_text(a) == flow_id_text(b),
{
}

/// A flow's identifier is sixteen lower-case hexadecimal digits.
pub proof fn lemma_flow_id_shape(k: FlowKeyView)
    ensures
        flow_id_text(k).len() == 16,
        forall|i: int| 0 <= i < 16 ==> is_lower_hex(#[trigger] flow_id_text(k)[i]),
{
    lemma_hex_text_shape(DefaultHasher::spec_finish(flow_hash_input(k)) as nat, 16);
}

/// The digest of a flow key, from which its identifier is written; the
/// table files each flow under the digest of its connection.
pub open spec fn key_digest(k: FlowKeyView) -> u64 {
    DefaultHasher::spec_finish(flow_hash_input(k))
}

/// Whether `positions` holds the position `i`.
pub open spec fn lists(positions: Seq<usize>, i: int) -> bool {
    exists|t: int| 0 <= t < positions.len() && #[trigger] positions[t] as int == i
}

/// A position that was listed stays listed when another is appended.
proof fn lemma_lists_push(positions: Seq<usize>, x: usize, i: int)
    requires
        lists(positions, i),
    ensures
        lists(positions.push(x), i),
{
    let t = choose|t: int| 0 <= t < positions.len() && #[trigger] positions[t] as int == i;
    assert(positions.push(x)[t] as int == i);
}

/// An appended position is listed.
proof fn lemma_lists_last(positions: Seq<usize>, x: usize)
    ensures
        lists(positions.push(x), x as int),
{
    assert(positions.push(x)[positions.len() as int] as int == x as int);
}

/// The digest index lists, under each digest, positions of flows with that
/// digest, and lists every flow under its own.
pub open spec fn index_ok(s: Seq<FlowEntryView>, index: Map<u64, Vec<usize>>) -> bool {
    &&& forall|i: int| 0 <= i < s.len() ==> #[trigger] index.contains_key(key_digest(connection_of(s[i].key)))
        && lists(index[key_digest(connection_of(s[i].key))]@, i)
    &&& forall|d: u64, j: int| #[trigger] index.contains_key(d) && 0 <= j < index[d]@.len() ==> (
        #[trigger] index[d]@[j] < s.len() && key_digest(connection_of(s[index[d]@[j] as int].key)) == d)
}

/// The flow table: connections in the order they were first seen, indexed
/// by the digest of their connections.
pub struct FlowTracker {
    entries: Vec<FlowEntry>,
    index: HashMap<u64, Vec<usize>>,
}

impl View for FlowTracker {
    type V = Seq<FlowEntryView>;

    closed spec fn view(&self) -> Seq<FlowEntryView> {
        self.entries@.map_values(|e: FlowEntry| e@)
    }
}

fn port_or_zero(p: Option<u16>) -> (r: u16)
    ensures
        r == (match p { Some(x) => x, None => 0u16 }),
{
    match p {
        Some(x) => x,
        None => 0,
    }
}

fn same_port(a: Option<u16>, b: Option<u16>) -> (r: bool)
    ensures
        r == (a == b),
{
    match (a, b) {
        (Some(x), Some(y)) => x == y,
        (None, None) => true,
        _ => false,
    }
}

fn same_pid(a: Option<u32>, b: Option<u32>) -> (r: bool)
    ensures
        r == (a == b),
{
    match (a, b) {
        (Some(x), Some(y)) => x == y,
        (None, None) => true,
        _ => false,
    }
}

fn same_key(a: &FlowKey, b: &FlowKey) -> (r: bool)
    ensures
        r == (a@ == b@),
{
    a.protocol == b.protocol && a.local_address == b.local_address && same_port(a.local_port, b.local_port)
        && a.remote_address == b.remote_address && same_port(a.remote_port, b.remote_port)
        && same_pid(a.process_id, b.process_id)
}

/// The connection a key stands for.
fn connection_for(k: &FlowKey) -> (conn: FlowKey)
    ensures
        conn@ == connection_of(k@),
{
    let local_first = text_port_le_exec(
        k.local_address.as_str(),
        port_or_zero(k.local_port),
        k.remote_address.as_str(),
        port_or_zero(k.remote_port),
    );
    if local_first {
        clone_key(k)
    } else {
        FlowKey {
            protocol: k.protocol.clone(),
            local_address: k.remote_address.clone(),
            local_port: k.remote_port,
            remote_address: k.local_address.clone(),
            remote_port: k.local_port,
            process_id: k.process_id,
        }
    }
}

/// Whether key `k` stands for connection `conn`.
fn same_connection(k: &FlowKey, conn: &FlowKey) -> (r: bool)
    ensures
        r == (connection_of(k@) == conn@),
{
    let c = connection_for(k);
    same_key(&c, conn)
}

/// Whether a packet's protocol forms flows.
pub fn is_tracked_protocol_exec(protocol: &String) -> (r: bool)
    ensures
        r == is_tracked_protocol(protocol@),
{
    *protocol == owned_text("TCP") || *protocol == owned_text("UDP") || *protocol == owned_text("DNS")
}

/// The key of the connection a packet belongs to.
pub fn flow_key_for(packet: &PacketSummary) -> (key: FlowKey)
    ensures
        key@ == flow_key_of(packet@),
{
    let (local_address, local_port, remote_address, remote_port) = if packet.direction == owned_text("outbound") {
        (packet.source.clone(), packet.source_port, packet.destination.clone(), packet.destination_port)
    } else if packet.direction == owned_text("inbound") {
        (packet.destination.clone(), packet.destination_port, packet.source.clone(), packet.source_port)
    } else {
        canonical_endpoints(packet)
    };
    FlowKey {
        protocol: packet.protocol.clone(),
        local_address,
        local_port,
        remote_address,
        remote_port,
        process_id: packet.process_id,
    }
}

/// The endpoints of a packet of unknown direction, the one that orders
/// first (address bytes, then port, a missing port counting as 0) first.
fn canonical_endpoints(packet: &PacketSummary) -> (endpoints: (String, Option<u16>, String, Option<u16>))
    ensures
        ({
            let p = packet@;
            let (a, ap, b, bp) = endpoints;
            if text_port_le(
                p.source,
                match p.source_port { Some(x) => x, None => 0u16 },
                p.destination,
                match p.destination_port { Some(x) => x, None => 0u16 },
            ) {
                a@ == p.source && ap == p.source_port && b@ == p.destination && bp == p.destination_port
            } else {
                a@ == p.destination && ap == p.destination_port && b@ == p.source && bp == p.source_port
            }
        }),
{
    let source_first = text_port_le_exec(
        packet.source.as_str(),
        port_or_zero(packet.source_port),
        packet.destination.as_str(),
        port_or_zero(packet.destination_port),
    );
    if source_first {
        (packet.source.clone(), packet.source_port, packet.destination.clone(), packet.destination_port)
    } else {
        (packet.destination.clone(), packet.destination_port, packet.source.clone(), packet.source_port)
    }
}

fn clone_key(k: &FlowKey) -> (r: FlowKey)
    ensures
        r@ == k@,
{
    FlowKey {
        protocol: k.protocol.clone(),
        local_address: k.local_address.clone(),
        local_port: k.local_port,
        remote_address: k.remote_address.clone(),
        remote_port: k.remote_port,
        process_id: k.process_id,
    }
}

/// The flow `e` after counting `packet`.
fn account_exec(e: FlowEntry, packet: &PacketSummary) -> (r: FlowEntry)
    ensures
        r@ == account(e@, packet@),
{
    let len = packet.length as u64;
    let outbound = packet.direction == owned_text("outbound");
    let inbound = packet.direction == owned_text("inbound");
    let FlowEntry {
        key,
        process_name,
        first_seen_micros,
        last_seen_micros,
        upload_packets,
        download_packets,
        unknown_packets,
        upload_bytes,
        download_bytes,
        unknown_bytes,
    } = e;
    let process_name = if process_name.is_none() && packet.process_name.is_some() {
        clone_opt_text(&packet.process_name)
    } else {
        process_name
    };
    FlowEntry {
        key,
        process_name,
        first_seen_micros,
        last_seen_micros: if last_seen_micros >= packet.timestamp_micros {
            last_seen_micros
        } else {
            packet.timestamp_micros
        },
        upload_packets: if outbound { upload_packets.saturating_add(1) } else { upload_packets },
        upload_bytes: if outbound { upload_bytes.saturating_add(len) } else { upload_bytes },
        download_packets: if !outbound && inbound {
            download_packets.saturating_add(1)
        } else {
            download_packets
        },
        download_bytes: if !outbound && inbound {
            download_bytes.saturating_add(len)
        } else {
            download_bytes
        },
        unknown_packets: if !outbound && !inbound {
            unknown_packets.saturating_add(1)
        } else {
            unknown_packets
        },
        unknown_bytes: if !outbound && !inbound {
            unknown_bytes.saturating_add(len)
        } else {
            unknown_bytes
        },
    }
}

fn clone_entry(e: &FlowEntry) -> (r: FlowEntry)
    ensures
        r@ == e@,
{
    FlowEntry {
        key: clone_key(&e.key),
        process_name: clone_opt_text(&e.process_name),
        first_seen_micros: e.first_seen_micros,
        last_seen_micros: e.last_seen_micros,
        upload_packets: e.upload_packets,
        download_packets: e.download_packets,
        unknown_packets: e.unknown_packets,
        upload_bytes: e.upload_bytes,
        download_bytes: e.download_bytes,
        unknown_bytes: e.unknown_bytes,
    }
}

/// An entry with empty texts, no ports, process or name, and all times and
/// counts 0, put in a slot while its flow is updated.
fn placeholder_entry() -> (r: FlowEntry)
    ensures
        r@ == (FlowEntryView {
            key: FlowKeyView {
                protocol: Seq::empty(),
                local_address: Seq::empty(),
                local_port: None,
                remote_address: Seq::empty(),
                remote_port: None,
                process_id: None,
            },
            process_name: None,
            first_seen_micros: 0,
            last_seen_micros: 0,
            upload_packets: 0,
            download_packets: 0,
            unknown_packets: 0,
            upload_bytes: 0,
            download_bytes: 0,
            unknown_bytes: 0,
        }),
{
    FlowEntry {
        key: FlowKey {
            protocol: String::new(),
            local_address: String::new(),
            local_port: None,
            remote_address: String::new(),
            remote_port: None,
            process_id: None,
        },
        process_name: None,
        first_seen_micros: 0,
        last_seen_micros: 0,
        upload_packets: 0,
        download_packets: 0,
        unknown_packets: 0,
        upload_bytes: 0,
        download_bytes: 0,
        unknown_bytes: 0,
    }
}

fn is_retained_exec(e: &FlowEntry, now: u64) -> (r: bool)
    ensures
        r == is_retained(e@, now),
{
    now.saturating_sub(e.last_seen_micros) <= RETENTION_WINDOW_MICROS
}

/// The models of a sequence of flows.
spec fn views(s: Seq<FlowEntry>) -> Seq<FlowEntryView> {
    s.map_values(|e: FlowEntry| e@)
}


/// The digest of a flow key.
fn key_digest_exec(key: &FlowKey) -> (digest: u64)
    ensures
        digest == key_digest(key@),
{
    let separator: Vec<u8> = vec![0xffu8];
    assert(separator@ =~= seq![0xffu8]);
    let mut hasher = DefaultHasher::new();
    let protocol_bytes = key.protocol.as_str().as_bytes();
    assert(protocol_bytes@ == utf8_of(key.protocol@));
    hasher.write(protocol_bytes);
    assert(hasher@ =~= seq![utf8_of(key.protocol@)]);
    hasher.write(separator.as_slice());
    hasher.write(key.local_address.as_str().as_bytes());
    hasher.write(separator.as_slice());
    let local_port = port_hash_bytes_exec(key.local_port);
    hasher.write(local_port.as_slice());
    hasher.write(key.remote_address.as_str().as_bytes());
    hasher.write(separator.as_slice());
    let remote_port = port_hash_bytes_exec(key.remote_port);
    hasher.write(remote_port.as_slice());
    let pid = pid_hash_bytes_exec(key.process_id);
    hasher.write(pid.as_slice());
    assert(hasher@ =~= flow_hash_input(key@));
    hasher.finish()
}

/// The identifier of a flow key.
fn stable_flow_id(key: &FlowKey) -> (id: String)
    ensures
        id@ == flow_id_text(key@),
{
    let digest = key_digest_exec(key);
    let mut id = String::new();
    push_hex(&mut id, digest, 16);
    assert(id@ =~= flow_id_text(key@));
    id
}

fn port_hash_bytes_exec(p: Option<u16>) -> (r: Vec<u8>)
    ensures
        r@ == port_hash_bytes(p),
{
    match p {
        Some(x) => {
            let r = vec![1u8, (x % 256) as u8, (x / 256) as u8];
            assert(r@ =~= port_hash_bytes(p));
            r
        },
        None => {
            let r = vec![0u8];
            assert(r@ =~= port_hash_bytes(p));
            r
        },
    }
}

fn pid_hash_bytes_exec(p: Option<u32>) -> (r: Vec<u8>)
    ensures
        r@ == pid_hash_bytes(p),
{
    match p {
        Some(x) => {
            let r = vec![1u8, (x % 256) as u8, ((x / 256) % 256) as u8, ((x / 65536) % 256) as u8, (x / 16777216) as u8];
            assert(r@ =~= pid_hash_bytes(p));
            r
        },
        None => {
            let r = vec![0u8];
            assert(r@ =~= pid_hash_bytes(p));
            r
        },
    }
}

impl FlowEntry {
    /// How this flow is reported at `now`.
    fn to_summary(&self, now: u64) -> (r: FlowSummary)
        ensures
            r@ == flow_summary_of(self@, now),
    {
        let state = if now.saturating_sub(self.last_seen_micros) <= ACTIVE_WINDOW_MICROS {
            owned_text("active")
        } else {
            owned_text("recent")
        };
        FlowSummary {
            id: stable_flow_id(&self.key),
            protocol: self.key.protocol.clone(),
            local_address: self.key.local_address.clone(),
            local_port: self.key.local_port,
            remote_address: self.key.remote_address.clone(),
            remote_port: self.key.remote_port,
            process_id: self.key.process_id,
            process_name: clone_opt_text(&self.process_name),
            first_seen_micros: self.first_seen_micros,
            last_seen_micros: self.last_seen_micros,
            state,
            upload_packets: self.upload_packets,
            download_packets: self.download_packets,
            unknown_packets: self.unknown_packets,
            upload_bytes: self.upload_bytes,
            download_bytes: self.download_bytes,
            unknown_bytes: self.unknown_bytes,
        }
    }
}

/// The models of a list of flow summaries.
pub open spec fn flow_views(s: Seq<FlowSummary>) -> Seq<FlowSummaryView> {
    s.map_values(|f: FlowSummary| f@)
}

/// The models of a list of process summaries.
pub open spec fn process_views(s: Seq<ProcessTrafficSummary>) -> Seq<ProcessTrafficView> {
    s.map_values(|p: ProcessTrafficSummary| p@)
}

fn group_name_exec(f: &FlowSummary) -> (name: String)
    ensures
        name@ == group_name(f@),
{
    match &f.process_name {
        Some(n) => n.clone(),
        None => owned_text("未识别进程"),
    }
}

fn same_pid_exec(a: Option<u32>, b: Option<u32>) -> (r: bool)
    ensures
        r == (a == b),
{
    same_pid(a, b)
}

fn find_group(groups: &Vec<ProcessTrafficSummary>, pid: Option<u32>, name: &String) -> (pos: Option<usize>)
    requires
        distinct_groups(process_views(groups@)),
    ensures
        match pos {
            Some(i) => group_position(process_views(groups@), pid, name@) == Some(i as int),
            None => group_position(process_views(groups@), pid, name@) is None,
        },
{
    let ghost g = process_views(groups@);
    let mut i: usize = 0;
    while i < groups.len()
        invariant
            g == process_views(groups@),
            distinct_groups(g),
            i <= groups@.len(),
            forall|j: int| 0 <= j < i ==> !(g[j].process_id == pid && g[j].process_name == name@),
        decreases groups@.len() - i,
    {
        if same_pid_exec(groups[i].process_id, pid) && groups[i].process_name == *name {
            assert(g[i as int].process_id == pid && g[i as int].process_name == name@);
            assert(exists|j: int| 0 <= j < g.len() && g[j].process_id == pid && g[j].process_name == name@);
            let ghost c = choose|j: int| 0 <= j < g.len() && g[j].process_id == pid && g[j].process_name == name@;
            assert(c == i as int) by {
                if c != i as int {
                    assert(0 <= c < g.len() && g[c].process_id == pid && g[c].process_name == name@);
                }
            }
            return Some(i);
        }
        i = i + 1;
    }
    None
}

fn add_flow_exec(p: ProcessTrafficSummary, f: &FlowSummary) -> (r: ProcessTrafficSummary)
    ensures
        r@ == add_flow(p@, f@),
{
    let active = f.state == owned_text("active");
    ProcessTrafficSummary {
        process_id: p.process_id,
        process_name: p.process_name,
        connection_count: p.connection_count.saturating_add(1),
        active_connection_count: if active {
            p.active_connection_count.saturating_add(1)
        } else {
            p.active_connection_count
        },
        upload_packets: p.upload_packets.saturating_add(f.upload_packets),
        download_packets: p.download_packets.saturating_add(f.download_packets),
        unknown_packets: p.unknown_packets.saturating_add(f.unknown_packets),
        upload_bytes: p.upload_bytes.saturating_add(f.upload_bytes),
        download_bytes: p.download_bytes.saturating_add(f.download_bytes),
        unknown_bytes: p.unknown_bytes.saturating_add(f.unknown_bytes),
        last_seen_micros: if p.last_seen_micros >= f.last_seen_micros {
            p.last_seen_micros
        } else {
            f.last_seen_micros
        },
    }
}

fn new_group(pid: Option<u32>, name: String) -> (r: ProcessTrafficSummary)
    ensures
        r@ == empty_group(pid, name@),
{
    ProcessTrafficSummary {
        process_id: pid,
        process_name: name,
        connection_count: 0,
        active_connection_count: 0,
        upload_packets: 0,
        download_packets: 0,
        unknown_packets: 0,
        upload_bytes: 0,
        download_bytes: 0,
        unknown_bytes: 0,
        last_seen_micros: 0,
    }
}

fn clone_group(p: &ProcessTrafficSummary) -> (r: ProcessTrafficSummary)
    ensures
        r@ == p@,
{
    ProcessTrafficSummary {
        process_id: p.process_id,
        process_name: p.process_name.clone(),
        connection_count: p.connection_count,
        active_connection_count: p.active_connection_count,
        upload_packets: p.upload_packets,
        download_packets: p.download_packets,
        unknown_packets: p.unknown_packets,
        upload_bytes: p.upload_bytes,
        download_bytes: p.download_bytes,
        unknown_bytes: p.unknown_bytes,
        last_seen_micros: p.last_seen_micros,
    }
}

/// Groups reported flows by process id and name.
fn group_processes(flows: &Vec<FlowSummary>) -> (groups: Vec<ProcessTrafficSummary>)
    ensures
        process_views(groups@) == process_groups(flow_views(flows@)),
{
    let ghost fv = flow_views(flows@);
    let mut groups: Vec<ProcessTrafficSummary> = Vec::new();
    let mut j: usize = 0;
    assert(process_views(groups@) =~= process_groups(fv.take(0)));
    while j < flows.len()
        invariant
            fv == flow_views(flows@),
            j <= flows@.len(),
            process_views(groups@) == process_groups(fv.take(j as int)),
            distinct_groups(process_views(groups@)),
        decreases flows@.len() - j,
    {
        let f = &flows[j];
        let ghost g = process_views(groups@);
        proof {
            assert(fv.take(j + 1).drop_last() =~= fv.take(j as int));
            assert(fv.take(j + 1).last() == f@);
        }
        let name = group_name_exec(f);
        match find_group(&groups, f.process_id, &name) {
            Some(k) => {
                let mut slot = new_group(None, String::new());
                groups.set_and_swap(k, &mut slot);
                let updated = add_flow_exec(slot, f);
                groups.set(k, updated);
                assert(process_views(groups@) =~= g.update(k as int, add_flow(g[k as int], f@)));
                assert forall|a: int, b: int| 0 <= a < g.len() && 0 <= b < g.len() && a != b implies
                    !(process_views(groups@)[a].process_id == process_views(groups@)[b].process_id
                    && process_views(groups@)[a].process_name == process_views(groups@)[b].process_name) by {
                    assert(process_views(groups@)[a].process_id == g[a].process_id);
                    assert(process_views(groups@)[a].process_name == g[a].process_name);
                    assert(process_views(groups@)[b].process_id == g[b].process_id);
                    assert(process_views(groups@)[b].process_name == g[b].process_name);
                }
            },
            None => {
                let pid = f.process_id;
                let fresh = new_group(pid, name);
                let added = add_flow_exec(fresh, f);
                groups.push(added);
                assert(process_views(groups@) =~= g.push(add_flow(empty_group(f@.process_id, group_name(f@)), f@)));
                assert(forall|a: int| 0 <= a < g.len() ==> !(g[a].process_id == f@.process_id && g[a].process_name == group_name(f@)));
            },
        }
        j = j + 1;
    }
    assert(fv.take(flows@.len() as int) =~= fv);
    groups
}

impl FlowTracker {
    /// The table holds each connection at most once and no more flows than
    /// the limit.
    pub closed spec fn wf(&self) -> bool {
        &&& distinct_connections(self@)
        &&& self@.len() <= MAX_TRACKED_FLOWS
        &&& index_ok(self@, self.index@)
    }

    /// A valid table holds each connection at most once and no more flows
    /// than the limit.
    pub proof fn lemma_wf(&self)
        requires
            self.wf(),
        ensures
            distinct_connections(self@),
            self@.len() <= MAX_TRACKED_FLOWS,
    {
    }

    /// An empty table.
    pub fn new() -> (tracker: Self)
        ensures
            tracker.wf(),
            tracker@ == Seq::<FlowEntryView>::empty(),
    {
        broadcast use vstd::std_specs::hash::group_hash_axioms;
        let tracker = FlowTracker { entries: Vec::new(), index: HashMap::new() };
        assert(tracker@ =~= Seq::<FlowEntryView>::empty());
        tracker
    }

    /// Forgets every flow.
    pub fn clear(&mut self)
        ensures
            final(self).wf(),
            final(self)@ == Seq::<FlowEntryView>::empty(),
    {
        broadcast use vstd::std_specs::hash::group_hash_axioms;
        self.entries = Vec::new();
        self.index = HashMap::new();
        assert(self@ =~= Seq::<FlowEntryView>::empty());
    }

    /// Where the flow of connection `conn` stands, found through the digest index.
    fn find(&self, conn: &FlowKey, digest: u64) -> (pos: Option<usize>)
        requires
            distinct_connections(self@),
            index_ok(self@, self.index@),
            digest == key_digest(conn@),
        ensures
            match pos {
                Some(i) => connection_position(self@, conn@) == Some(i as int),
                None => connection_position(self@, conn@) is None,
            },
    {
        broadcast use vstd::std_specs::hash::group_hash_axioms;
        let candidates = match self.index.get(&digest) {
            Some(c) => c,
            None => {
                assert forall|i: int| 0 <= i < self@.len() implies connection_of(self@[i].key) != conn@ by {
                    if connection_of(self@[i].key) == conn@ {
                        assert(self.index@.contains_key(key_digest(connection_of(self@[i].key))));
                    }
                }
                return None;
            },
        };
        assert(self.index@.contains_key(digest) && self.index@[digest] == *candidates);
        let mut j: usize = 0;
        while j < candidates.len()
            invariant
                self.index@.contains_key(digest),
                self.index@[digest] == *candidates,
                index_ok(self@, self.index@),
                distinct_connections(self@),
                self@.len() == self.entries@.len(),
                j <= candidates@.len(),
                forall|t: int| 0 <= t < j ==> connection_of(self@[candidates@[t] as int].key) != conn@,
            decreases candidates@.len() - j,
        {
            let c = candidates[j];
            assert(c < self@.len());
            if same_connection(&self.entries[c].key, conn) {
                assert(connection_of(self@[c as int].key) == conn@);
                assert(exists|i: int| 0 <= i < self@.len() && connection_of(self@[i].key) == conn@);
                let ghost w = choose|i: int| 0 <= i < self@.len() && connection_of(self@[i].key) == conn@;
                assert(w == c as int) by {
                    if w != c as int {
                        assert(0 <= w < self@.len() && connection_of(self@[w].key) == conn@);
                    }
                }
                return Some(c);
            }
            j = j + 1;
        }
        assert forall|i: int| 0 <= i < self@.len() implies connection_of(self@[i].key) != conn@ by {
            if connection_of(self@[i].key) == conn@ {
                assert(self.index@.contains_key(key_digest(connection_of(self@[i].key))));
                assert(lists(candidates@, i));
                let t = choose|t: int| 0 <= t < candidates@.len() && #[trigger] candidates@[t] as int == i;
                assert(connection_of(self@[candidates@[t] as int].key) != conn@);
            }
        }
        None
    }

    /// Rebuilds the digest index from the flows.
    fn rebuild_index(&mut self)
        ensures
            final(self)@ == old(self)@,
            index_ok(final(self)@, final(self).index@),
    {
        broadcast use vstd::std_specs::hash::group_hash_axioms;
        let ghost s = self@;
        let mut index: HashMap<u64, Vec<usize>> = HashMap::new();
        let mut i: usize = 0;
        while i < self.entries.len()
            invariant
                s == self@,
                self@.len() == self.entries@.len(),
                i <= self.entries@.len(),
                forall|k: int| 0 <= k < i ==> #[trigger] index@.contains_key(key_digest(connection_of(s[k].key)))
                    && lists(index@[key_digest(connection_of(s[k].key))]@, k),
                forall|d: u64, j: int| #[trigger] index@.contains_key(d) && 0 <= j < index@[d]@.len() ==> (
                    #[trigger] index@[d]@[j] < i && key_digest(connection_of(s[index@[d]@[j] as int].key)) == d),
            decreases self.entries@.len() - i,
        {
            let conn = connection_for(&self.entries[i].key);
            let digest = key_digest_exec(&conn);
            proof { assert(s[i as int].key == self.entries@[i as int].key@); }
            let ghost before = index@;
            Self::index_add(&mut index, digest, i);
            proof {
                let prior = if before.contains_key(digest) { before[digest]@ } else { Seq::<usize>::empty() };
                assert(index@[digest]@ == prior.push(i));
                lemma_lists_last(prior, i);
                assert forall|k: int| 0 <= k < i + 1 implies #[trigger] index@.contains_key(key_digest(connection_of(s[k].key)))
                    && lists(index@[key_digest(connection_of(s[k].key))]@, k) by {
                    if k < i {
                        assert(before.contains_key(key_digest(connection_of(s[k].key))));
                        assert(lists(before[key_digest(connection_of(s[k].key))]@, k));
                        if key_digest(connection_of(s[k].key)) == digest {
                            lemma_lists_push(prior, i, k);
                        } else {
                            assert(index@[key_digest(connection_of(s[k].key))] == before[key_digest(connection_of(s[k].key))]);
                        }
                    } else {
                        assert(k == i as int);
                        assert(key_digest(connection_of(s[k].key)) == digest);
                    }
                }
                assert forall|d: u64, j: int| #[trigger] index@.contains_key(d) && 0 <= j < index@[d]@.len() implies (
                    #[trigger] index@[d]@[j] < i + 1 && key_digest(connection_of(s[index@[d]@[j] as int].key)) == d) by {
                    if d == digest && j < prior.len() {
                        assert(index@[d]@[j] == before[d]@[j]);
                    } else if d != digest {
                        assert(before.contains_key(d));
                        assert(index@[d] == before[d]);
                    }
                }
            }
            i = i + 1;
        }
        self.index = index;
        assert(index_ok(self@, self.index@)) by {
            assert forall|k: int| 0 <= k < self@.len() implies #[trigger] self.index@.contains_key(
                key_digest(connection_of(self@[k].key))) && lists(self.index@[key_digest(connection_of(self@[k].key))]@, k) by {
                assert(index@.contains_key(key_digest(connection_of(s[k].key))));
            }
        }
    }

    /// Lists position `position` under `digest`.
    fn index_add(index: &mut HashMap<u64, Vec<usize>>, digest: u64, position: usize)
        ensures
            final(index)@.contains_key(digest),
            final(index)@[digest]@ == (if old(index)@.contains_key(digest) {
                old(index)@[digest]@
            } else {
                Seq::empty()
            }).push(position),
            forall|d: u64| d != digest ==> #[trigger] final(index)@.contains_key(d) == old(index)@.contains_key(d),
            forall|d: u64| d != digest && old(index)@.contains_key(d) ==> #[trigger] final(index)@[d] == old(index)@[d],
    {
        broadcast use vstd::std_specs::hash::group_hash_axioms;
        let mut positions = match index.remove(&digest) {
            Some(v) => v,
            None => Vec::new(),
        };
        positions.push(position);
        index.insert(digest, positions);
    }

    /// Forgets the flows not seen within the retention window before `now`.
    fn prune(&mut self, now: u64)
        ensures
            final(self)@ == retained(old(self)@, now),
            index_ok(old(self)@, old(self).index@) ==> index_ok(final(self)@, final(self).index@),
    {
        let ghost orig = self@;
        proof { lemma_retained(orig, now); }
        let mut all_kept = true;
        let mut i: usize = 0;
        while i < self.entries.len()
            invariant
                self@ == orig,
                i <= self.entries@.len(),
                self@.len() == self.entries@.len(),
                all_kept == (forall|j: int| 0 <= j < i ==> is_retained(#[trigger] orig[j], now)),
            decreases self.entries@.len() - i,
        {
            let keep = is_retained_exec(&self.entries[i], now);
            proof {
                assert(orig[i as int] == self.entries@[i as int]@);
                if all_kept && keep {
                    assert forall|j: int| 0 <= j < i + 1 implies is_retained(#[trigger] orig[j], now) by {}
                }
            }
            all_kept = all_kept && keep;
            i = i + 1;
        }
        if all_kept {
            return;
        }
        let mut kept: Vec<FlowEntry> = Vec::new();
        let mut i: usize = 0;
        while i < self.entries.len()
            invariant
                self@ == orig,
                i <= self.entries@.len(),
                self@.len() == self.entries@.len(),
                views(kept@) == retained(orig.take(i as int), now),
            decreases self.entries@.len() - i,
        {
            proof {
                assert(orig.take(i + 1).drop_last() =~= orig.take(i as int));
                assert(orig.take(i + 1).last() == orig[i as int]);
                assert(orig[i as int] == self.entries@[i as int]@);
            }
            if is_retained_exec(&self.entries[i], now) {
                let copy = clone_entry(&self.entries[i]);
                let ghost before = kept@;
                kept.push(copy);
                assert(views(kept@) =~= views(before).push(copy@));
            }
            i = i + 1;
        }
        assert(orig.take(orig.len() as int) =~= orig);
        self.entries = kept;
        self.rebuild_index();
    }

    /// Position of the first among the least recently seen flows.
    fn oldest_position(&self) -> (pos: usize)
        requires
            self@.len() > 0,
        ensures
            pos as int == oldest_index(self@),
    {
        let ghost s = self@;
        let mut best: usize = 0;
        let mut i: usize = 1;
        assert(s.take(1).len() == 1);
        while i < self.entries.len()
            invariant
                s == self@,
                1 <= i <= self.entries@.len(),
                self@.len() == self.entries@.len(),
                best as int == oldest_index(s.take(i as int)),
                0 <= best < i,
            decreases self.entries@.len() - i,
        {
            proof {
                let t = s.take(i + 1);
                assert(t.drop_last() =~= s.take(i as int));
                assert(t[best as int] == s[best as int]);
                assert(t.last() == s[i as int]);
                assert(s[i as int] == self.entries@[i as int]@);
                assert(s[best as int] == self.entries@[best as int]@);
            }
            if self.entries[i].last_seen_micros < self.entries[best].last_seen_micros {
                best = i;
            }
            i = i + 1;
        }
        assert(s.take(s.len() as int) =~= s);
        best
    }

    /// Makes room in an overfull table: forgets stale flows, then the least
    /// recently seen ones until nine tenths of the limit remain.
    fn compact(&mut self, now_micros: u64)
        requires
            index_ok(old(self)@, old(self).index@),
        ensures
            final(self)@ == compacted(old(self)@, now_micros),
            index_ok(final(self)@, final(self).index@),
    {
        self.prune(now_micros);
        if self.entries.len() <= MAX_TRACKED_FLOWS {
            return;
        }
        let ghost pruned = self@;
        let remove_count = self.entries.len() - COMPACTED_FLOWS;
        let mut removed: usize = 0;
        while removed < remove_count
            invariant
                removed <= remove_count,
                remove_count == pruned.len() - COMPACTED_FLOWS,
                self@.len() == pruned.len() - removed,
                self@.len() == self.entries@.len(),
                remove_oldest(self@, (remove_count - removed) as nat) == remove_oldest(pruned, remove_count as nat),
            decreases remove_count - removed,
        {
            let pos = self.oldest_position();
            proof { lemma_oldest_index(self@); }
            let ghost before = self@;
            let ghost before_entries = self.entries@;
            let _gone = self.entries.remove(pos);
            assert(self@ =~= before.remove(pos as int)) by {
                assert forall|j: int| 0 <= j < self@.len() implies self@[j] == before.remove(pos as int)[j] by {
                    if j < pos {
                        assert(self.entries@[j] == before_entries[j]);
                    } else {
                        assert(self.entries@[j] == before_entries[j + 1]);
                    }
                }
            }
            removed = removed + 1;
        }
        self.rebuild_index();
    }

    /// Counts one packet into the flow it belongs to.
    pub fn observe(&mut self, packet: &PacketSummary)
        requires
            old(self).wf(),
        ensures
            final(self).wf(),
            final(self)@ == observed(old(self)@, packet@),
    {
        proof { lemma_observed_bounded(self@, packet@); }
        if !is_tracked_protocol_exec(&packet.protocol) {
            return;
        }
        let key = flow_key_for(packet);
        let conn = connection_for(&key);
        let digest = key_digest_exec(&conn);
        let ghost s = self@;
        let ghost old_index = self.index@;
        match self.find(&conn, digest) {
            Some(i) => {
                let mut slot = placeholder_entry();
                self.entries.set_and_swap(i, &mut slot);
                let updated = account_exec(slot, packet);
                self.entries.set(i, updated);
                assert(self@ =~= s.update(i as int, account(s[i as int], packet@)));
                assert forall|k: int| 0 <= k < self@.len() implies #[trigger] self@[k].key == s[k].key by {}
                assert(index_ok(self@, self.index@)) by {
                    assert forall|k: int| 0 <= k < self@.len() implies #[trigger] self.index@.contains_key(
                        key_digest(connection_of(self@[k].key))) && lists(self.index@[key_digest(connection_of(self@[k].key))]@, k) by {
                        assert(self@[k].key == s[k].key);
                    }
                    assert forall|d: u64, j: int| #[trigger] self.index@.contains_key(d) && 0 <= j < self.index@[d]@.len()
                        implies (#[trigger] self.index@[d]@[j] < self@.len() && key_digest(connection_of(self@[self.index@[d]@[j] as int].key)) == d) by {
                        let x = self.index@[d]@[j] as int;
                        assert(self@[x].key == s[x].key);
                    }
                }
            },
            None => {
                let fresh = FlowEntry {
                    key,
                    process_name: clone_opt_text(&packet.process_name),
                    first_seen_micros: packet.timestamp_micros,
                    last_seen_micros: packet.timestamp_micros,
                    upload_packets: 0,
                    download_packets: 0,
                    unknown_packets: 0,
                    upload_bytes: 0,
                    download_bytes: 0,
                    unknown_bytes: 0,
                };
                assert(fresh@ == fresh_entry(flow_key_of(packet@), packet@));
                let entry = account_exec(fresh, packet);
                let n = self.entries.len();
                self.entries.push(entry);
                assert(self@ =~= s.push(account(fresh_entry(flow_key_of(packet@), packet@), packet@)));
                Self::index_add(&mut self.index, digest, n);
                assert(index_ok(self@, self.index@)) by {
                    assert forall|k: int| 0 <= k < self@.len() implies #[trigger] self.index@.contains_key(
                        key_digest(connection_of(self@[k].key))) && lists(self.index@[key_digest(connection_of(self@[k].key))]@, k) by {
                        let prior = if old_index.contains_key(digest) { old_index[digest]@ } else { Seq::<usize>::empty() };
                        if k < n {
                            assert(self@[k] == s[k]);
                            assert(old_index.contains_key(key_digest(connection_of(s[k].key))));
                            assert(lists(old_index[key_digest(connection_of(s[k].key))]@, k));
                            if key_digest(connection_of(s[k].key)) == digest {
                                lemma_lists_push(prior, n, k);
                            } else {
                                assert(self.index@[key_digest(connection_of(s[k].key))] == old_index[key_digest(connection_of(s[k].key))]);
                            }
                        } else {
                            assert(self@[k].key == flow_key_of(packet@));
                            lemma_lists_last(prior, n);
                        }
                    }
                    assert forall|d: u64, j: int| #[trigger] self.index@.contains_key(d) && 0 <= j < self.index@[d]@.len()
                        implies (#[trigger] self.index@[d]@[j] < self@.len() && key_digest(connection_of(self@[self.index@[d]@[j] as int].key)) == d) by {
                        if d == digest {
                            if old_index.contains_key(d) && j < old_index[d]@.len() {
                                assert(self.index@[d]@[j] == old_index[d]@[j]);
                                assert(old_index[d]@[j] < n);
                                assert(self@[old_index[d]@[j] as int] == s[old_index[d]@[j] as int]);
                            } else {
                                assert(self.index@[d]@[j] == n);
                                assert(self@[n as int].key == flow_key_of(packet@));
                            }
                        } else {
                            assert(old_index.contains_key(d));
                            assert(self.index@[d] == old_index[d]);
                            assert(self@[old_index[d]@[j] as int] == s[old_index[d]@[j] as int]);
                        }
                    }
                }
            },
        }
        if self.entries.len() > MAX_TRACKED_FLOWS {
            self.compact(packet.timestamp_micros);
        }
    }

    /// Forgets stale flows and reports the rest as seen at `now`.
    pub fn snapshot_at(&mut self, now: u64) -> (snapshot: FlowSnapshot)
        requires
            old(self).wf(),
        ensures
            final(self).wf(),
            final(self)@ == retained(old(self)@, now),
            snapshot_of(old(self)@, now, snapshot@),
    {
        proof { lemma_retained(self@, now); }
        self.prune(now);
        let ghost kept = self@;
        let n = self.entries.len();
        let mut keys: Vec<u64> = Vec::with_capacity(n);
        let mut i: usize = 0;
        while i < n
            invariant
                kept == self@,
                n == self.entries@.len(),
                n == kept.len(),
                i <= n,
                keys@ == last_seen_keys(kept).take(i as int),
            decreases n - i,
        {
            proof { assert(kept[i as int] == self.entries@[i as int]@); }
            keys.push(self.entries[i].last_seen_micros);
            i = i + 1;
            assert(keys@ =~= last_seen_keys(kept).take(i as int));
        }
        assert(keys@ =~= last_seen_keys(kept));
        let order = rank_descending(&keys, MAX_SNAPSHOT_FLOWS);
        let ghost ord = positions(order@);
        let mut flows: Vec<FlowSummary> = Vec::new();
        let mut j: usize = 0;
        while j < order.len()
            invariant
                kept == self@,
                n == self.entries@.len(),
                n == kept.len(),
                ord == positions(order@),
                forall|t: int| 0 <= t < ord.len() ==> 0 <= #[trigger] ord[t] < n,
                j <= order@.len(),
                flow_views(flows@) == ord.take(j as int).map_values(|x: int| flow_summary_of(kept[x], now)),
            decreases order@.len() - j,
        {
            let pos = order[j];
            assert(ord[j as int] == pos as int);
            proof { assert(kept[pos as int] == self.entries@[pos as int]@); }
            let summary = self.entries[pos].to_summary(now);
            let ghost before = flow_views(flows@);
            flows.push(summary);
            proof {
                let f = |x: int| flow_summary_of(kept[x], now);
                assert(flow_views(flows@) =~= before.push(f(ord[j as int])));
                assert(ord.take(j + 1) =~= ord.take(j as int).push(ord[j as int]));
                assert(ord.take(j + 1).map_values(f) =~= ord.take(j as int).map_values(f).push(f(ord[j as int])));
            }
            j = j + 1;
        }
        assert(ord.take(ord.len() as int) =~= ord);
        let groups = group_processes(&flows);
        let ghost gv = process_views(groups@);
        let mut totals: Vec<u64> = Vec::with_capacity(groups.len());
        let mut t: usize = 0;
        while t < groups.len()
            invariant
                gv == process_views(groups@),
                t <= groups@.len(),
                totals@ == process_totals(gv).take(t as int),
            decreases groups@.len() - t,
        {
            let g = &groups[t];
            totals.push(g.upload_bytes.saturating_add(g.download_bytes).saturating_add(g.unknown_bytes));
            t = t + 1;
            assert(totals@ =~= process_totals(gv).take(t as int));
        }
        assert(totals@ =~= process_totals(gv));
        let porder = rank_descending(&totals, groups.len());
        let ghost pord = positions(porder@);
        let mut processes: Vec<ProcessTrafficSummary> = Vec::new();
        let mut u: usize = 0;
        while u < porder.len()
            invariant
                gv == process_views(groups@),
                pord == positions(porder@),
                forall|x: int| 0 <= x < pord.len() ==> 0 <= #[trigger] pord[x] < gv.len(),
                u <= porder@.len(),
                process_views(processes@) == pord.take(u as int).map_values(|x: int| gv[x]),
            decreases porder@.len() - u,
        {
            let pos = porder[u];
            assert(pord[u as int] == pos as int);
            let copy = clone_group(&groups[pos]);
            let ghost before = process_views(processes@);
            processes.push(copy);
            proof {
                let f = |x: int| gv[x];
                assert(process_views(processes@) =~= before.push(f(pord[u as int])));
                assert(pord.take(u + 1) =~= pord.take(u as int).push(pord[u as int]));
                assert(pord.take(u + 1).map_values(f) =~= pord.take(u as int).map_values(f).push(f(pord[u as int])));
            }
            u = u + 1;
        }
        assert(pord.take(pord.len() as int) =~= pord);
        let snapshot = FlowSnapshot {
            generated_at_micros: now,
            tracked_flow_count: n as u64,
            flows,
            processes,
        };
        assert(snapshot@.flows == flow_views(snapshot.flows@));
        assert(snapshot@.processes == process_views(snapshot.processes@));
        assert(snapshot@.flows == ord.map_values(|x: int| flow_summary_of(kept[x], now)));
        assert(snapshot_of(old(self)@, now, snapshot@));
        snapshot
    }

    /// Forgets stale flows and reports the rest as seen now by the system
    /// clock.
    pub fn snapshot(&mut self) -> (snapshot: FlowSnapshot)
        requires
            old(self).wf(),
        ensures
            final(self).wf(),
            final(self)@ == retained(old(self)@, snapshot.generated_at_micros),
            snapshot_of(old(self)@, snapshot.generated_at_micros, snapshot@),
    {
        let generated_at_micros = unix_time_micros();
        self.snapshot_at(generated_at_micros)
    }
}

impl Default for FlowTracker {
    /// An empty table.
    fn default() -> (tracker: Self)
        ensures
            tracker.wf(),
            tracker@ == Seq::<FlowEntryView>::empty(),
    {
        FlowTracker::new()
    }
}

} // verus!
