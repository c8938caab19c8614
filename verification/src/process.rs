//! Attribution of packets to local processes from the system's socket
//! owner tables, which also tells the direction of the packet.

use vstd::prelude::*;

use crate::model::{clone_opt_text, opt_text, PacketSummary, PacketSummaryView};
use crate::text::owned_text;

verus! {

/// An IP address by its numeric value (IPv4 in 32 bits, IPv6 in 128).
#[derive(Debug, Clone, Copy, PartialEq, Eq, Structural)]
pub enum IpAddress {
    V4(u32),
    V6(u128),
}

/// The process that owns a socket.
#[derive(Debug)]
pub struct ProcessInfo {
    pub pid: u32,
    pub name: Option<String>,
}

/// A TCP connection and its owner.
#[derive(Debug)]
pub struct TcpOwner {
    pub local_ip: IpAddress,
    pub local_port: u16,
    pub remote_ip: IpAddress,
    pub remote_port: u16,
    pub process: ProcessInfo,
}

/// A UDP endpoint and its owner.
#[derive(Debug)]
pub struct UdpOwner {
    pub local_ip: IpAddress,
    pub local_port: u16,
    pub process: ProcessInfo,
}

/// The socket owner tables as read from the system; when an endpoint is
/// listed more than once, its last row counts.
#[derive(Debug)]
pub struct OwnerTables {
    pub tcp: Vec<TcpOwner>,
    pub udp: Vec<UdpOwner>,
}

/// How the standard library reads an IP address from text
/// (`str::parse::<IpAddr>`), by numeric value; `None` if it is not one.
pub uninterp spec fn parsed_ip_address(text: Seq<char>) -> Option<IpAddress>;

/// `str::parse::<IpAddr>`: an IPv4 or IPv6 address in its standard text
/// form, converted to its numeric value.
#[verifier::external_body]
fn parse_ip_address(text: &str) -> (address: Option<IpAddress>)
    ensures
        address == parsed_ip_address(text@),
{
    match text.parse::<core::net::IpAddr>() {
        Ok(core::net::IpAddr::V4(a)) => Some(IpAddress::V4(u32::from(a))),
        Ok(core::net::IpAddr::V6(a)) => Some(IpAddress::V6(u128::from(a))),
        Err(_) => None,
    }
}

/// Whether a TCP row is the connection from one endpoint to another.
pub open spec fn tcp_row_matches(
    row: TcpOwner,
    local_ip: IpAddress,
    local_port: u16,
    remote_ip: IpAddress,
    remote_port: u16,
) -> bool {
    row.local_ip == local_ip && row.local_port == local_port && row.remote_ip == remote_ip
        && row.remote_port == remote_port
}

/// The last TCP row for a connection.
pub open spec fn last_tcp_row(
    rows: Seq<TcpOwner>,
    local_ip: IpAddress,
    local_port: u16,
    remote_ip: IpAddress,
    remote_port: u16,
) -> Option<int>
    decreases rows.len(),
{
    if rows.len() == 0 {
        None
    } else if tcp_row_matches(rows.last(), local_ip, local_port, remote_ip, remote_port) {
        Some(rows.len() - 1)
    } else {
        last_tcp_row(rows.drop_last(), local_ip, local_port, remote_ip, remote_port)
    }
}

/// The last UDP row for an endpoint.
pub open spec fn last_udp_row(rows: Seq<UdpOwner>, ip: IpAddress, port: u16) -> Option<int>
    decreases rows.len(),
{
    if rows.len() == 0 {
        None
    } else if rows.last().local_ip == ip && rows.last().local_port == port {
        Some(rows.len() - 1)
    } else {
        last_udp_row(rows.drop_last(), ip, port)
    }
}

/// The unspecified address of the same family: what a socket bound to all
/// addresses lists.
pub open spec fn wildcard_of(ip: IpAddress) -> IpAddress {
    match ip {
        IpAddress::V4(_) => IpAddress::V4(0),
        IpAddress::V6(_) => IpAddress::V6(0),
    }
}

/// The UDP row owning an endpoint: the endpoint itself, else a socket bound
/// to all addresses on its port.
pub open spec fn udp_owner_row(rows: Seq<UdpOwner>, ip: IpAddress, port: u16) -> Option<int> {
    match last_udp_row(rows, ip, port) {
        Some(i) => Some(i),
        None => last_udp_row(rows, wildcard_of(ip), port),
    }
}

/// A packet attributed to a process, in a direction.
pub open spec fn attributed(p: PacketSummaryView, pid: u32, name: Option<Seq<char>>, direction: Seq<char>) -> PacketSummaryView {
    PacketSummaryView { process_id: Some(pid), process_name: name, direction, ..p }
}

/// Whether a packet's protocol is attributed to processes: TCP, or UDP
/// (DNS included).
pub open spec fn is_attributable(protocol: Seq<char>) -> bool {
    protocol == "TCP"@ || protocol == "UDP"@ || protocol == "DNS"@
}

/// A packet after attribution with the owner tables. A TCP packet whose
/// connection is owned locally from its source goes out, from its
/// destination comes in; a UDP (or DNS) packet likewise by the owner of its
/// source endpoint, else of its destination endpoint. Packets of other
/// protocols, without two addresses and ports, or with no owner are left
/// as they are.
pub open spec fn enriched(tcp: Seq<TcpOwner>, udp: Seq<UdpOwner>, p: PacketSummaryView) -> PacketSummaryView {
    if !is_attributable(p.protocol) {
        p
    } else {
        match (parsed_ip_address(p.source), parsed_ip_address(p.destination), p.source_port, p.destination_port) {
            (Some(s), Some(d), Some(sp), Some(dp)) => {
                if p.protocol == "TCP"@ {
                    match last_tcp_row(tcp, s, sp, d, dp) {
                        Some(i) => attributed(p, tcp[i].process.pid, opt_text(tcp[i].process.name), "outbound"@),
                        None => match last_tcp_row(tcp, d, dp, s, sp) {
                            Some(i) => attributed(p, tcp[i].process.pid, opt_text(tcp[i].process.name), "inbound"@),
                            None => p,
                        },
                    }
                } else {
                    match udp_owner_row(udp, s, sp) {
                        Some(i) => attributed(p, udp[i].process.pid, opt_text(udp[i].process.name), "outbound"@),
                        None => match udp_owner_row(udp, d, dp) {
                            Some(i) => attributed(p, udp[i].process.pid, opt_text(udp[i].process.name), "inbound"@),
                            None => p,
                        },
                    }
                }
            },
            _ => p,
        }
    }
}

/// How long owner tables are used before they are read again.
pub const OWNER_TABLE_REFRESH_MS: u64 = 750;

/// Whether the owner tables are read before attributing a packet of
/// `protocol` at `now`, when they were last read at `last` (`None`: never):
/// only for packets that can be attributed, and then when never read yet or
/// at least the refresh interval ago.
pub open spec fn refresh_due_at(last: Option<u64>, protocol: Seq<char>, now: u64) -> bool {
    is_attributable(protocol) && match last {
        None => true,
        Some(t) => now.saturating_sub(t) >= OWNER_TABLE_REFRESH_MS,
    }
}

/// When the owner tables were last read after a run of attributions, each
/// given by the packet's protocol and the time of the call, starting from
/// `last`: a call for which a read is due reads them at its time.
pub open spec fn last_read_after(last: Option<u64>, calls: Seq<(Seq<char>, u64)>) -> Option<u64>
    decreases calls.len(),
{
    if calls.len() == 0 {
        last
    } else {
        let prev = last_read_after(last, calls.drop_last());
        if refresh_due_at(prev, calls.last().0, calls.last().1) {
            Some(calls.last().1)
        } else {
            prev
        }
    }
}

/// Whether call `i` of a run that starts from `last` reads the owner tables.
pub open spec fn reads_at(last: Option<u64>, calls: Seq<(Seq<char>, u64)>, i: int) -> bool {
    refresh_due_at(last_read_after(last, calls.take(i)), calls[i].0, calls[i].1)
}

proof fn lemma_last_read_step(last: Option<u64>, calls: Seq<(Seq<char>, u64)>, j: int)
    requires
        0 <= j < calls.len(),
    ensures
        last_read_after(last, calls.take(j + 1)) == (if reads_at(last, calls, j) {
            Some(calls[j].1)
        } else {
            last_read_after(last, calls.take(j))
        }),
{
    assert(calls.take(j + 1).drop_last() =~= calls.take(j));
    assert(calls.take(j + 1).last() == calls[j]);
}

proof fn lemma_last_read_since(calls: Seq<(Seq<char>, u64)>, i: int, j: int)
    requires
        0 <= i < j <= calls.len(),
        reads_at(None, calls, i),
        forall|k: int| i < k < j ==> !#[trigger] reads_at(None, calls, k),
    ensures
        last_read_after(None, calls.take(j)) == Some(calls[i].1),
    decreases j - i,
{
    lemma_last_read_step(None, calls, j - 1);
    if j - 1 > i {
        lemma_last_read_since(calls, i, j - 1);
    }
}

proof fn lemma_never_read_before(calls: Seq<(Seq<char>, u64)>, i: int)
    requires
        0 <= i <= calls.len(),
        forall|k: int| 0 <= k < i ==> !is_attributable(#[trigger] calls[k].0),
    ensures
        last_read_after(None, calls.take(i)) is None,
    decreases i,
{
    if i > 0 {
        lemma_never_read_before(calls, i - 1);
        lemma_last_read_step(None, calls, i - 1);
    }
}

/// The owner-table refresh schedule of a resolver from `new`, over a run of
/// attributions in order: only calls for packets that can be attributed
/// read the tables; the first such call reads them; after a read, the next
/// read is the first later call for such a packet made at least the
/// refresh interval after it.
pub proof fn lemma_refresh_schedule(calls: Seq<(Seq<char>, u64)>)
    ensures
        forall|i: int| 0 <= i < calls.len() && #[trigger] reads_at(None, calls, i) ==> is_attributable(calls[i].0),
        forall|i: int| 0 <= i < calls.len() && is_attributable(calls[i].0)
            && (forall|k: int| 0 <= k < i ==> !is_attributable(#[trigger] calls[k].0))
            ==> #[trigger] reads_at(None, calls, i),
        forall|i: int, j: int| #![trigger reads_at(None, calls, i), reads_at(None, calls, j)]
            0 <= i < j < calls.len() && reads_at(None, calls, i)
            && (forall|k: int| i < k < j ==> !#[trigger] reads_at(None, calls, k)) ==> (reads_at(None, calls, j)
            <==> (is_attributable(calls[j].0) && calls[j].1.saturating_sub(calls[i].1) >= OWNER_TABLE_REFRESH_MS)),
{
    assert forall|i: int| 0 <= i < calls.len() && is_attributable(calls[i].0)
        && (forall|k: int| 0 <= k < i ==> !is_attributable(#[trigger] calls[k].0))
        implies #[trigger] reads_at(None, calls, i) by {
        lemma_never_read_before(calls, i);
    }
    assert forall|i: int, j: int| #![trigger reads_at(None, calls, i), reads_at(None, calls, j)]
        0 <= i < j < calls.len() && reads_at(None, calls, i)
        && (forall|k: int| i < k < j ==> !#[trigger] reads_at(None, calls, k)) implies (reads_at(None, calls, j)
        <==> (is_attributable(calls[j].0) && calls[j].1.saturating_sub(calls[i].1) >= OWNER_TABLE_REFRESH_MS)) by {
        lemma_last_read_since(calls, i, j);
    }
}

/// A port as the owner tables hold it: in network byte order in the low
/// two bytes of a 32-bit field read on a little-endian machine, so its two
/// low bytes are exchanged.
pub fn network_port(value: u32) -> (port: u16)
    ensures
        port == (value % 256) * 256 + (value / 256) % 256,
{
    let low = (value % 256) as u16;
    let high = ((value / 256) % 256) as u16;
    low * 256 + high
}

/// Attributes packets to processes with the latest owner tables.
pub struct ProcessResolver {
    last_refresh_ms: Option<u64>,
    tables: OwnerTables,
}

fn find_tcp_row(
    rows: &Vec<TcpOwner>,
    local_ip: IpAddress,
    local_port: u16,
    remote_ip: IpAddress,
    remote_port: u16,
) -> (found: Option<usize>)
    ensures
        match found {
            Some(i) => last_tcp_row(rows@, local_ip, local_port, remote_ip, remote_port) == Some(i as int),
            None => last_tcp_row(rows@, local_ip, local_port, remote_ip, remote_port) is None,
        },
{
    let mut i = rows.len();
    assert(rows@.take(rows@.len() as int) =~= rows@);
    while i > 0
        invariant
            i <= rows@.len(),
            last_tcp_row(rows@, local_ip, local_port, remote_ip, remote_port)
                == last_tcp_row(rows@.take(i as int), local_ip, local_port, remote_ip, remote_port),
        decreases i,
    {
        let row = &rows[i - 1];
        proof {
            assert(rows@.take(i as int).last() == rows@[i - 1]);
            assert(rows@.take(i as int).drop_last() =~= rows@.take(i - 1));
        }
        if row.local_ip == local_ip && row.local_port == local_port && row.remote_ip == remote_ip
            && row.remote_port == remote_port {
            return Some(i - 1);
        }
        i = i - 1;
    }
    None
}

fn find_udp_row(rows: &Vec<UdpOwner>, ip: IpAddress, port: u16) -> (found: Option<usize>)
    ensures
        match found {
            Some(i) => last_udp_row(rows@, ip, port) == Some(i as int),
            None => last_udp_row(rows@, ip, port) is None,
        },
{
    let mut i = rows.len();
    assert(rows@.take(rows@.len() as int) =~= rows@);
    while i > 0
        invariant
            i <= rows@.len(),
            last_udp_row(rows@, ip, port) == last_udp_row(rows@.take(i as int), ip, port),
        decreases i,
    {
        let row = &rows[i - 1];
        proof {
            assert(rows@.take(i as int).last() == rows@[i - 1]);
            assert(rows@.take(i as int).drop_last() =~= rows@.take(i - 1));
        }
        if row.local_ip == ip && row.local_port == port {
            return Some(i - 1);
        }
        i = i - 1;
    }
    None
}

/// The unspecified address of the same family.
pub fn wildcard(ip: IpAddress) -> (w: IpAddress)
    ensures
        w == wildcard_of(ip),
{
    match ip {
        IpAddress::V4(_) => IpAddress::V4(0),
        IpAddress::V6(_) => IpAddress::V6(0),
    }
}

fn find_udp_owner(rows: &Vec<UdpOwner>, ip: IpAddress, port: u16) -> (found: Option<usize>)
    ensures
        match found {
            Some(i) => udp_owner_row(rows@, ip, port) == Some(i as int),
            None => udp_owner_row(rows@, ip, port) is None,
        },
{
    match find_udp_row(rows, ip, port) {
        Some(i) => Some(i),
        None => find_udp_row(rows, wildcard(ip), port),
    }
}

/// Records the owner and direction of a packet.
pub fn apply_process(packet: &mut PacketSummary, process: &ProcessInfo, direction: &str)
    ensures
        final(packet)@ == attributed(old(packet)@, process.pid, opt_text(process.name), direction@),
{
    packet.process_id = Some(process.pid);
    packet.process_name = clone_opt_text(&process.name);
    packet.direction = owned_text(direction);
}

proof fn lemma_last_udp_row_is(rows: Seq<UdpOwner>, ip: IpAddress, port: u16, j: int)
    requires
        0 <= j < rows.len(),
        rows[j].local_ip == ip && rows[j].local_port == port,
        forall|k: int| j < k < rows.len() ==> !(#[trigger] rows[k].local_ip == ip && rows[k].local_port == port),
    ensures
        last_udp_row(rows, ip, port) == Some(j),
    decreases rows.len(),
{
    if j < rows.len() - 1 {
        let d = rows.drop_last();
        assert(!(rows[rows.len() - 1].local_ip == ip && rows[rows.len() - 1].local_port == port));
        assert forall|k: int| j < k < d.len() implies !(#[trigger] d[k].local_ip == ip && d[k].local_port == port) by {
            assert(d[k] == rows[k]);
        }
        lemma_last_udp_row_is(d, ip, port, j);
    }
}

proof fn lemma_last_udp_row_none(rows: Seq<UdpOwner>, ip: IpAddress, port: u16)
    requires
        forall|k: int| 0 <= k < rows.len() ==> !(#[trigger] rows[k].local_ip == ip && rows[k].local_port == port),
    ensures
        last_udp_row(rows, ip, port) is None,
    decreases rows.len(),
{
    if rows.len() > 0 {
        let d = rows.drop_last();
        assert(!(rows[rows.len() - 1].local_ip == ip && rows[rows.len() - 1].local_port == port));
        assert forall|k: int| 0 <= k < d.len() implies !(#[trigger] d[k].local_ip == ip && d[k].local_port == port) by {
            assert(d[k] == rows[k]);
        }
        lemma_last_udp_row_none(d, ip, port);
    }
}

proof fn lemma_last_tcp_row_is(rows: Seq<TcpOwner>, a: IpAddress, ap: u16, b: IpAddress, bp: u16, j: int)
    requires
        0 <= j < rows.len(),
        rows[j].local_ip == a && rows[j].local_port == ap && rows[j].remote_ip == b && rows[j].remote_port == bp,
        forall|k: int| j < k < rows.len() ==> !(#[trigger] rows[k].local_ip == a && rows[k].local_port == ap
            && rows[k].remote_ip == b && rows[k].remote_port == bp),
    ensures
        last_tcp_row(rows, a, ap, b, bp) == Some(j),
    decreases rows.len(),
{
    if j < rows.len() - 1 {
        let d = rows.drop_last();
        let l = rows[rows.len() - 1];
        assert(!(l.local_ip == a && l.local_port == ap && l.remote_ip == b && l.remote_port == bp));
        assert forall|k: int| j < k < d.len() implies !(#[trigger] d[k].local_ip == a && d[k].local_port == ap
            && d[k].remote_ip == b && d[k].remote_port == bp) by {
            assert(d[k] == rows[k]);
        }
        lemma_last_tcp_row_is(d, a, ap, b, bp, j);
    }
}

proof fn lemma_last_tcp_row_none(rows: Seq<TcpOwner>, a: IpAddress, ap: u16, b: IpAddress, bp: u16)
    requires
        forall|k: int| 0 <= k < rows.len() ==> !(#[trigger] rows[k].local_ip == a && rows[k].local_port == ap
            && rows[k].remote_ip == b && rows[k].remote_port == bp),
    ensures
        last_tcp_row(rows, a, ap, b, bp) is None,
    decreases rows.len(),
{
    if rows.len() > 0 {
        let d = rows.drop_last();
        let l = rows[rows.len() - 1];
        assert(!(l.local_ip == a && l.local_port == ap && l.remote_ip == b && l.remote_port == bp));
        assert forall|k: int| 0 <= k < d.len() implies !(#[trigger] d[k].local_ip == a && d[k].local_port == ap
            && d[k].remote_ip == b && d[k].remote_port == bp) by {
            assert(d[k] == rows[k]);
        }
        lemma_last_tcp_row_none(d, a, ap, b, bp);
    }
}

/// The unspecified address of an address's family (0.0.0.0 or ::).
pub open spec fn unspecified(ip: IpAddress) -> IpAddress {
    match ip {
        IpAddress::V4(_) => IpAddress::V4(0),
        IpAddress::V6(_) => IpAddress::V6(0),
    }
}

/// Whether some UDP row lists the endpoint, or a socket bound to all
/// addresses of its family on its port.
pub open spec fn udp_endpoint_owned(rows: Seq<UdpOwner>, ip: IpAddress, port: u16) -> bool {
    exists|k: int| 0 <= k < rows.len() && #[trigger] rows[k].local_port == port
        && (rows[k].local_ip == ip || rows[k].local_ip == unspecified(ip))
}

/// Row `j` is the owner of a UDP endpoint: the last row listing the
/// endpoint itself, or, when none does, the last row bound to all
/// addresses of its family on its port.
pub open spec fn udp_owner_is(rows: Seq<UdpOwner>, ip: IpAddress, port: u16, j: int) -> bool {
    &&& 0 <= j < rows.len()
    &&& rows[j].local_port == port
    &&& (rows[j].local_ip == ip || (rows[j].local_ip == unspecified(ip) && forall|k: int| 0 <= k < rows.len()
        ==> !(#[trigger] rows[k].local_ip == ip && rows[k].local_port == port)))
    &&& forall|k: int| j < k < rows.len() ==> !(#[trigger] rows[k].local_ip == rows[j].local_ip && rows[k].local_port
        == port)
}

proof fn lemma_udp_owner(rows: Seq<UdpOwner>, ip: IpAddress, port: u16, j: int)
    requires
        udp_owner_is(rows, ip, port, j),
    ensures
        udp_owner_row(rows, ip, port) == Some(j),
{
    if rows[j].local_ip == ip {
        lemma_last_udp_row_is(rows, ip, port, j);
    } else {
        lemma_last_udp_row_none(rows, ip, port);
        lemma_last_udp_row_is(rows, unspecified(ip), port, j);
    }
}

proof fn lemma_udp_unowned(rows: Seq<UdpOwner>, ip: IpAddress, port: u16)
    requires
        !udp_endpoint_owned(rows, ip, port),
    ensures
        udp_owner_row(rows, ip, port) is None,
{
    assert forall|k: int| 0 <= k < rows.len() implies !(#[trigger] rows[k].local_ip == ip && rows[k].local_port
        == port) by {
        if rows[k].local_ip == ip && rows[k].local_port == port {
            assert(udp_endpoint_owned(rows, ip, port));
        }
    }
    assert forall|k: int| 0 <= k < rows.len() implies !(#[trigger] rows[k].local_ip == unspecified(ip)
        && rows[k].local_port == port) by {
        if rows[k].local_ip == unspecified(ip) && rows[k].local_port == port {
            assert(udp_endpoint_owned(rows, ip, port));
        }
    }
    lemma_last_udp_row_none(rows, ip, port);
    lemma_last_udp_row_none(rows, unspecified(ip), port);
}

/// UDP (and DNS) attribution, in terms of the rows: a packet whose source
/// endpoint is owned goes out from the owner of the source; else one whose
/// destination endpoint is owned comes in to the owner of the destination;
/// an endpoint's owner is the last row listing it, or, when none does, the
/// last socket bound to all addresses of its family on its port; a packet
/// with neither endpoint owned is left as it is.
pub proof fn lemma_udp_attribution(
    tcp: Seq<TcpOwner>,
    udp: Seq<UdpOwner>,
    p: PacketSummaryView,
    s: IpAddress,
    sp: u16,
    d: IpAddress,
    dp: u16,
    j: int,
)
    requires
        p.protocol == "UDP"@ || p.protocol == "DNS"@,
        parsed_ip_address(p.source) == Some(s),
        parsed_ip_address(p.destination) == Some(d),
        p.source_port == Some(sp),
        p.destination_port == Some(dp),
    ensures
        udp_owner_is(udp, s, sp, j) ==> enriched(tcp, udp, p) == (PacketSummaryView {
            process_id: Some(udp[j].process.pid),
            process_name: opt_text(udp[j].process.name),
            direction: "outbound"@,
            ..p
        }),
        !udp_endpoint_owned(udp, s, sp) && udp_owner_is(udp, d, dp, j) ==> enriched(tcp, udp, p)
            == (PacketSummaryView {
            process_id: Some(udp[j].process.pid),
            process_name: opt_text(udp[j].process.name),
            direction: "inbound"@,
            ..p
        }),
        !udp_endpoint_owned(udp, s, sp) && !udp_endpoint_owned(udp, d, dp) ==> enriched(tcp, udp, p) == p,
{
    reveal_strlit("TCP");
    reveal_strlit("UDP");
    reveal_strlit("DNS");
    assert(p.protocol != "TCP"@) by {
        if p.protocol == "UDP"@ {
            assert("UDP"@[0] != "TCP"@[0]);
        } else {
            assert("DNS"@[0] != "TCP"@[0]);
        }
    }
    if udp_owner_is(udp, s, sp, j) {
        lemma_udp_owner(udp, s, sp, j);
    }
    if !udp_endpoint_owned(udp, s, sp) {
        lemma_udp_unowned(udp, s, sp);
        if udp_owner_is(udp, d, dp, j) {
            lemma_udp_owner(udp, d, dp, j);
        }
        if !udp_endpoint_owned(udp, d, dp) {
            lemma_udp_unowned(udp, d, dp);
        }
    }
}

/// TCP attribution, in terms of the rows: a packet of a connection listed
/// from its source to its destination goes out from the owner of the last
/// such row; else one listed from its destination to its source comes in to
/// the owner of the last such row; a packet of no listed connection is left
/// as it is.
pub proof fn lemma_tcp_attribution(
    tcp: Seq<TcpOwner>,
    udp: Seq<UdpOwner>,
    p: PacketSummaryView,
    s: IpAddress,
    sp: u16,
    d: IpAddress,
    dp: u16,
    j: int,
)
    requires
        p.protocol == "TCP"@,
        parsed_ip_address(p.source) == Some(s),
        parsed_ip_address(p.destination) == Some(d),
        p.source_port == Some(sp),
        p.destination_port == Some(dp),
    ensures
        (0 <= j < tcp.len() && tcp[j].local_ip == s && tcp[j].local_port == sp && tcp[j].remote_ip == d
            && tcp[j].remote_port == dp && forall|k: int| j < k < tcp.len() ==> !(#[trigger] tcp[k].local_ip == s
            && tcp[k].local_port == sp && tcp[k].remote_ip == d && tcp[k].remote_port == dp)) ==> enriched(tcp, udp, p)
            == (PacketSummaryView {
            process_id: Some(tcp[j].process.pid),
            process_name: opt_text(tcp[j].process.name),
            direction: "outbound"@,
            ..p
        }),
        ((forall|k: int| 0 <= k < tcp.len() ==> !(#[trigger] tcp[k].local_ip == s && tcp[k].local_port == sp
            && tcp[k].remote_ip == d && tcp[k].remote_port == dp)) && 0 <= j < tcp.len() && tcp[j].local_ip == d
            && tcp[j].local_port == dp && tcp[j].remote_ip == s && tcp[j].remote_port == sp && forall|k: int|
            j < k < tcp.len() ==> !(#[trigger] tcp[k].local_ip == d && tcp[k].local_port == dp && tcp[k].remote_ip
            == s && tcp[k].remote_port == sp)) ==> enriched(tcp, udp, p) == (PacketSummaryView {
            process_id: Some(tcp[j].process.pid),
            process_name: opt_text(tcp[j].process.name),
            direction: "inbound"@,
            ..p
        }),
        ((forall|k: int| 0 <= k < tcp.len() ==> !(#[trigger] tcp[k].local_ip == s && tcp[k].local_port == sp
            && tcp[k].remote_ip == d && tcp[k].remote_port == dp)) && (forall|k: int| 0 <= k < tcp.len()
            ==> !(#[trigger] tcp[k].local_ip == d && tcp[k].local_port == dp && tcp[k].remote_ip == s
            && tcp[k].remote_port == sp))) ==> enriched(tcp, udp, p) == p,
{
    if 0 <= j < tcp.len() && tcp[j].local_ip == s && tcp[j].local_port == sp && tcp[j].remote_ip == d
        && tcp[j].remote_port == dp && forall|k: int| j < k < tcp.len() ==> !(#[trigger] tcp[k].local_ip == s
        && tcp[k].local_port == sp && tcp[k].remote_ip == d && tcp[k].remote_port == dp) {
        lemma_last_tcp_row_is(tcp, s, sp, d, dp, j);
    }
    if forall|k: int| 0 <= k < tcp.len() ==> !(#[trigger] tcp[k].local_ip == s && tcp[k].local_port == sp
        && tcp[k].remote_ip == d && tcp[k].remote_port == dp) {
        lemma_last_tcp_row_none(tcp, s, sp, d, dp);
        if 0 <= j < tcp.len() && tcp[j].local_ip == d && tcp[j].local_port == dp && tcp[j].remote_ip == s
            && tcp[j].remote_port == sp && forall|k: int| j < k < tcp.len() ==> !(#[trigger] tcp[k].local_ip == d
            && tcp[k].local_port == dp && tcp[k].remote_ip == s && tcp[k].remote_port == sp) {
            lemma_last_tcp_row_is(tcp, d, dp, s, sp, j);
        }
        if forall|k: int| 0 <= k < tcp.len() ==> !(#[trigger] tcp[k].local_ip == d && tcp[k].local_port == dp
            && tcp[k].remote_ip == s && tcp[k].remote_port == sp) {
            lemma_last_tcp_row_none(tcp, d, dp, s, sp);
        }
    }
}

/// Packets of protocols other than TCP, UDP and DNS, and packets without
/// two parsable addresses and two ports, are never attributed.
pub proof fn lemma_unattributable_left_alone(tcp: Seq<TcpOwner>, udp: Seq<UdpOwner>, p: PacketSummaryView)
    ensures
        !(p.protocol == "TCP"@ || p.protocol == "UDP"@ || p.protocol == "DNS"@) ==> enriched(tcp, udp, p) == p,
        (parsed_ip_address(p.source) is None || parsed_ip_address(p.destination) is None
            || p.source_port is None || p.destination_port is None) ==> enriched(tcp, udp, p) == p,
{
}

/// Attribution changes nothing of a packet but its process and direction,
/// and the direction it gives is outbound or inbound; a packet that no
/// owner row matches keeps the direction it had.
pub proof fn lemma_enrich_changes_only_attribution(tcp: Seq<TcpOwner>, udp: Seq<UdpOwner>, p: PacketSummaryView)
    ensures
        ({
            let e = enriched(tcp, udp, p);
            &&& e == (PacketSummaryView {
                process_id: e.process_id,
                process_name: e.process_name,
                direction: e.direction,
                ..p
            })
            &&& e.direction == p.direction || e.direction == "outbound"@ || e.direction == "inbound"@
            &&& e.direction != p.direction ==> e.process_id is Some
        }),
{
}

proof fn lemma_row_in_range_tcp(rows: Seq<TcpOwner>, a: IpAddress, ap: u16, b: IpAddress, bp: u16)
    ensures
        last_tcp_row(rows, a, ap, b, bp) matches Some(i) ==> 0 <= i < rows.len(),
    decreases rows.len(),
{
    if rows.len() > 0 {
        lemma_row_in_range_tcp(rows.drop_last(), a, ap, b, bp);
    }
}

impl ProcessResolver {
    /// A resolver that has not read the owner tables yet.
    pub fn new() -> (resolver: Self)
        ensures
            resolver.last_refresh() is None,
            resolver.tcp_rows().len() == 0,
            resolver.udp_rows().len() == 0,
    {
        ProcessResolver { last_refresh_ms: None, tables: OwnerTables { tcp: Vec::new(), udp: Vec::new() } }
    }

    /// When the tables were last read, in milliseconds of a monotonic clock.
    pub closed spec fn last_refresh(&self) -> Option<u64> {
        self.last_refresh_ms
    }

    /// The TCP owner rows in use.
    pub closed spec fn tcp_rows(&self) -> Seq<TcpOwner> {
        self.tables.tcp@
    }

    /// The UDP owner rows in use.
    pub closed spec fn udp_rows(&self) -> Seq<UdpOwner> {
        self.tables.udp@
    }

    /// Whether the owner tables must be read before attributing `packet` at
    /// `now_ms`: only packets that can be attributed need them, and the
    /// tables are read when never read yet or at least the refresh interval
    /// ago.
    pub fn refresh_due(&self, packet: &PacketSummary, now_ms: u64) -> (due: bool)
        ensures
            due == refresh_due_at(self.last_refresh(), packet@.protocol, now_ms),
    {
        let attributable = packet.protocol == owned_text("TCP") || packet.protocol == owned_text("UDP")
            || packet.protocol == owned_text("DNS");
        attributable && match self.last_refresh_ms {
            None => true,
            Some(t) => now_ms.saturating_sub(t) >= OWNER_TABLE_REFRESH_MS,
        }
    }

    /// Puts freshly read owner tables in use.
    pub fn install_tables(&mut self, tables: OwnerTables, now_ms: u64)
        ensures
            final(self).last_refresh() == Some(now_ms),
            final(self).tcp_rows() == tables.tcp@,
            final(self).udp_rows() == tables.udp@,
    {
        self.tables = tables;
        self.last_refresh_ms = Some(now_ms);
    }

    /// Attributes a packet to the process owning its connection or
    /// endpoint, which also fixes its direction.
    pub fn enrich(&self, packet: &mut PacketSummary)
        ensures
            final(packet)@ == enriched(self.tcp_rows(), self.udp_rows(), old(packet)@),
    {
        let is_tcp = packet.protocol == owned_text("TCP");
        let is_udp = packet.protocol == owned_text("UDP") || packet.protocol == owned_text("DNS");
        if !is_tcp && !is_udp {
            return;
        }
        let source_ip = parse_ip_address(packet.source.as_str());
        let destination_ip = parse_ip_address(packet.destination.as_str());
        let (s, d, sp, dp) = match (source_ip, destination_ip, packet.source_port, packet.destination_port) {
            (Some(s), Some(d), Some(sp), Some(dp)) => (s, d, sp, dp),
            _ => return,
        };
        if is_tcp {
            proof {
                lemma_row_in_range_tcp(self.tables.tcp@, s, sp, d, dp);
                lemma_row_in_range_tcp(self.tables.tcp@, d, dp, s, sp);
            }
            match find_tcp_row(&self.tables.tcp, s, sp, d, dp) {
                Some(i) => apply_process(packet, &self.tables.tcp[i].process, "outbound"),
                None => match find_tcp_row(&self.tables.tcp, d, dp, s, sp) {
                    Some(i) => apply_process(packet, &self.tables.tcp[i].process, "inbound"),
                    None => {},
                },
            }
        } else {
            proof {
                lemma_row_in_range_udp(self.tables.udp@, s, sp);
                lemma_row_in_range_udp(self.tables.udp@, wildcard_of(s), sp);
                lemma_row_in_range_udp(self.tables.udp@, d, dp);
                lemma_row_in_range_udp(self.tables.udp@, wildcard_of(d), dp);
            }
            match find_udp_owner(&self.tables.udp, s, sp) {
                Some(i) => apply_process(packet, &self.tables.udp[i].process, "outbound"),
                None => match find_udp_owner(&self.tables.udp, d, dp) {
                    Some(i) => apply_process(packet, &self.tables.udp[i].process, "inbound"),
                    None => {},
                },
            }
        }
    }
}

proof fn lemma_row_in_range_udp(rows: Seq<UdpOwner>, ip: IpAddress, port: u16)
    ensures
        last_udp_row(rows, ip, port) matches Some(i) ==> 0 <= i < rows.len(),
    decreases rows.len(),
{
    if rows.len() > 0 {
        lemma_row_in_range_udp(rows.drop_last(), ip, port);
    }
}

} // verus!
