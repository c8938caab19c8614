//! The capture driver boundary: what the driver's answers mean to the user,
//! and the decisions around opening a capture and reading its packets.

use vstd::prelude::*;

use crate::model::{clone_opt_text, opt_text, CaptureRequest, NetworkInterface};

verus! {

/// The message given where live capture is not available.
pub open spec fn unsupported_platform_text() -> Seq<char> {
    "PacketLens 当前只支持 Windows 实时抓包"@
}

/// The message given where live capture is not available.
pub fn unsupported_platform_message() -> (message: String)
    ensures
        message@ == unsupported_platform_text(),
{
    String::from_str("PacketLens 当前只支持 Windows 实时抓包")
}

/// Whether Npcap is available, from the outcome of loading its library
/// (`wpcap.dll` with every entry point the capture needs): it is when the
/// load succeeded. Where there is no driver to load, the outcome is the
/// error of [`unsupported_platform_message`].
pub fn available(load: &Result<(), String>) -> (present: bool)
    ensures
        present == load is Ok,
{
    load.is_ok()
}

/// A capture device as the driver lists it: its name and description (if
/// the driver gave them) and its flag word.
#[derive(Debug, Clone)]
pub struct CaptureDevice {
    pub name: Option<String>,
    pub description: Option<String>,
    pub flags: u32,
}

/// The driver's flag of a loopback device.
pub const PCAP_IF_LOOPBACK: u32 = 0x0000_0001;

/// The name of a listed device, empty when the driver gave none.
pub open spec fn device_name(d: CaptureDevice) -> Seq<char> {
    match d.name {
        Some(n) => n@,
        None => Seq::empty(),
    }
}

/// The devices that are offered for capture: those with a non-empty name,
/// in the driver's order.
pub open spec fn offered_devices(devices: Seq<CaptureDevice>) -> Seq<CaptureDevice>
    decreases devices.len(),
{
    if devices.len() == 0 {
        Seq::empty()
    } else {
        let rest = offered_devices(devices.drop_last());
        if device_name(devices.last()).len() > 0 {
            rest.push(devices.last())
        } else {
            rest
        }
    }
}

/// How a device is offered: its name and description, no addresses, and
/// whether it is a loopback device.
pub open spec fn offered_as(i: NetworkInterface, d: CaptureDevice) -> bool {
    &&& i.name@ == device_name(d)
    &&& opt_text(i.description) == opt_text(d.description)
    &&& i.addresses@.len() == 0
    &&& i.loopback == (d.flags & PCAP_IF_LOOPBACK != 0)
}

/// The interfaces offered for a list of devices: one for each device with a
/// non-empty name, in order.
pub open spec fn offers(interfaces: Seq<NetworkInterface>, devices: Seq<CaptureDevice>) -> bool {
    &&& interfaces.len() == offered_devices(devices).len()
    &&& forall|i: int| 0 <= i < interfaces.len() ==> offered_as(#[trigger] interfaces[i], offered_devices(devices)[i])
}

/// The capture devices, from what listing them with the driver gave: its
/// error as it is, or an interface for each device with a non-empty name,
/// in the driver's order. Where there is no driver, the listing is the
/// error of [`unsupported_platform_message`].
pub fn interfaces(listing: Result<Vec<CaptureDevice>, String>) -> (result: Result<Vec<NetworkInterface>, String>)
    ensures
        match listing {
            Err(e) => result matches Err(f) && f@ == e@,
            Ok(devices) => result matches Ok(v) && offers(v@, devices@),
        },
{
    match listing {
        Err(e) => Err(e),
        Ok(devices) => {
            let mut out: Vec<NetworkInterface> = Vec::new();
            let mut i: usize = 0;
            while i < devices.len()
                invariant
                    i <= devices@.len(),
                    offers(out@, devices@.take(i as int)),
                decreases devices@.len() - i,
            {
                let ghost before = out@;
                proof {
                    assert(devices@.take(i + 1).drop_last() =~= devices@.take(i as int));
                    assert(devices@.take(i + 1).last() == devices@[i as int]);
                }
                let d = &devices[i];
                match &d.name {
                    Some(n) => {
                        if n.as_str().unicode_len() > 0 {
                            out.push(NetworkInterface {
                                name: n.clone(),
                                description: clone_opt_text(&d.description),
                                addresses: Vec::new(),
                                loopback: d.flags & PCAP_IF_LOOPBACK != 0,
                            });
                            proof {
                                assert forall|k: int| 0 <= k < out@.len() implies offered_as(
                                    #[trigger] out@[k],
                                    offered_devices(devices@.take(i + 1))[k],
                                ) by {
                                    if k < before.len() {
                                        assert(out@[k] == before[k]);
                                    }
                                }
                            }
                        }
                    },
                    None => {},
                }
                i = i + 1;
            }
            assert(devices@.take(devices@.len() as int) =~= devices@);
            Ok(out)
        },
    }
}

/// Whether Npcap is available, from the outcome of loading it (see
/// [`available`]).
pub fn npcap_available(load: &Result<(), String>) -> (present: bool)
    ensures
        present == load is Ok,
{
    available(load)
}

/// The capture devices offered to the user, from the driver's listing (see
/// [`interfaces`]).
pub fn list_interfaces(listing: Result<Vec<CaptureDevice>, String>) -> (result: Result<Vec<NetworkInterface>, String>)
    ensures
        match listing {
            Err(e) => result matches Err(f) && f@ == e@,
            Ok(devices) => result matches Ok(v) && offers(v@, devices@),
        },
{
    interfaces(listing)
}

/// Smallest snapshot length asked of the driver.
pub const MIN_SNAPSHOT_LENGTH: i32 = 64;
/// Largest snapshot length asked of the driver.
pub const MAX_SNAPSHOT_LENGTH: i32 = 65_535;
/// Read timeout asked of the driver, in milliseconds.
pub const READ_TIMEOUT_MS: i32 = 200;

/// The snapshot length asked of the driver: the requested one, within
/// 64 and 65535 bytes.
pub fn snapshot_length(request: &CaptureRequest) -> (length: i32)
    ensures
        length == (if request.snapshot_length < MIN_SNAPSHOT_LENGTH {
            MIN_SNAPSHOT_LENGTH
        } else if request.snapshot_length > MAX_SNAPSHOT_LENGTH {
            MAX_SNAPSHOT_LENGTH
        } else {
            request.snapshot_length
        }),
{
    if request.snapshot_length < MIN_SNAPSHOT_LENGTH {
        MIN_SNAPSHOT_LENGTH
    } else if request.snapshot_length > MAX_SNAPSHOT_LENGTH {
        MAX_SNAPSHOT_LENGTH
    } else {
        request.snapshot_length
    }
}

/// The promiscuous-mode flag passed to the driver: 1 when requested, else 0.
pub fn promiscuous_flag(request: &CaptureRequest) -> (flag: i32)
    ensures
        flag == (if request.promiscuous { 1i32 } else { 0i32 }),
{
    if request.promiscuous { 1 } else { 0 }
}

/// The characters that `char::is_whitespace` accepts: those with the
/// Unicode White_Space property.
pub open spec fn is_white_space(c: char) -> bool {
    let u = c as u32;
    (0x09 <= u && u <= 0x0D) || u == 0x20 || u == 0x85 || u == 0xA0 || u == 0x1680 || (0x2000 <= u && u
        <= 0x200A) || u == 0x2028 || u == 0x2029 || u == 0x202F || u == 0x205F || u == 0x3000
}

/// A text that is empty once trimmed of white space.
pub open spec fn is_blank(t: Seq<char>) -> bool {
    forall|i: int| 0 <= i < t.len() ==> is_white_space(#[trigger] t[i])
}

fn is_white_space_exec(c: char) -> (r: bool)
    ensures
        r == is_white_space(c),
{
    let u = c as u32;
    (0x09 <= u && u <= 0x0D) || u == 0x20 || u == 0x85 || u == 0xA0 || u == 0x1680 || (0x2000 <= u && u
        <= 0x200A) || u == 0x2028 || u == 0x2029 || u == 0x202F || u == 0x205F || u == 0x3000
}

/// Whether a text holds nothing but white space.
pub fn blank(t: &str) -> (r: bool)
    ensures
        r == is_blank(t@),
{
    let n = t.unicode_len();
    let mut i: usize = 0;
    while i < n
        invariant
            n == t@.len(),
            i <= n,
            forall|j: int| 0 <= j < i ==> is_white_space(#[trigger] t@[j]),
        decreases n - i,
    {
        if !is_white_space_exec(t.get_char(i)) {
            return false;
        }
        i = i + 1;
    }
    true
}

/// A text without its leading white space.
pub open spec fn trim_start(t: Seq<char>) -> Seq<char>
    decreases t.len(),
{
    if t.len() > 0 && is_white_space(t[0]) {
        trim_start(t.drop_first())
    } else {
        t
    }
}

/// A text without its trailing white space.
pub open spec fn trim_end(t: Seq<char>) -> Seq<char>
    decreases t.len(),
{
    if t.len() > 0 && is_white_space(t.last()) {
        trim_end(t.drop_last())
    } else {
        t
    }
}

/// A text without its leading and trailing white space, as `str::trim`
/// leaves it.
pub open spec fn trimmed(t: Seq<char>) -> Seq<char> {
    trim_end(trim_start(t))
}

proof fn lemma_trim_start(t: Seq<char>, i: int)
    requires
        0 <= i <= t.len(),
        forall|k: int| 0 <= k < i ==> is_white_space(#[trigger] t[k]),
        i == t.len() || !is_white_space(t[i]),
    ensures
        trim_start(t) == t.subrange(i, t.len() as int),
    decreases i,
{
    if i == 0 {
        assert(t.subrange(0, t.len() as int) =~= t);
    } else {
        let d = t.drop_first();
        assert forall|k: int| 0 <= k < i - 1 implies is_white_space(#[trigger] d[k]) by {
            assert(d[k] == t[k + 1]);
        }
        assert(is_white_space(t[0]));
        lemma_trim_start(d, i - 1);
        assert(d.subrange(i - 1, d.len() as int) =~= t.subrange(i, t.len() as int));
    }
}

proof fn lemma_trim_end(t: Seq<char>, j: int)
    requires
        0 <= j <= t.len(),
        forall|k: int| j <= k < t.len() ==> is_white_space(#[trigger] t[k]),
        j == 0 || !is_white_space(t[j - 1]),
    ensures
        trim_end(t) == t.subrange(0, j),
    decreases t.len() - j,
{
    if j == t.len() {
        assert(t.subrange(0, j) =~= t);
        if t.len() > 0 {
            assert(t.last() == t[j - 1]);
        }
    } else {
        let d = t.drop_last();
        assert(is_white_space(t[t.len() - 1]));
        assert forall|k: int| j <= k < d.len() implies is_white_space(#[trigger] d[k]) by {
            assert(d[k] == t[k]);
        }
        if j > 0 {
            assert(d[j - 1] == t[j - 1]);
        }
        lemma_trim_end(d, j);
        assert(d.subrange(0, j) =~= t.subrange(0, j));
    }
}

/// A text trimmed of leading and trailing white space.
pub fn trim_text(t: &str) -> (r: String)
    ensures
        r@ == trimmed(t@),
{
    let n = t.unicode_len();
    let mut i: usize = 0;
    while i < n && is_white_space_exec(t.get_char(i))
        invariant
            n == t@.len(),
            i <= n,
            forall|k: int| 0 <= k < i ==> is_white_space(#[trigger] t@[k]),
        decreases n - i,
    {
        i = i + 1;
    }
    proof { lemma_trim_start(t@, i as int); }
    let mut j: usize = n;
    while j > i && is_white_space_exec(t.get_char(j - 1))
        invariant
            n == t@.len(),
            i <= j <= n,
            forall|k: int| j <= k < n ==> is_white_space(#[trigger] t@[k]),
        decreases j - i,
    {
        j = j - 1;
    }
    proof {
        let u = t@.subrange(i as int, n as int);
        assert forall|k: int| j - i <= k < u.len() implies is_white_space(#[trigger] u[k]) by {
            assert(u[k] == t@[k + i]);
        }
        if j > i {
            assert(u[j - i - 1] == t@[j - 1]);
        }
        lemma_trim_end(u, j - i);
        assert(u.subrange(0, j - i) =~= t@.subrange(i as int, j as int));
    }
    t.substring_char(i, j).to_owned()
}

/// The bytes of a text that a C string buffer holds: those before the
/// first NUL, all of them if it has none.
pub open spec fn until_nul(b: Seq<u8>) -> Seq<u8>
    decreases b.len(),
{
    if b.len() == 0 || b[0] == 0 {
        Seq::empty()
    } else {
        seq![b[0]] + until_nul(b.drop_first())
    }
}

proof fn lemma_until_nul(b: Seq<u8>, n: int)
    requires
        0 <= n <= b.len(),
        forall|k: int| 0 <= k < n ==> #[trigger] b[k] != 0,
        n == b.len() || b[n] == 0,
    ensures
        until_nul(b) == b.take(n),
    decreases n,
{
    if n == 0 {
        assert(b.take(0) =~= Seq::<u8>::empty());
    } else {
        let d = b.drop_first();
        assert forall|k: int| 0 <= k < n - 1 implies #[trigger] d[k] != 0 by {
            assert(d[k] == b[k + 1]);
        }
        assert(b[0] != 0);
        lemma_until_nul(d, n - 1);
        assert(seq![b[0]] + d.take(n - 1) =~= b.take(n));
    }
}

/// The bytes before the first NUL of a C string buffer.
pub fn nul_terminated_bytes(buffer: &[u8]) -> (bytes: Vec<u8>)
    ensures
        bytes@ == until_nul(buffer@),
{
    let mut bytes: Vec<u8> = Vec::new();
    let mut i: usize = 0;
    while i < buffer.len() && buffer[i] != 0
        invariant
            i <= buffer@.len(),
            bytes@ == buffer@.take(i as int),
            forall|k: int| 0 <= k < i ==> #[trigger] buffer@[k] != 0,
        decreases buffer@.len() - i,
    {
        bytes.push(buffer[i]);
        assert(bytes@ =~= buffer@.take(i + 1));
        i = i + 1;
    }
    proof { lemma_until_nul(buffer@, i as int); }
    bytes
}

/// What `String::from_utf8_lossy` makes of some bytes.
pub uninterp spec fn lossy_utf8_text(bytes: Seq<u8>) -> Seq<char>;

/// `String::from_utf8_lossy`, owned: the text of some bytes, each invalid
/// sequence replaced by U+FFFD. What it makes of valid UTF-8 is the decoded
/// text; of other bytes, only that it is the named result.
#[verifier::external_body]
fn lossy_utf8(bytes: &[u8]) -> (text: String)
    ensures
        text@ == lossy_utf8_text(bytes@),
        vstd::utf8::valid_utf8(bytes@) ==> text@ == vstd::utf8::decode_utf8(bytes@),
{
    String::from_utf8_lossy(bytes).into_owned()
}

/// The message given when the driver reported an error without words.
pub open spec fn driver_failure_text() -> Seq<char> {
    "Npcap 操作失败"@
}

/// The error message of a decoded driver error text: the text trimmed, or a
/// generic message when nothing is left.
pub open spec fn driver_error_message(decoded: Seq<char>) -> Seq<char> {
    if trimmed(decoded).len() == 0 {
        driver_failure_text()
    } else {
        trimmed(decoded)
    }
}

/// The error message for a driver error text already decoded.
pub fn driver_error_text(decoded: &str) -> (message: String)
    ensures
        message@ == driver_error_message(decoded@),
{
    let t = trim_text(decoded);
    if t.unicode_len() == 0 {
        String::from_str("Npcap 操作失败")
    } else {
        t
    }
}

/// The error message in a driver's error buffer: its text up to the first
/// NUL, decoded leniently and trimmed, or a generic message when nothing is
/// left.
pub fn error_buffer_text(buffer: &[u8]) -> (message: String)
    ensures
        message@ == driver_error_message(lossy_utf8_text(until_nul(buffer@))),
{
    let bytes = nul_terminated_bytes(buffer);
    let decoded = lossy_utf8(bytes.as_slice());
    driver_error_text(decoded.as_str())
}

/// The capture filter to install: the requested one unless it is missing or
/// blank.
pub fn effective_filter(request: &CaptureRequest) -> (filter: Option<String>)
    ensures
        match request.filter {
            Some(f) if !is_blank(f@) => filter matches Some(g) && g@ == f@,
            _ => filter is None,
        },
{
    match &request.filter {
        Some(f) => {
            if blank(f.as_str()) {
                None
            } else {
                Some(f.clone())
            }
        },
        None => None,
    }
}

/// What one read from the driver produced.
#[derive(Debug, Clone, Copy, PartialEq, Eq)]
pub enum ReadOutcome {
    /// A packet, with its header and bytes.
    Packet,
    /// No packet within the read timeout, or the end of a capture file.
    Nothing,
    /// The driver reported an error.
    Failure,
}

/// How the driver's return code of `pcap_next_ex` is read: 1 with both a
/// header and data is a packet, 0 (timeout) and -2 (end of file) bring
/// nothing, anything else is an error.
pub fn read_outcome(code: i32, has_header: bool, has_data: bool) -> (outcome: ReadOutcome)
    ensures
        outcome == (if code == 1 && has_header && has_data {
            ReadOutcome::Packet
        } else if code == 0 || code == -2 {
            ReadOutcome::Nothing
        } else {
            ReadOutcome::Failure
        }),
{
    if code == 1 && has_header && has_data {
        ReadOutcome::Packet
    } else if code == 0 || code == -2 {
        ReadOutcome::Nothing
    } else {
        ReadOutcome::Failure
    }
}

/// The capture time of a packet in microseconds: negative seconds and
/// microseconds count as 0, and the sum saturates.
pub fn packet_timestamp_micros(seconds: i32, micros: i32) -> (timestamp: u64)
    ensures
        ({
            let s: int = if seconds < 0 { 0 } else { seconds as int };
            let m: int = if micros < 0 { 0 } else { micros as int };
            let scaled: int = if s * 1_000_000 > u64::MAX { u64::MAX as int } else { s * 1_000_000 };
            timestamp == (if scaled + m > u64::MAX { u64::MAX as int } else { scaled + m })
        }),
{
    let s: u64 = if seconds < 0 { 0 } else { seconds as u64 };
    let m: u64 = if micros < 0 { 0 } else { micros as u64 };
    let scaled: u64 = if s > u64::MAX / 1_000_000 { u64::MAX } else { s * 1_000_000 };
    scaled.saturating_add(m)
}

} // verus!
