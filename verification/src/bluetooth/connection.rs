//! Connecting to a MeshCore radio: finding its Nordic UART Service
//! characteristics and describing the notifications it sends.
use vstd::prelude::*;
use vstd::utf8::{valid_utf8, decode_utf8};
use crate::text::{is_control, hex_byte, push_hex_byte, chars_of, is_control_char, concat2, push_char, push_str, push_decimal, decimal_digits};
use crate::bluetooth::{Address, address_text, format_address};

verus! {

/// Nordic UART Service.
pub const NUS_SERVICE: u128 = 0x6E400001_B5A3_F393_E0A9_E50E24DCCA9E;
/// NUS characteristic the radio receives on (written by us).
pub const NUS_RX: u128 = 0x6E400002_B5A3_F393_E0A9_E50E24DCCA9E;
/// NUS characteristic the radio transmits on (notifies us).
pub const NUS_TX: u128 = 0x6E400003_B5A3_F393_E0A9_E50E24DCCA9E;

/// The part a characteristic plays in the UART service.
#[derive(Clone, Copy, PartialEq, Eq, Structural, Debug)]
pub enum CharRole {
    Rx,
    Tx,
    Other,
}

pub open spec fn role_of(uuid: u128) -> CharRole {
    if uuid == NUS_RX {
        CharRole::Rx
    } else if uuid == NUS_TX {
        CharRole::Tx
    } else {
        CharRole::Other
    }
}

/// The role of a characteristic, by its UUID.
pub fn characteristic_role(uuid: u128) -> (r: CharRole)
    ensures
        r == role_of(uuid),
{
    if uuid == NUS_RX {
        CharRole::Rx
    } else if uuid == NUS_TX {
        CharRole::Tx
    } else {
        CharRole::Other
    }
}

/// Whether a service is the UART service.
pub fn is_nus_service(uuid: u128) -> (r: bool)
    ensures
        r == (uuid == NUS_SERVICE),
{
    uuid == NUS_SERVICE
}

/// The services of a device: each service's UUID and its characteristics' UUIDs.
pub type Services = Vec<(u128, Vec<u128>)>;

/// Characteristic `j` of service `i` exists, belongs to the UART service and plays `role`.
pub open spec fn plays(s: Seq<(u128, Vec<u128>)>, i: int, j: int, role: CharRole) -> bool {
    &&& 0 <= i < s.len()
    &&& 0 <= j < s[i].1@.len()
    &&& s[i].0 == NUS_SERVICE
    &&& role_of(s[i].1@[j]) == role
}

/// Position (i, j) comes after (i0, j0) in a walk over services and then characteristics.
pub open spec fn walked_after(i: int, j: int, i0: int, j0: int) -> bool {
    i > i0 || (i == i0 && j > j0)
}

/// The characteristic a walk over all services keeps for `role`: the last one found.
pub open spec fn kept_for(s: Seq<(u128, Vec<u128>)>, role: CharRole, r: Option<(usize, usize)>) -> bool {
    match r {
        Some((i, j)) => plays(s, i as int, j as int, role) && forall|i2: int, j2: int|
            #![trigger plays(s, i2, j2, role)]
            walked_after(i2, j2, i as int, j as int) ==> !plays(s, i2, j2, role),
        None => forall|i2: int, j2: int| #![trigger plays(s, i2, j2, role)] !plays(s, i2, j2, role),
    }
}

/// Where the receive and transmit characteristics of the UART service are.
#[derive(Debug, PartialEq, Eq)]
pub struct NusPair {
    pub rx: Option<(usize, usize)>,
    pub tx: Option<(usize, usize)>,
}

/// Find the receive and transmit characteristics; a later one replaces an earlier one.
pub fn locate_nus(services: &Services) -> (p: NusPair)
    ensures
        kept_for(services@, CharRole::Rx, p.rx),
        kept_for(services@, CharRole::Tx, p.tx),
{
    let ghost s = services@;
    let n = services.len();
    let mut rx: Option<(usize, usize)> = None;
    let mut tx: Option<(usize, usize)> = None;
    let mut i: usize = 0;
    while i < n
        invariant
            n == s.len(),
            s == services@,
            i <= n,
            match rx {
                Some((a, b)) => a < i && plays(s, a as int, b as int, CharRole::Rx) && forall|
                    i2: int,
                    j2: int,
                |
                    #![trigger plays(s, i2, j2, CharRole::Rx)]
                    i2 < i && walked_after(i2, j2, a as int, b as int) ==> !plays(
                        s,
                        i2,
                        j2,
                        CharRole::Rx,
                    ),
                None => forall|i2: int, j2: int|
                    #![trigger plays(s, i2, j2, CharRole::Rx)]
                    i2 < i ==> !plays(s, i2, j2, CharRole::Rx),
            },
            match tx {
                Some((a, b)) => a < i && plays(s, a as int, b as int, CharRole::Tx) && forall|
                    i2: int,
                    j2: int,
                |
                    #![trigger plays(s, i2, j2, CharRole::Tx)]
                    i2 < i && walked_after(i2, j2, a as int, b as int) ==> !plays(
                        s,
                        i2,
                        j2,
                        CharRole::Tx,
                    ),
                None => forall|i2: int, j2: int|
                    #![trigger plays(s, i2, j2, CharRole::Tx)]
                    i2 < i ==> !plays(s, i2, j2, CharRole::Tx),
            },
        decreases n - i,
    {
        let (uuid, chars) = (services[i].0, &services[i].1);
        if is_nus_service(uuid) {
            let m = chars.len();
            let mut j: usize = 0;
            while j < m
                invariant
                    n == s.len(),
                    s == services@,
                    i < n,
                    m == s[i as int].1@.len(),
                    chars@ == s[i as int].1@,
                    s[i as int].0 == NUS_SERVICE,
                    j <= m,
                    match rx {
                        Some((a, b)) => a <= i && (a == i ==> b < j) && plays(s, a as int, b as int, CharRole::Rx)
                            && forall|i2: int, j2: int|
                            #![trigger plays(s, i2, j2, CharRole::Rx)]
                            (i2 < i || (i2 == i && j2 < j)) && walked_after(
                                i2,
                                j2,
                                a as int,
                                b as int,
                            ) ==> !plays(s, i2, j2, CharRole::Rx),
                        None => forall|i2: int, j2: int|
                            #![trigger plays(s, i2, j2, CharRole::Rx)]
                            (i2 < i || (i2 == i && j2 < j)) ==> !plays(s, i2, j2, CharRole::Rx),
                    },
                    match tx {
                        Some((a, b)) => a <= i && (a == i ==> b < j) && plays(s, a as int, b as int, CharRole::Tx)
                            && forall|i2: int, j2: int|
                            #![trigger plays(s, i2, j2, CharRole::Tx)]
                            (i2 < i || (i2 == i && j2 < j)) && walked_after(
                                i2,
                                j2,
                                a as int,
                                b as int,
                            ) ==> !plays(s, i2, j2, CharRole::Tx),
                        None => forall|i2: int, j2: int|
                            #![trigger plays(s, i2, j2, CharRole::Tx)]
                            (i2 < i || (i2 == i && j2 < j)) ==> !plays(s, i2, j2, CharRole::Tx),
                    },
                decreases m - j,
            {
                let role = characteristic_role(chars[j]);
                match role {
                    CharRole::Rx => {
                        rx = Some((i, j));
                    },
                    CharRole::Tx => {
                        tx = Some((i, j));
                    },
                    CharRole::Other => {},
                }
                assert(plays(s, i as int, j as int, role));
                j = j + 1;
            }
            assert forall|j2: int| #![trigger plays(s, i as int, j2, CharRole::Rx)] j2 >= m implies !plays(s, i as int, j2, CharRole::Rx) by {}
            assert forall|j2: int| #![trigger plays(s, i as int, j2, CharRole::Tx)] j2 >= m implies !plays(s, i as int, j2, CharRole::Tx) by {}
        } else {
            assert forall|j2: int| #![trigger plays(s, i as int, j2, CharRole::Rx)] !plays(s, i as int, j2, CharRole::Rx) by {}
            assert forall|j2: int| #![trigger plays(s, i as int, j2, CharRole::Tx)] !plays(s, i as int, j2, CharRole::Tx) by {}
        }
        i = i + 1;
    }
    NusPair { rx, tx }
}

// ---------------------------------------------------------------------------
// Notifications
// ---------------------------------------------------------------------------
/// Text a notification may be shown as: no control characters but line breaks.
pub open spec fn printable(s: Seq<char>) -> bool {
    forall|i: int| 0 <= i < s.len() ==> !is_control(#[trigger] s[i]) || s[i] == '\n' || s[i] == '\r'
}

/// Each byte as two upper-case hex digits followed by a space.
pub open spec fn hex_dump(d: Seq<u8>) -> Seq<char>
    decreases d.len(),
{
    if d.len() == 0 {
        Seq::empty()
    } else {
        hex_dump(d.drop_last()) + hex_byte(d.last()) + seq![' ']
    }
}

/// The log line for a notification: its text when it is printable UTF-8, its bytes otherwise.
pub open spec fn notification_line(d: Seq<u8>) -> Seq<char> {
    if valid_utf8(d) && printable(decode_utf8(d)) {
        "RX text: "@ + decode_utf8(d)
    } else {
        "RX binary: "@ + hex_dump(d)
    }
}

/// `String::from_utf8`: the text when the bytes are valid UTF-8.
#[verifier::external_body]
fn utf8_text(data: &[u8]) -> (r: Option<String>)
    ensures
        match r {
            Some(s) => valid_utf8(data@) && s@ == decode_utf8(data@),
            None => !valid_utf8(data@),
        },
{
    String::from_utf8(data.to_vec()).ok()
}

fn all_printable(v: &Vec<char>) -> (r: bool)
    ensures
        r == printable(v@),
{
    let n = v.len();
    let mut i: usize = 0;
    while i < n
        invariant
            n == v@.len(),
            i <= n,
            forall|k: int| 0 <= k < i ==> !is_control(#[trigger] v@[k]) || v@[k] == '\n' || v@[k]
                == '\r',
        decreases n - i,
    {
        let c = v[i];
        if is_control_char(c) && c != '\n' && c != '\r' {
            return false;
        }
        i = i + 1;
    }
    true
}

/// Describe the bytes of a notification from the transmit characteristic.
pub fn describe_notification(data: &[u8]) -> (line: String)
    ensures
        line@ == notification_line(data@),
{
    if let Some(text) = utf8_text(data) {
        let v = chars_of(text.as_str());
        if all_printable(&v) {
            return concat2("RX text: ", text.as_str());
        }
    }
    let mut s = String::from_str("RX binary: ");
    let ghost head = s@;
    let n = data.len();
    let mut i: usize = 0;
    while i < n
        invariant
            n == data@.len(),
            i <= n,
            s@ == head + hex_dump(data@.subrange(0, i as int)),
        decreases n - i,
    {
        push_hex_byte(&mut s, data[i]);
        push_char(&mut s, ' ');
        assert(data@.subrange(0, i + 1).drop_last() =~= data@.subrange(0, i as int));
        assert(s@ =~= head + hex_dump(data@.subrange(0, i + 1)));
        i = i + 1;
    }
    assert(data@.subrange(0, n as int) =~= data@);
    s
}

// ---------------------------------------------------------------------------
// Lines sent to the UI
// ---------------------------------------------------------------------------
pub open spec fn connected_line_spec(addr: Seq<char>) -> Seq<char> {
    "CONN:Connected to "@ + addr
}

pub open spec fn disconnected_line_spec(addr: Seq<char>) -> Seq<char> {
    "DISCONN:Disconnected from "@ + addr
}

/// The two lines sent once a device is connected: the tagged one for the
/// connection table, then a plain one for the log.
pub fn connected_lines(a: Address) -> (lines: Vec<String>)
    ensures
        lines@.map_values(|s: String| s@) == seq![
            connected_line_spec(address_text(a@)),
            "Connected to "@ + address_text(a@),
        ],
{
    let addr = format_address(a);
    let lines = vec![
        concat2("CONN:Connected to ", addr.as_str()),
        concat2("Connected to ", addr.as_str()),
    ];
    assert(lines@.map_values(|s: String| s@) =~= seq![
        connected_line_spec(address_text(a@)),
        "Connected to "@ + address_text(a@),
    ]);
    lines
}

/// The line sent once a device is disconnected.
pub fn disconnected_line(a: Address) -> (line: String)
    ensures
        line@ == disconnected_line_spec(address_text(a@)),
{
    let addr = format_address(a);
    concat2("DISCONN:Disconnected from ", addr.as_str())
}

/// `Attempting pair/connect to <addr>`.
pub fn attempting_connect_line(a: Address) -> (line: String)
    ensures
        line@ == "Attempting pair/connect to "@ + address_text(a@),
{
    concat2("Attempting pair/connect to ", format_address(a).as_str())
}

/// `Attempting disconnect from <addr>`.
pub fn attempting_disconnect_line(a: Address) -> (line: String)
    ensures
        line@ == "Attempting disconnect from "@ + address_text(a@),
{
    concat2("Attempting disconnect from ", format_address(a).as_str())
}

/// `Paired <addr> after <n> attempts`.
pub fn paired_line(a: Address, attempts: u64) -> (line: String)
    ensures
        line@ == "Paired "@ + address_text(a@) + " after "@ + decimal_digits(attempts as nat)
            + " attempts"@,
{
    let mut s = concat2("Paired ", format_address(a).as_str());
    push_str(&mut s, " after ");
    push_decimal(&mut s, attempts);
    push_str(&mut s, " attempts");
    s
}

/// `Pairing attempt <n> failed: <err>`.
pub fn pairing_failed_line(attempt: u64, err: &str) -> (line: String)
    ensures
        line@ == "Pairing attempt "@ + decimal_digits(attempt as nat) + " failed: "@ + err@,
{
    let mut s = String::from_str("Pairing attempt ");
    push_decimal(&mut s, attempt);
    push_str(&mut s, " failed: ");
    push_str(&mut s, err);
    s
}

/// Seconds to wait before trying to pair again.
pub const PAIR_RETRY_SECS: u64 = 2;

/// What comes after one attempt to pair.
#[derive(Clone, Copy, PartialEq, Eq, Structural, Debug)]
pub enum PairStep {
    /// The device is paired: go on and connect.
    Paired,
    /// The attempt failed: wait `wait_secs` seconds, then make attempt `next_attempt`.
    Retry { next_attempt: u64, wait_secs: u64 },
}

/// The step after attempt `attempt` (counted from 1), which failed with
/// `error` or succeeded: pairing is retried until it succeeds.
pub open spec fn pair_step(attempt: u64, error: Option<Seq<char>>) -> PairStep {
    match error {
        None => PairStep::Paired,
        Some(_) => PairStep::Retry {
            next_attempt: if attempt < u64::MAX { (attempt + 1) as u64 } else { attempt },
            wait_secs: PAIR_RETRY_SECS,
        },
    }
}

/// The line reported after attempt `attempt`.
pub open spec fn pair_report(a: Address, attempt: u64, error: Option<Seq<char>>) -> Seq<char> {
    match error {
        None => "Paired "@ + address_text(a@) + " after "@ + decimal_digits(attempt as nat) + " attempts"@,
        Some(e) => "Pairing attempt "@ + decimal_digits(attempt as nat) + " failed: "@ + e,
    }
}

/// The message of an error, if there was one.
pub open spec fn error_text(error: Option<&str>) -> Option<Seq<char>> {
    match error {
        Some(e) => Some(e@),
        None => None,
    }
}

/// Decides what follows attempt `attempt` to pair with `a`, which failed with
/// `error` (its message) or succeeded (`None`), and the line to report.
pub fn after_pair_attempt(a: Address, attempt: u64, error: Option<&str>) -> (r: (PairStep, String))
    ensures
        r.0 == pair_step(attempt, error_text(error)),
        r.1@ == pair_report(a, attempt, error_text(error)),
{
    match error {
        None => (PairStep::Paired, paired_line(a, attempt)),
        Some(e) => {
            let next_attempt = attempt.saturating_add(1);
            (
                PairStep::Retry { next_attempt, wait_secs: PAIR_RETRY_SECS },
                pairing_failed_line(attempt, e),
            )
        },
    }
}

/// The line sent before subscribing to the radio's notifications.
pub fn subscribing_line() -> (line: String)
    ensures
        line@ == "Subscribing to TX notifications (connected)"@,
{
    String::from_str("Subscribing to TX notifications (connected)")
}

/// The line sent when the device lacks one of the two UART characteristics.
pub fn missing_characteristics_line() -> (line: String)
    ensures
        line@ == "Could not find both RX and TX characteristics on this device."@,
{
    String::from_str("Could not find both RX and TX characteristics on this device.")
}

} // verus!
