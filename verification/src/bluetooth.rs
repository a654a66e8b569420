//! The Bluetooth side: what it reports to the UI, and how it reads the UI's commands.
//!
//! Talking to BlueZ happens outside this crate; here are the decisions around
//! it: how a command line from the UI is read, which reply each outcome
//! gets, and the tagged lines the UI understands.
pub mod scanner;
pub mod agent;
pub mod connection;

use vstd::prelude::*;
use crate::text::{
    hex_byte, has_prefix, first_index, trim_seq, trim_start_matches_seq, chars_of, chars_eq, match_prefix,
    trim_start_matches_from, trim_bounds, string_of, concat2, push_str, push_char,
};

verus! {

// ---------------------------------------------------------------------------
// Bluetooth addresses
// ---------------------------------------------------------------------------
/// A Bluetooth device address, most significant byte first.
pub type Address = [u8; 6];

/// Six bytes, colon-separated upper-case hexadecimal, e.g. `AA:BB:CC:DD:EE:FF`.
pub open spec fn address_text(a: Seq<u8>) -> Seq<char> {
    hex_byte(a[0]) + seq![':'] + hex_byte(a[1]) + seq![':'] + hex_byte(a[2]) + seq![':']
        + hex_byte(a[3]) + seq![':'] + hex_byte(a[4]) + seq![':'] + hex_byte(a[5])
}

/// Value of a hexadecimal digit of either case.
pub open spec fn hex_value(c: char) -> Option<nat> {
    if '0' <= c && c <= '9' {
        Some(((c as u32) - 0x30) as nat)
    } else if 'a' <= c && c <= 'f' {
        Some(((c as u32) - 0x57) as nat)
    } else if 'A' <= c && c <= 'F' {
        Some(((c as u32) - 0x37) as nat)
    } else {
        None
    }
}

pub open spec fn all_hex(s: Seq<char>) -> bool {
    forall|i: int| 0 <= i < s.len() ==> (#[trigger] hex_value(s[i])) is Some
}

/// Value of a string of hexadecimal digits.
pub open spec fn hex_number(s: Seq<char>) -> nat
    decreases s.len(),
{
    if s.len() == 0 {
        0
    } else {
        hex_number(s.drop_last()) * 16 + hex_value(s.last())->0
    }
}

/// `u8::from_str_radix(field, 16)`: an optional `+`, then one or more hex
/// digits whose value fits in a byte.
pub open spec fn hex_field(f: Seq<char>) -> Option<u8> {
    let d = if f.len() > 0 && f[0] == '+' {
        f.drop_first()
    } else {
        f
    };
    if d.len() > 0 && all_hex(d) && hex_number(d) <= 255 {
        Some(hex_number(d) as u8)
    } else {
        None
    }
}

/// `s.split(':')`: the pieces between colons, empty ones included.
pub open spec fn colon_fields(s: Seq<char>) -> Seq<Seq<char>>
    decreases s.len(),
{
    match first_index(s, ':') {
        Some(i) => if i < s.len() {
            seq![s.subrange(0, i as int)] + colon_fields(s.subrange(i as int + 1, s.len() as int))
        } else {
            seq![s]
        },
        None => seq![s],
    }
}

/// The address `bluer` reads from a string: exactly six colon-separated
/// fields, each a hexadecimal byte.
pub open spec fn parsed_address(text: Seq<char>) -> Option<Seq<u8>> {
    let fs = colon_fields(text);
    if fs.len() == 6 && forall|i: int| 0 <= i < 6 ==> (#[trigger] hex_field(fs[i])) is Some {
        Some(Seq::new(6, |i: int| hex_field(fs[i])->0))
    } else {
        None
    }
}

pub open spec fn opt_bytes(a: Option<Address>) -> Option<Seq<u8>> {
    match a {
        Some(a) => Some(a@),
        None => None,
    }
}

/// `bluer::Address`'s `Display`: the six bytes as two upper-case hex digits
/// each, joined by `:` (`"{:02X}:{:02X}:..."` in bluer's source).
#[verifier::external_body]
pub(crate) fn address_to_string(a: Address) -> (s: String)
    ensures
        s@ == address_text(a@),
{
    bluer::Address(a).to_string()
}

/// `<bluer::Address as FromStr>::from_str`, keeping the bytes on success:
/// the text split at `:` must give six fields, each read by
/// `u8::from_str_radix(field, 16)`.
#[verifier::external_body]
pub(crate) fn parse_address(text: &str) -> (r: Option<Address>)
    ensures
        opt_bytes(r) == parsed_address(text@),
{
    match text.parse::<bluer::Address>() {
        Ok(a) => Some(a.0),
        Err(_) => None,
    }
}

/// The text of an address, as every message to the UI shows it.
pub fn format_address(a: Address) -> (s: String)
    ensures
        s@ == address_text(a@),
{
    address_to_string(a)
}

/// The characters an address is written with.
pub open spec fn address_char(c: char) -> bool {
    ('0' <= c && c <= '9') || ('A' <= c && c <= 'F') || c == ':'
}

pub proof fn lemma_hex_digit_char(d: nat)
    requires
        d < 16,
    ensures
        address_char(crate::text::hex_digit(d)),
{
    let c = crate::text::hex_digit(d);
    if d < 10 {
        assert((c as u32) == d + 0x30);
    } else {
        assert((c as u32) == d + 0x37);
    }
}

/// An address is seventeen characters: hex digits and colons.
pub proof fn lemma_address_text_chars(a: Address)
    ensures
        address_text(a@).len() == 17,
        forall|i: int| 0 <= i < 17 ==> address_char(#[trigger] address_text(a@)[i]),
{
    let t = address_text(a@);
    assert forall|k: int| 0 <= k < 6 implies address_char(#[trigger] hex_byte(a@[k])[0]) && address_char(hex_byte(a@[k])[1]) by {
        lemma_hex_digit_char((a@[k] / 16) as nat);
        lemma_hex_digit_char((a@[k] % 16) as nat);
    }
    assert forall|i: int| 0 <= i < 17 implies address_char(#[trigger] t[i]) by {
        let k = i / 3;
        let r = i % 3;
        assert(hex_byte(a@[k]).len() == 2);
        if r == 2 {
            assert(t[i] == ':');
        } else {
            assert(t[i] == hex_byte(a@[k])[r]);
        }
    }
}

proof fn lemma_hex_value_of_digit(d: nat)
    requires
        d < 16,
    ensures
        hex_value(crate::text::hex_digit(d)) == Some(d),
{
    let c = crate::text::hex_digit(d);
    if d < 10 {
        assert((c as u32) == d + 0x30);
    } else {
        assert((c as u32) == d + 0x37);
    }
}

/// A byte written as two hex digits is read back as that byte.
proof fn lemma_hex_field_of_byte(b: u8)
    ensures
        hex_field(hex_byte(b)) == Some(b),
        hex_byte(b).len() == 2,
        hex_byte(b)[0] != ':' && hex_byte(b)[1] != ':',
{
    let h = hex_byte(b);
    let hi = (b / 16) as nat;
    let lo = (b % 16) as nat;
    lemma_hex_value_of_digit(hi);
    lemma_hex_value_of_digit(lo);
    lemma_hex_digit_char(hi);
    lemma_hex_digit_char(lo);
    assert(h[0] != '+');
    assert(h.drop_last() =~= seq![h[0]]);
    assert(h.drop_last().drop_last() =~= Seq::<char>::empty());
    let s1 = h.drop_last();
    assert(s1.last() == h[0]);
    assert(h[0] == crate::text::hex_digit(hi));
    assert(hex_number(s1.drop_last()) == 0);
    assert(hex_number(s1) == hi);
    assert(hex_number(h) == hi * 16 + lo);
    assert(hi * 16 + lo == b as nat);
    assert(all_hex(h)) by {
        assert forall|i: int| 0 <= i < h.len() implies (#[trigger] hex_value(h[i])) is Some by {
            if i == 0 {
            } else {
            }
        }
    }
}

/// Splitting `h:rest` at colons, when `h` holds none, gives `h` and then the fields of `rest`.
proof fn lemma_colon_fields_step(h: Seq<char>, rest: Seq<char>)
    requires
        h.len() == 2,
        h[0] != ':' && h[1] != ':',
    ensures
        colon_fields(h + seq![':'] + rest) == seq![h] + colon_fields(rest),
{
    let t = h + seq![':'] + rest;
    assert forall|k: int| 0 <= k < 2 implies #[trigger] t[k] != ':' by {
        assert(t[k] == h[k]);
    }
    crate::text::lemma_first_index_at(t, ':', 0, 2);
    assert(t.subrange(0, t.len() as int) =~= t);
    assert(t.subrange(0, 2) =~= h);
    assert(t.subrange(3, t.len() as int) =~= rest);
}

/// A text with no colon is a single field.
proof fn lemma_colon_fields_last(h: Seq<char>)
    requires
        forall|k: int| 0 <= k < h.len() ==> #[trigger] h[k] != ':',
    ensures
        colon_fields(h) == seq![h],
{
    crate::text::lemma_first_index_at(h, ':', 0, h.len() as int);
    assert(h.subrange(0, h.len() as int) =~= h);
}

/// The text `bluer` writes for an address is read back as that address.
pub proof fn lemma_address_round_trip(a: Address)
    ensures
        parsed_address(address_text(a@)) == Some(a@),
{
    let h = |k: int| hex_byte(a@[k]);
    assert forall|k: int| 0 <= k < 6 implies hex_field(#[trigger] hex_byte(a@[k])) == Some(a@[k]) && hex_byte(a@[k]).len() == 2 && hex_byte(a@[k])[0] != ':' && hex_byte(a@[k])[1] != ':' by {
        lemma_hex_field_of_byte(a@[k]);
    }
    let t5 = hex_byte(a@[5]);
    let t4 = hex_byte(a@[4]) + seq![':'] + t5;
    let t3 = hex_byte(a@[3]) + seq![':'] + t4;
    let t2 = hex_byte(a@[2]) + seq![':'] + t3;
    let t1 = hex_byte(a@[1]) + seq![':'] + t2;
    let t0 = hex_byte(a@[0]) + seq![':'] + t1;
    assert(address_text(a@) =~= t0);
    assert forall|k: int| 0 <= k < t5.len() implies #[trigger] t5[k] != ':' by {}
    lemma_colon_fields_last(t5);
    lemma_colon_fields_step(hex_byte(a@[4]), t5);
    lemma_colon_fields_step(hex_byte(a@[3]), t4);
    lemma_colon_fields_step(hex_byte(a@[2]), t3);
    lemma_colon_fields_step(hex_byte(a@[1]), t2);
    lemma_colon_fields_step(hex_byte(a@[0]), t1);
    let fs = colon_fields(t0);
    assert(fs =~= seq![h(0), h(1), h(2), h(3), h(4), h(5)]);
    assert(forall|i: int| 0 <= i < 6 ==> fs[i] == hex_byte(a@[i]));
    assert(Seq::new(6, |i: int| hex_field(fs[i])->0) =~= a@);
}

// ---------------------------------------------------------------------------
// Commands from the UI
// ---------------------------------------------------------------------------
/// A command line sent by the UI.
#[derive(Debug, PartialEq, Eq)]
pub enum Command {
    Refresh,
    /// The address text after `connect `, trimmed.
    Connect(String),
    /// The address text after `disconnect `, trimmed.
    Disconnect(String),
    Other(String),
}

pub enum CommandV {
    Refresh,
    Connect(Seq<char>),
    Disconnect(Seq<char>),
    Other(Seq<char>),
}

pub open spec fn command_view(c: Command) -> CommandV {
    match c {
        Command::Refresh => CommandV::Refresh,
        Command::Connect(s) => CommandV::Connect(s@),
        Command::Disconnect(s) => CommandV::Disconnect(s@),
        Command::Other(s) => CommandV::Other(s@),
    }
}

/// `refresh`, `connect <addr>`, `disconnect <addr>`, or anything else.
pub open spec fn command_spec(c: Seq<char>) -> CommandV {
    if c == "refresh"@ {
        CommandV::Refresh
    } else if has_prefix(c, "connect "@) {
        CommandV::Connect(trim_seq(trim_start_matches_seq(c, "connect "@)))
    } else if has_prefix(c, "disconnect "@) {
        CommandV::Disconnect(trim_seq(trim_start_matches_seq(c, "disconnect "@)))
    } else {
        CommandV::Other(c)
    }
}

/// Text after every leading `lead` in `v`, trimmed.
fn argument_after(v: &Vec<char>, lead: &str) -> (s: String)
    ensures
        s@ == trim_seq(trim_start_matches_seq(v@, lead@)),
{
    let k = trim_start_matches_from(v, 0, lead);
    let (a, b) = trim_bounds(v, k);
    proof {
        assert(v@.subrange(0, v@.len() as int) =~= v@);
    }
    string_of(v, a, b)
}

/// Read a command line from the UI.
pub fn parse_command(cmd: &str) -> (c: Command)
    ensures
        command_view(c) == command_spec(cmd@),
{
    let v = chars_of(cmd);
    let refresh = chars_of("refresh");
    if chars_eq(&v, &refresh) {
        Command::Refresh
    } else if match_prefix(&v, "connect ").is_some() {
        Command::Connect(argument_after(&v, "connect "))
    } else if match_prefix(&v, "disconnect ").is_some() {
        Command::Disconnect(argument_after(&v, "disconnect "))
    } else {
        Command::Other(String::from_str(cmd))
    }
}

// ---------------------------------------------------------------------------
// What each command leads to
// ---------------------------------------------------------------------------
/// The two operations on a device.
#[derive(Clone, Copy, PartialEq, Eq, Structural, Debug)]
pub enum Op {
    Connect,
    Disconnect,
}

/// What the Bluetooth task does with a command.
#[derive(Debug, PartialEq, Eq)]
pub enum Plan {
    /// Scan again and report devices not seen before.
    Rescan,
    /// Look the device up and start the operation, after telling the UI.
    Start { op: Op, addr: Address, notice: String },
    /// Only send these lines to the UI.
    Reply(Vec<String>),
}

pub enum PlanV {
    Rescan,
    Start { op: Op, addr: Seq<u8>, notice: Seq<char> },
    Reply(Seq<Seq<char>>),
}

pub open spec fn plan_view(p: Plan) -> PlanV {
    match p {
        Plan::Rescan => PlanV::Rescan,
        Plan::Start { op, addr, notice } => PlanV::Start { op, addr: addr@, notice: notice@ },
        Plan::Reply(lines) => PlanV::Reply(lines@.map_values(|s: String| s@)),
    }
}

/// Tag of the lines reporting a failed operation.
pub open spec fn fail_tag(op: Op) -> Seq<char> {
    match op {
        Op::Connect => "CONN_FAIL:"@,
        Op::Disconnect => "DISCONN_FAIL:"@,
    }
}

pub open spec fn request_notice(op: Op, a: Seq<u8>) -> Seq<char> {
    match op {
        Op::Connect => "UI requested connect to "@ + address_text(a),
        Op::Disconnect => "UI requested disconnect from "@ + address_text(a),
    }
}

/// A command, and the address read from its argument where it has one.
pub open spec fn plan_spec(c: CommandV, parsed: Option<Seq<u8>>) -> PlanV {
    let start_or_reject = |op: Op, text: Seq<char>|
        match parsed {
            Some(a) => PlanV::Start { op, addr: a, notice: request_notice(op, a) },
            None => PlanV::Reply(
                seq![fail_tag(op) + "Invalid address: "@ + text, "Invalid address: "@ + text],
            ),
        };
    match c {
        CommandV::Refresh => PlanV::Rescan,
        CommandV::Connect(text) => start_or_reject(Op::Connect, text),
        CommandV::Disconnect(text) => start_or_reject(Op::Disconnect, text),
        CommandV::Other(text) => PlanV::Reply(seq!["Received UI command: "@ + text]),
    }
}

fn fail_tag_string(op: Op) -> (s: String)
    ensures
        s@ == fail_tag(op),
{
    match op {
        Op::Connect => String::from_str("CONN_FAIL:"),
        Op::Disconnect => String::from_str("DISCONN_FAIL:"),
    }
}

fn invalid_address_reply(op: Op, text: &String) -> (lines: Vec<String>)
    ensures
        lines@.map_values(|s: String| s@) == seq![
            fail_tag(op) + "Invalid address: "@ + text@,
            "Invalid address: "@ + text@,
        ],
{
    let mut first = fail_tag_string(op);
    push_str(&mut first, "Invalid address: ");
    push_str(&mut first, text.as_str());
    let second = concat2("Invalid address: ", text.as_str());
    let lines = vec![first, second];
    assert(lines@.map_values(|s: String| s@) =~= seq![
        fail_tag(op) + "Invalid address: "@ + text@,
        "Invalid address: "@ + text@,
    ]);
    lines
}

fn notice_for(op: Op, a: Address) -> (s: String)
    ensures
        s@ == request_notice(op, a@),
{
    let addr = format_address(a);
    match op {
        Op::Connect => concat2("UI requested connect to ", addr.as_str()),
        Op::Disconnect => concat2("UI requested disconnect from ", addr.as_str()),
    }
}

/// What to do with a command, given the address read from its argument.
pub fn plan_request(c: &Command, parsed: Option<Address>) -> (p: Plan)
    ensures
        plan_view(p) == plan_spec(command_view(*c), opt_bytes(parsed)),
{
    match c {
        Command::Refresh => Plan::Rescan,
        Command::Connect(text) => match parsed {
            Some(a) => Plan::Start { op: Op::Connect, addr: a, notice: notice_for(Op::Connect, a) },
            None => Plan::Reply(invalid_address_reply(Op::Connect, text)),
        },
        Command::Disconnect(text) => match parsed {
            Some(a) => Plan::Start {
                op: Op::Disconnect,
                addr: a,
                notice: notice_for(Op::Disconnect, a),
            },
            None => Plan::Reply(invalid_address_reply(Op::Disconnect, text)),
        },
        Command::Other(text) => {
            let lines = vec![concat2("Received UI command: ", text.as_str())];
            assert(lines@.map_values(|s: String| s@) =~= seq!["Received UI command: "@ + text@]);
            Plan::Reply(lines)
        },
    }
}

/// The argument of a command that names a device.
pub open spec fn command_argument(c: CommandV) -> Seq<char> {
    match c {
        CommandV::Connect(t) => t,
        CommandV::Disconnect(t) => t,
        _ => Seq::empty(),
    }
}

/// Read a command line from the UI and decide what to do with it.
pub fn plan_command(cmd: &str) -> (p: Plan)
    ensures
        plan_view(p) == plan_spec(
            command_spec(cmd@),
            parsed_address(command_argument(command_spec(cmd@))),
        ),
{
    let c = parse_command(cmd);
    let parsed = match &c {
        Command::Connect(text) => parse_address(text.as_str()),
        Command::Disconnect(text) => parse_address(text.as_str()),
        _ => None,
    };
    plan_request(&c, parsed)
}

// ---------------------------------------------------------------------------
// Lines sent to the UI
// ---------------------------------------------------------------------------
pub open spec fn device_line_spec(addr: Seq<char>, name: Seq<char>) -> Seq<char> {
    "DEVICE:"@ + addr + seq!['|'] + name
}

/// `DEVICE:<addr>|<name>`: a MeshCore device was discovered.
pub fn device_line(a: Address, name: &str) -> (s: String)
    ensures
        s@ == device_line_spec(address_text(a@), name@),
{
    let mut s = String::from_str("DEVICE:");
    let addr = format_address(a);
    push_str(&mut s, addr.as_str());
    push_char(&mut s, '|');
    push_str(&mut s, name);
    assert(s@ =~= device_line_spec(address_text(a@), name@));
    s
}

/// `LOG:Discovered device <name> (<addr>)`.
pub fn discovered_line(a: Address, name: &str) -> (s: String)
    ensures
        s@ == "LOG:Discovered device "@ + crate::ui::display_name(name@, address_text(a@)),
{
    let addr = format_address(a);
    concat2("LOG:Discovered device ", crate::ui::format_display_name(name, addr.as_str()).as_str())
}

/// The two lines sent when the device for a command is not on the adapter.
pub fn device_missing_lines(op: Op, a: Address) -> (lines: Vec<String>)
    ensures
        lines@.map_values(|s: String| s@) == seq![
            fail_tag(op) + "Device "@ + address_text(a@) + " not found on adapter"@,
            "Device "@ + address_text(a@) + " not found on adapter"@,
        ],
{
    let addr = format_address(a);
    let mut second = concat2("Device ", addr.as_str());
    push_str(&mut second, " not found on adapter");
    let mut first = fail_tag_string(op);
    push_str(&mut first, second.as_str());
    assert(first@ =~= fail_tag(op) + "Device "@ + address_text(a@) + " not found on adapter"@);
    assert(second@ =~= "Device "@ + address_text(a@) + " not found on adapter"@);
    let lines = vec![first, second];
    assert(lines@.map_values(|s: String| s@) =~= seq![
        fail_tag(op) + "Device "@ + address_text(a@) + " not found on adapter"@,
        "Device "@ + address_text(a@) + " not found on adapter"@,
    ]);
    lines
}

pub open spec fn failed_text(op: Op) -> Seq<char> {
    match op {
        Op::Connect => "Connect failed: "@,
        Op::Disconnect => "Disconnect failed: "@,
    }
}

/// The two lines sent when an operation ends with error `err`.
pub fn operation_failed_lines(op: Op, err: &str) -> (lines: Vec<String>)
    ensures
        lines@.map_values(|s: String| s@) == seq![fail_tag(op) + err@, failed_text(op) + err@],
{
    let mut first = fail_tag_string(op);
    push_str(&mut first, err);
    let second = match op {
        Op::Connect => concat2("Connect failed: ", err),
        Op::Disconnect => concat2("Disconnect failed: ", err),
    };
    let lines = vec![first, second];
    assert(lines@.map_values(|s: String| s@) =~= seq![fail_tag(op) + err@, failed_text(op) + err@]);
    lines
}

/// `STATUS:Scanning on adapter <name>`.
pub fn scanning_line(adapter: &str) -> (line: String)
    ensures
        line@ == "STATUS:Scanning on adapter "@ + adapter@,
{
    concat2("STATUS:Scanning on adapter ", adapter)
}

} // verus!
