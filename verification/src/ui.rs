//! UI state and the decisions the terminal front end makes.
//!
//! The terminal (drawing, reading keys, the channels to the Bluetooth task)
//! lives outside this crate; here is what it decides: how the device list
//! grows, how each key changes the screen, and how each message from the
//! Bluetooth task changes the logs and the connection table.
pub mod model;
pub mod connections;
pub mod messages;
pub mod keys;
pub mod device_list;
pub mod pin_entry;
pub mod chat;
pub mod session;

use vstd::prelude::*;
use crate::text::{push_char, push_str};

verus! {

/// A device list entry: (address, advertised name, displayed line).
pub type DeviceEntry = (String, String, String);

/// The line shown for a device: `name (MAC)`.
pub open spec fn display_name(raw_name: Seq<char>, addr: Seq<char>) -> Seq<char> {
    raw_name + seq![' ', '('] + addr + seq![')']
}

pub open spec fn device_view(d: DeviceEntry) -> (Seq<char>, Seq<char>, Seq<char>) {
    (d.0@, d.1@, d.2@)
}

pub open spec fn devices_view(ds: Seq<DeviceEntry>) -> Seq<(Seq<char>, Seq<char>, Seq<char>)> {
    ds.map_values(|d: DeviceEntry| device_view(d))
}

/// Whether some entry of the list has address `addr`.
pub open spec fn has_address(ds: Seq<(Seq<char>, Seq<char>, Seq<char>)>, addr: Seq<char>) -> bool {
    exists|i: int| 0 <= i < ds.len() && (#[trigger] ds[i]).0 == addr
}

/// No address occurs twice in the list.
pub open spec fn addresses_unique(ds: Seq<(Seq<char>, Seq<char>, Seq<char>)>) -> bool {
    forall|i: int, j: int|
        0 <= i < ds.len() && 0 <= j < ds.len() && i != j ==> (#[trigger] ds[i]).0 != (
        #[trigger] ds[j]).0
}

/// Every entry shows its name followed by its address in brackets.
pub open spec fn displays_consistent(ds: Seq<(Seq<char>, Seq<char>, Seq<char>)>) -> bool {
    forall|i: int| 0 <= i < ds.len() ==> (#[trigger] ds[i]).2 == display_name(ds[i].1, ds[i].0)
}

/// The list after offering a device: unchanged if its address is known,
/// otherwise extended by one entry.
pub open spec fn insert_device_spec(
    ds: Seq<(Seq<char>, Seq<char>, Seq<char>)>,
    addr: Seq<char>,
    raw_name: Seq<char>,
) -> (Seq<(Seq<char>, Seq<char>, Seq<char>)>, bool) {
    if has_address(ds, addr) {
        (ds, false)
    } else {
        (ds.push((addr, raw_name, display_name(raw_name, addr))), true)
    }
}

/// `name (addr)`.
pub fn format_display_name(raw_name: &str, addr: &str) -> (s: String)
    ensures
        s@ == display_name(raw_name@, addr@),
{
    let mut s = String::from_str(raw_name);
    push_char(&mut s, ' ');
    push_char(&mut s, '(');
    push_str(&mut s, addr);
    push_char(&mut s, ')');
    assert(s@ =~= display_name(raw_name@, addr@));
    s
}

/// Insert a device into the list with its MAC address displayed.
///
/// Every device line is shown as `name (MAC)` so the address is always visible.
/// Returns `false`, leaving the list as it was, when the address is already listed.
pub fn insert_device_display_name(devices: &mut Vec<DeviceEntry>, addr: String, raw_name: String) -> (added: bool)
    ensures
        (devices_view(final(devices)@), added) == insert_device_spec(
            devices_view(old(devices)@),
            addr@,
            raw_name@,
        ),
{
    let ghost old_view = devices_view(devices@);
    let mut i: usize = 0;
    while i < devices.len()
        invariant
            i <= devices@.len(),
            old_view == devices_view(devices@),
            forall|k: int| 0 <= k < i ==> (#[trigger] old_view[k]).0 != addr@,
        decreases devices.len() - i,
    {
        if devices[i].0 == addr {
            assert(old_view[i as int].0 == addr@);
            return false;
        }
        i = i + 1;
    }
    assert(!has_address(old_view, addr@));
    let display = format_display_name(raw_name.as_str(), addr.as_str());
    let ghost entry = (addr, raw_name, display);
    devices.push((addr, raw_name, display));
    assert(devices_view(devices@) =~= old_view.push(device_view(entry)));
    true
}

/// Offering a device keeps the list free of repeated addresses, keeps every
/// line in the `name (MAC)` form, and reports whether the list grew.
pub proof fn lemma_insert_device_keeps_invariants(
    ds: Seq<(Seq<char>, Seq<char>, Seq<char>)>,
    addr: Seq<char>,
    raw_name: Seq<char>,
)
    requires
        addresses_unique(ds),
        displays_consistent(ds),
    ensures
        addresses_unique(insert_device_spec(ds, addr, raw_name).0),
        displays_consistent(insert_device_spec(ds, addr, raw_name).0),
        has_address(insert_device_spec(ds, addr, raw_name).0, addr),
        insert_device_spec(ds, addr, raw_name).1 <==> !has_address(ds, addr),
        insert_device_spec(ds, addr, raw_name).1 ==> insert_device_spec(ds, addr, raw_name).0.len()
            == ds.len() + 1,
        !insert_device_spec(ds, addr, raw_name).1 ==> insert_device_spec(ds, addr, raw_name).0
            == ds,
{
    let r = insert_device_spec(ds, addr, raw_name).0;
    if !has_address(ds, addr) {
        assert(r[ds.len() as int].0 == addr);
        assert forall|i: int, j: int|
            0 <= i < r.len() && 0 <= j < r.len() && i != j implies (#[trigger] r[i]).0 != (
            #[trigger] r[j]).0 by {
            if i < ds.len() && j < ds.len() {
                assert(r[i] == ds[i] && r[j] == ds[j]);
            } else if i < ds.len() {
                assert(r[i] == ds[i]);
            } else if j < ds.len() {
                assert(r[j] == ds[j]);
            }
        }
        assert forall|i: int| 0 <= i < r.len() implies (#[trigger] r[i]).2 == display_name(
            r[i].1,
            r[i].0,
        ) by {
            if i < ds.len() {
                assert(r[i] == ds[i]);
            }
        }
    }
}

/// Offering the same address twice: the second offer is refused and changes nothing.
pub proof fn lemma_insert_device_idempotent(
    ds: Seq<(Seq<char>, Seq<char>, Seq<char>)>,
    addr: Seq<char>,
    name1: Seq<char>,
    name2: Seq<char>,
)
    ensures
        ({
            let once = insert_device_spec(ds, addr, name1).0;
            insert_device_spec(once, addr, name2) == (once, false)
        }),
{
    let once = insert_device_spec(ds, addr, name1).0;
    if !has_address(ds, addr) {
        assert(once[ds.len() as int].0 == addr);
    }
}

/// Offering a device: a new address is added after the listed devices, shown
/// as `name (MAC)`, with every earlier entry kept where it was; a listed
/// address leaves the list as it is.
pub proof fn lemma_insert_device_appends(
    ds: Seq<(Seq<char>, Seq<char>, Seq<char>)>,
    addr: Seq<char>,
    raw_name: Seq<char>,
)
    ensures
        !has_address(ds, addr) ==> {
            let r = insert_device_spec(ds, addr, raw_name);
            &&& r.1
            &&& r.0.len() == ds.len() + 1
            &&& forall|i: int| 0 <= i < ds.len() ==> #[trigger] r.0[i] == ds[i]
            &&& r.0[ds.len() as int] == (addr, raw_name, display_name(raw_name, addr))
        },
        has_address(ds, addr) ==> insert_device_spec(ds, addr, raw_name) == (ds, false),
{
}

} // verus!
