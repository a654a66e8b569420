//! What the device list screen shows.
use vstd::prelude::*;
use crate::text::{concat2, push_str};
use crate::ui::{DeviceEntry, devices_view, display_name, format_display_name};
use crate::ui::model::{UiModel, ModelV, strings_view};
use crate::ui::keys::selected_device;
use crate::ui::connections::{key_index, find_key, keys_unique, lemma_key_index, lemma_key_index_at};
use crate::ui::pin_entry::Rect;

verus! {

broadcast use crate::ui::model::lemma_model_view;

/// One row per device, `name (MAC)`; a single placeholder row when there is none.
pub open spec fn device_rows_spec(ds: Seq<(Seq<char>, Seq<char>, Seq<char>)>) -> Seq<Seq<char>> {
    if ds.len() == 0 {
        seq!["No MeshCore devices discovered yet"@]
    } else {
        ds.map_values(|d: (Seq<char>, Seq<char>, Seq<char>)| display_name(d.1, d.0))
    }
}

/// With devices listed, row `i` shows device `i`, one row per device.
pub proof fn lemma_device_rows_in_order(ds: Seq<(Seq<char>, Seq<char>, Seq<char>)>)
    requires
        ds.len() > 0,
    ensures
        device_rows_spec(ds).len() == ds.len(),
        forall|i: int| 0 <= i < ds.len() ==> #[trigger] device_rows_spec(ds)[i] == display_name(ds[i].1, ds[i].0),
{
}

/// The highlighted row shows the device that Enter and 'd' act on.
pub proof fn lemma_highlighted_row_is_selected_device(m: ModelV)
    requires
        selected_device(m) is Some,
    ensures
        ({
            let d = selected_device(m)->0;
            let i = m.selected->0;
            device_rows_spec(m.devices)[i as int] == display_name(d.1, d.0)
        }),
{
    lemma_device_rows_in_order(m.devices);
}

/// The rows of the device list.
pub fn device_rows(devices: &Vec<DeviceEntry>) -> (rows: Vec<String>)
    ensures
        strings_view(rows@) == device_rows_spec(devices_view(devices@)),
        devices@.len() == 0 ==> rows@.len() == 1 && rows@[0]@ == "No MeshCore devices discovered yet"@,
        devices@.len() > 0 ==> rows@.len() == devices@.len(),
        forall|i: int|
            0 <= i < devices@.len() ==> (#[trigger] rows@[i])@ == display_name(devices@[i].1@, devices@[i].0@),
{
    let n = devices.len();
    let mut rows: Vec<String> = Vec::new();
    if n == 0 {
        rows.push(String::from_str("No MeshCore devices discovered yet"));
        assert(strings_view(rows@) =~= seq!["No MeshCore devices discovered yet"@]);
        return rows;
    }
    let ghost dv = devices_view(devices@);
    let mut i: usize = 0;
    while i < n
        invariant
            n == devices@.len(),
            dv == devices_view(devices@),
            i <= n,
            strings_view(rows@) == dv.subrange(0, i as int).map_values(
                |d: (Seq<char>, Seq<char>, Seq<char>)| display_name(d.1, d.0),
            ),
        decreases n - i,
    {
        let row = format_display_name(devices[i].1.as_str(), devices[i].0.as_str());
        let ghost before = strings_view(rows@);
        assert(dv[i as int] == (devices@[i as int].0@, devices@[i as int].1@, devices@[i as int].2@));
        rows.push(row);
        assert(strings_view(rows@) =~= before.push(display_name(dv[i as int].1, dv[i as int].0)));
        assert(strings_view(rows@) =~= dv.subrange(0, i + 1).map_values(
            |d: (Seq<char>, Seq<char>, Seq<char>)| display_name(d.1, d.0),
        ));
        i = i + 1;
    }
    assert(dv.subrange(0, n as int) =~= dv);
    proof {
        lemma_device_rows_in_order(dv);
        assert forall|k: int| 0 <= k < devices@.len() implies (#[trigger] rows@[k])@ == display_name(
            devices@[k].1@,
            devices@[k].0@,
        ) by {
            assert(strings_view(rows@)[k] == rows@[k]@);
            assert(dv[k] == (devices@[k].0@, devices@[k].1@, devices@[k].2@));
        }
    }
    rows
}

/// The log, newest line first.
pub fn log_rows(logs: &Vec<String>) -> (rows: Vec<String>)
    ensures
        strings_view(rows@) == strings_view(logs@).reverse(),
{
    let n = logs.len();
    let mut rows: Vec<String> = Vec::new();
    let mut i: usize = n;
    while i > 0
        invariant
            n == logs@.len(),
            i <= n,
            rows@.len() == n - i,
            forall|k: int| 0 <= k < rows@.len() ==> (#[trigger] rows@[k])@ == logs@[n - 1 - k]@,
        decreases i,
    {
        i = i - 1;
        rows.push(logs[i].clone());
    }
    assert(strings_view(rows@) =~= strings_view(logs@).reverse());
    rows
}

/// The connection status of the highlighted device, if it has one.
pub open spec fn connection_status_spec(m: ModelV) -> Option<Seq<char>> {
    match selected_device(m) {
        Some(d) => match key_index(m.connections, d.0) {
            Some(i) => Some(m.connections[i as int].1),
            None => None,
        },
        None => None,
    }
}

/// The status shown is the one recorded for the highlighted device's
/// address, none if it has none, and none when no device is highlighted.
pub proof fn lemma_status_of_highlighted_device(m: ModelV)
    requires
        keys_unique(m.connections),
    ensures
        selected_device(m) is None ==> connection_status_spec(m) is None,
        selected_device(m) is Some ==> forall|j: int|
            0 <= j < m.connections.len() && (#[trigger] m.connections[j]).0 == (selected_device(m)->0).0
                ==> connection_status_spec(m) == Some(m.connections[j].1),
        selected_device(m) is Some && (forall|j: int|
            0 <= j < m.connections.len() ==> (#[trigger] m.connections[j]).0 != (selected_device(m)->0).0)
            ==> connection_status_spec(m) is None,
{
    if selected_device(m) is Some {
        let a = (selected_device(m)->0).0;
        lemma_key_index(m.connections, a);
        assert forall|j: int|
            0 <= j < m.connections.len() && (#[trigger] m.connections[j]).0 == a implies connection_status_spec(m)
            == Some(m.connections[j].1) by {
            lemma_key_index_at(m.connections, a, j);
        }
    }
}

impl UiModel {
    /// The status shown beside the device list: that of the highlighted device.
    pub fn connection_status(&self) -> (status: Option<String>)
        ensures
            match status {
                Some(s) => connection_status_spec(self@) == Some(s@),
                None => connection_status_spec(self@) is None,
            },
    {
        match self.selected {
            Some(i) => {
                if i < self.devices.len() {
                    match find_key(&self.connections, &self.devices[i].0) {
                        Some(k) => Some(self.connections[k].1.clone()),
                        None => None,
                    }
                } else {
                    None
                }
            },
            None => None,
        }
    }
}

/// Where the disconnect confirmation is drawn over `area`: half as wide
/// (at least 20 cells), five rows high, centred.
pub open spec fn confirm_area_spec(area: Rect) -> Rect {
    let w = if area.width / 2 >= 20 {
        (area.width / 2) as u16
    } else {
        20u16
    };
    let free_w = if area.width >= w {
        (area.width - w) as u16
    } else {
        0u16
    };
    let free_h = if area.height >= 5 {
        (area.height - 5) as u16
    } else {
        0u16
    };
    Rect { x: (free_w / 2) as u16, y: (free_h / 2) as u16, width: w, height: 5 }
}

pub fn confirm_area(area: Rect) -> (r: Rect)
    ensures
        r == confirm_area_spec(area),
{
    let half = area.width / 2;
    let w: u16 = if half >= 20 {
        half
    } else {
        20
    };
    let h: u16 = 5;
    let x = area.width.saturating_sub(w) / 2;
    let y = area.height.saturating_sub(h) / 2;
    Rect { x, y, width: w, height: h }
}

/// The question in the disconnect confirmation.
pub fn confirm_text(name: &str, addr: &str) -> (s: String)
    ensures
        s@ == "Disconnect "@ + display_name(name@, addr@) + "? (y/n)"@,
{
    let mut s = concat2("Disconnect ", format_display_name(name, addr).as_str());
    push_str(&mut s, "? (y/n)");
    s
}

} // verus!
