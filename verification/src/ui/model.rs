//! The UI state, its mathematical view, and the actions the front end performs.
use vstd::prelude::*;
use crate::ui::{DeviceEntry, devices_view, addresses_unique, displays_consistent};
use crate::ui::pin_entry::PinButton;
use crate::ui::connections::keys_unique;

verus! {

/// A key press, as the terminal reports it.
#[derive(Clone, Copy, PartialEq, Eq, Structural, Debug)]
pub enum Key {
    Char(char),
    Up,
    Down,
    Left,
    Right,
    Tab,
    Enter,
    Esc,
    Backspace,
    Other,
}

/// The screen the UI shows.
#[derive(Debug, PartialEq, Eq)]
pub enum UiMode {
    DeviceList,
    PinEntry { addr: String, name: String, input: String, button: PinButton },
    Confirm { addr: String, name: String },
    Messaging {
        addr: String,
        name: String,
        channels: Vec<String>,
        selected_channel: usize,
        current_channel: String,
        messages: Vec<(String, String)>,
        input: String,
    },
    Settings { return_to: Box<UiMode> },
}

/// What the front end has to do after a key press.
#[derive(Debug, PartialEq, Eq)]
pub enum UiAction {
    /// Print a line on the terminal.
    Print(String),
    /// Send a command to the Bluetooth task.
    SendCommand(String),
    /// Answer the pending PIN / passkey request.
    SendPromptResponse(String),
    /// Restore the terminal and stop.
    Quit,
}

/// The whole UI state. It is always well formed (`wf`, kept as a type
/// invariant); it is changed only by the key and message steps, and read
/// through its getters.
pub struct UiModel {
    /// (address, advertised name, displayed line) of each discovered device.
    pub(crate) devices: Vec<DeviceEntry>,
    /// Highlighted row of the device list.
    pub(crate) selected: Option<usize>,
    pub(crate) mode: UiMode,
    /// Connection status by device address; each address occurs once.
    pub(crate) connections: Vec<(String, String)>,
    /// Event log, oldest first.
    pub(crate) logs: Vec<String>,
}

// ---------------------------------------------------------------------------
// Views
// ---------------------------------------------------------------------------
pub enum ModeV {
    DeviceList,
    PinEntry { addr: Seq<char>, name: Seq<char>, input: Seq<char>, button: PinButton },
    Confirm { addr: Seq<char>, name: Seq<char> },
    Messaging {
        addr: Seq<char>,
        name: Seq<char>,
        channels: Seq<Seq<char>>,
        selected_channel: usize,
        current_channel: Seq<char>,
        messages: Seq<(Seq<char>, Seq<char>)>,
        input: Seq<char>,
    },
    Settings { return_to: Box<ModeV> },
}

pub enum ActionV {
    Print(Seq<char>),
    SendCommand(Seq<char>),
    SendPromptResponse(Seq<char>),
    Quit,
}

pub struct ModelV {
    pub devices: Seq<(Seq<char>, Seq<char>, Seq<char>)>,
    pub selected: Option<usize>,
    pub mode: ModeV,
    pub connections: Seq<(Seq<char>, Seq<char>)>,
    pub logs: Seq<Seq<char>>,
}

pub open spec fn strings_view(v: Seq<String>) -> Seq<Seq<char>> {
    v.map_values(|s: String| s@)
}

pub open spec fn pair_view(p: (String, String)) -> (Seq<char>, Seq<char>) {
    (p.0@, p.1@)
}

pub open spec fn pairs_view(v: Seq<(String, String)>) -> Seq<(Seq<char>, Seq<char>)> {
    v.map_values(|p: (String, String)| pair_view(p))
}

pub open spec fn mode_view(m: UiMode) -> ModeV
    decreases m,
{
    match m {
        UiMode::DeviceList => ModeV::DeviceList,
        UiMode::PinEntry { addr, name, input, button } => ModeV::PinEntry {
            addr: addr@,
            name: name@,
            input: input@,
            button,
        },
        UiMode::Confirm { addr, name } => ModeV::Confirm { addr: addr@, name: name@ },
        UiMode::Messaging {
            addr,
            name,
            channels,
            selected_channel,
            current_channel,
            messages,
            input,
        } => ModeV::Messaging {
            addr: addr@,
            name: name@,
            channels: strings_view(channels@),
            selected_channel,
            current_channel: current_channel@,
            messages: pairs_view(messages@),
            input: input@,
        },
        UiMode::Settings { return_to } => ModeV::Settings {
            return_to: Box::new(mode_view(*return_to)),
        },
    }
}

impl View for UiMode {
    type V = ModeV;

    open spec fn view(&self) -> ModeV {
        mode_view(*self)
    }
}

pub open spec fn action_view(a: UiAction) -> ActionV {
    match a {
        UiAction::Print(s) => ActionV::Print(s@),
        UiAction::SendCommand(s) => ActionV::SendCommand(s@),
        UiAction::SendPromptResponse(s) => ActionV::SendPromptResponse(s@),
        UiAction::Quit => ActionV::Quit,
    }
}

pub open spec fn actions_view(v: Seq<UiAction>) -> Seq<ActionV> {
    v.map_values(|a: UiAction| action_view(a))
}

impl UiModel {
    pub(crate) open spec fn fields_view(&self) -> ModelV {
        ModelV {
            devices: devices_view(self.devices@),
            selected: self.selected,
            mode: self.mode@,
            connections: pairs_view(self.connections@),
            logs: strings_view(self.logs@),
        }
    }
}

impl View for UiModel {
    type V = ModelV;

    closed spec fn view(&self) -> ModelV {
        self.fields_view()
    }
}

/// Inside the crate, the view of a model is read off its fields.
pub(crate) broadcast proof fn lemma_model_view(m: UiModel)
    ensures
        #[trigger] m@ == m.fields_view(),
{
}

// ---------------------------------------------------------------------------
// Well-formedness
// ---------------------------------------------------------------------------
/// A chat screen always has a channel, and the selected one exists.
pub open spec fn mode_wf(m: ModeV) -> bool
    decreases m,
{
    match m {
        ModeV::Messaging { channels, selected_channel, .. } => channels.len() > 0
            && selected_channel < channels.len(),
        ModeV::Settings { return_to } => mode_wf(*return_to),
        _ => true,
    }
}

/// The highlight is on a listed device, or on the first row.
pub open spec fn selection_ok(m: ModelV) -> bool {
    m.selected matches Some(i) ==> i == 0 || i < m.devices.len()
}

pub open spec fn model_wf(m: ModelV) -> bool {
    &&& mode_wf(m.mode)
    &&& selection_ok(m)
    &&& keys_unique(m.connections)
    &&& addresses_unique(m.devices)
    &&& displays_consistent(m.devices)
}

impl UiModel {
    pub open spec fn wf(&self) -> bool {
        model_wf(self@)
    }

    /// Every model the crate hands out is well formed.
    #[verifier::type_invariant]
    pub(crate) open spec fn well_formed(self) -> bool {
        model_wf(self.fields_view())
    }
}

// ---------------------------------------------------------------------------
// Small state updates used by the key and message steps
// ---------------------------------------------------------------------------
/// The number of log lines the UI keeps.
pub const LOG_CAPACITY: usize = 200;

pub open spec fn with_mode(m: ModelV, mode: ModeV) -> ModelV {
    ModelV { mode, ..m }
}

pub open spec fn with_log(m: ModelV, line: Seq<char>) -> ModelV {
    ModelV { logs: m.logs.push(line), ..m }
}

/// The most recent `LOG_CAPACITY` lines.
pub open spec fn capped(logs: Seq<Seq<char>>) -> Seq<Seq<char>> {
    if logs.len() > LOG_CAPACITY {
        logs.subrange(logs.len() - LOG_CAPACITY, logs.len() as int)
    } else {
        logs
    }
}

pub open spec fn with_capped_logs(m: ModelV) -> ModelV {
    ModelV { logs: capped(m.logs), ..m }
}

/// The log never holds more than `LOG_CAPACITY` lines once capped, and the newest line is kept.
pub proof fn lemma_capped_logs(logs: Seq<Seq<char>>, line: Seq<char>)
    ensures
        capped(logs).len() <= LOG_CAPACITY,
        logs.len() <= LOG_CAPACITY ==> capped(logs) == logs,
        capped(logs.push(line)).len() > 0,
        capped(logs.push(line)).last() == line,
{
}

impl UiModel {
    /// The state the UI starts in: no devices, first row highlighted, device list shown.
    pub fn new() -> (m: UiModel)
        ensures
            m@ == (ModelV {
                devices: Seq::empty(),
                selected: Some(0),
                mode: ModeV::DeviceList,
                connections: Seq::empty(),
                logs: Seq::empty(),
            }),
            m.wf(),
    {
        let m = UiModel {
            devices: Vec::new(),
            selected: Some(0),
            mode: UiMode::DeviceList,
            connections: Vec::new(),
            logs: Vec::new(),
        };
        assert(m@.devices =~= Seq::empty());
        assert(m@.connections =~= Seq::empty());
        assert(m@.logs =~= Seq::empty());
        m
    }

    /// The discovered devices: (address, advertised name, displayed line).
    pub fn devices(&self) -> (r: &Vec<DeviceEntry>)
        ensures
            devices_view(r@) == self@.devices,
    {
        &self.devices
    }

    /// The highlighted row of the device list.
    pub fn selected(&self) -> (r: Option<usize>)
        ensures
            r == self@.selected,
    {
        self.selected
    }

    /// The screen shown.
    pub fn mode(&self) -> (r: &UiMode)
        ensures
            r@ == self@.mode,
    {
        &self.mode
    }

    /// The connection status of each device address.
    pub fn connections(&self) -> (r: &Vec<(String, String)>)
        ensures
            pairs_view(r@) == self@.connections,
    {
        &self.connections
    }

    /// The event log, oldest first.
    pub fn logs(&self) -> (r: &Vec<String>)
        ensures
            strings_view(r@) == self@.logs,
    {
        &self.logs
    }

    pub(crate) fn push_log(&mut self, line: String)
        ensures
            final(self)@ == with_log(old(self)@, line@),
            final(self).wf() == old(self).wf(),
    {
        let ghost before = self@;
        proof {
            use_type_invariant(&*self);
        }
        let mut logs = Vec::new();
        std::mem::swap(&mut logs, &mut self.logs);
        logs.push(line);
        self.logs = logs;
        assert(self@.logs =~= before.logs.push(line@));
        assert(self@ =~= with_log(before, line@));
    }

    /// Drops the oldest log lines beyond `LOG_CAPACITY`.
    pub(crate) fn cap_logs(&mut self)
        ensures
            final(self)@ == with_capped_logs(old(self)@),
            final(self).wf() == old(self).wf(),
    {
        let ghost before = self@;
        proof {
            use_type_invariant(&*self);
        }
        let n = self.logs.len();
        if n > LOG_CAPACITY {
            let mut logs = Vec::new();
            std::mem::swap(&mut logs, &mut self.logs);
            let kept = logs.split_off(n - LOG_CAPACITY);
            self.logs = kept;
            assert(self@.logs =~= capped(before.logs));
        }
        assert(self@ =~= with_capped_logs(before));
    }
}

} // verus!
