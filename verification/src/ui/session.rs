//! Laws over a whole UI session: any sequence of lines from the Bluetooth
//! task, key presses and prompt answers.
use vstd::prelude::*;
use crate::text::{has_prefix, after_prefix, split_once};
use crate::ui::{insert_device_spec, addresses_unique};
use crate::ui::model::{Key, ModelV, model_wf};
use crate::ui::keys::{key_step, lemma_key_step_wf};
use crate::ui::messages::{message_step, prompt_answer_step, lemma_message_step_wf};

verus! {

/// One thing that happens to the UI.
pub enum UiEvent {
    /// A line from the Bluetooth task.
    Line(Seq<char>),
    /// A key press.
    Press(Key),
    /// The user's answer (second) to a prompt (first).
    Answer(Seq<char>, Seq<char>),
}

/// The state after each event in turn.
pub open spec fn run_events(m: ModelV, evs: Seq<UiEvent>) -> ModelV
    decreases evs.len(),
{
    if evs.len() == 0 {
        m
    } else {
        let before = run_events(m, evs.drop_last());
        match evs.last() {
            UiEvent::Line(s) => message_step(before, s).0,
            UiEvent::Press(k) => key_step(before, k).0,
            UiEvent::Answer(p, i) => prompt_answer_step(before, p, i).0,
        }
    }
}

/// What one line does to the device list: `DEVICE:<addr>|<name>`, split at
/// the first `|`, offers the device; every other line leaves the list alone.
pub open spec fn device_effect(ds: Seq<(Seq<char>, Seq<char>, Seq<char>)>, line: Seq<char>) -> Seq<
    (Seq<char>, Seq<char>, Seq<char>),
> {
    if has_prefix(line, "DEVICE:"@) {
        match split_once(after_prefix(line, "DEVICE:"@), '|') {
            (addr, Some(name)) => insert_device_spec(ds, addr, name).0,
            _ => ds,
        }
    } else {
        ds
    }
}

/// The device list after a session: the `DEVICE:` lines folded in arrival order.
pub open spec fn devices_after(ds: Seq<(Seq<char>, Seq<char>, Seq<char>)>, evs: Seq<UiEvent>) -> Seq<
    (Seq<char>, Seq<char>, Seq<char>),
>
    decreases evs.len(),
{
    if evs.len() == 0 {
        ds
    } else {
        let before = devices_after(ds, evs.drop_last());
        match evs.last() {
            UiEvent::Line(s) => device_effect(before, s),
            _ => before,
        }
    }
}

proof fn lemma_key_keeps_devices(m: ModelV, k: Key)
    ensures
        key_step(m, k).0.devices == m.devices,
{
}

proof fn lemma_line_devices(m: ModelV, s: Seq<char>)
    ensures
        message_step(m, s).0.devices == device_effect(m.devices, s),
{
    reveal_strlit("PROMPT:");
    reveal_strlit("DEVICE:");
    if has_prefix(s, "PROMPT:"@) {
        assert(s.subrange(0, 7)[0] == 'P');
        assert(!has_prefix(s, "DEVICE:"@));
    }
}

/// Over any session the device list is the fold of its `DEVICE:` lines, no
/// address is listed twice, and the state stays well formed.
pub proof fn lemma_session_devices(m: ModelV, evs: Seq<UiEvent>)
    requires
        model_wf(m),
    ensures
        run_events(m, evs).devices == devices_after(m.devices, evs),
        model_wf(run_events(m, evs)),
        addresses_unique(run_events(m, evs).devices),
    decreases evs.len(),
{
    if evs.len() > 0 {
        lemma_session_devices(m, evs.drop_last());
        let before = run_events(m, evs.drop_last());
        match evs.last() {
            UiEvent::Line(s) => {
                lemma_line_devices(before, s);
                lemma_message_step_wf(before, s);
            },
            UiEvent::Press(k) => {
                lemma_key_keeps_devices(before, k);
                lemma_key_step_wf(before, k);
            },
            UiEvent::Answer(p, i) => {},
        }
    }
}

} // verus!
