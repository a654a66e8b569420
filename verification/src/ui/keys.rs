//! How a key press changes the UI state, screen by screen.
use vstd::prelude::*;
use crate::text::{is_control, trim_seq, utf8_len, chars_of, trim, utf8_len_below, concat2, push_char, string_of, is_control_char};
use crate::ui::{display_name, format_display_name};
use crate::ui::model::{mode_wf, 
    Key, UiMode, UiAction, UiModel, ModeV, ActionV, ModelV, with_mode, with_log, model_wf,
    actions_view, strings_view, pairs_view,
};
use crate::ui::pin_entry::{PinButton, toggled, toggle};

verus! {

broadcast use crate::ui::model::lemma_model_view;

/// The longest PIN, in UTF-8 bytes, before further characters are ignored.
pub const PIN_MAX_BYTES: usize = 32;

pub open spec fn noop(m: ModelV) -> (ModelV, Seq<ActionV>) {
    (m, Seq::empty())
}

/// The device under the highlight, if the highlight is on a row.
pub open spec fn selected_device(m: ModelV) -> Option<(Seq<char>, Seq<char>, Seq<char>)> {
    match m.selected {
        Some(i) => if i < m.devices.len() {
            Some(m.devices[i as int])
        } else {
            None
        },
        None => None,
    }
}

pub open spec fn highlight_or_top(m: ModelV) -> usize {
    match m.selected {
        Some(i) => i,
        None => 0,
    }
}

/// The chat screen opened once a PIN is entered.
pub open spec fn messaging_start(addr: Seq<char>, name: Seq<char>) -> ModeV {
    ModeV::Messaging {
        addr,
        name,
        channels: seq!["public"@, "private"@],
        selected_channel: 0,
        current_channel: "public"@,
        messages: seq![("system"@, "Welcome to Meshy chat."@)],
        input: Seq::empty(),
    }
}

pub open spec fn device_list_key(m: ModelV, key: Key) -> (ModelV, Seq<ActionV>) {
    match key {
        Key::Char(c) => if c == 'r' || c == 'R' {
            (
                with_log(m, "Refresh device list requested by user"@),
                seq![ActionV::Print("Refresh Device List"@), ActionV::SendCommand("refresh"@)],
            )
        } else if c == 'd' {
            match selected_device(m) {
                Some(d) => noop(with_mode(m, ModeV::Confirm { addr: d.0, name: d.2 })),
                None => noop(m),
            }
        } else if c == 'q' {
            (m, seq![ActionV::Quit])
        } else {
            noop(m)
        },
        Key::Down => if m.devices.len() > 0 {
            let s = highlight_or_top(m);
            let next = if s < usize::MAX {
                (s + 1) as usize
            } else {
                s
            };
            let last = (m.devices.len() - 1) as usize;
            noop(
                ModelV {
                    selected: Some(
                        if next < last {
                            next
                        } else {
                            last
                        },
                    ),
                    ..m
                },
            )
        } else {
            noop(m)
        },
        Key::Up => if m.devices.len() > 0 {
            let s = highlight_or_top(m);
            noop(
                ModelV {
                    selected: Some(
                        if s > 0 {
                            (s - 1) as usize
                        } else {
                            0
                        },
                    ),
                    ..m
                },
            )
        } else {
            noop(m)
        },
        Key::Enter => match selected_device(m) {
            Some(d) => noop(
                with_mode(
                    m,
                    ModeV::PinEntry {
                        addr: d.0,
                        name: d.2,
                        input: Seq::empty(),
                        button: PinButton::Continue,
                    },
                ),
            ),
            None => noop(m),
        },
        _ => noop(m),
    }
}

pub open spec fn pin_entry_key(
    m: ModelV,
    addr: Seq<char>,
    name: Seq<char>,
    input: Seq<char>,
    button: PinButton,
    key: Key,
) -> (ModelV, Seq<ActionV>) {
    let with_pin = |i: Seq<char>, b: PinButton|
        with_mode(m, ModeV::PinEntry { addr, name, input: i, button: b });
    match key {
        Key::Char(c) => if c == 'q' {
            (m, seq![ActionV::Quit])
        } else if !is_control(c) && utf8_len(input) < PIN_MAX_BYTES {
            noop(with_pin(input.push(c), button))
        } else {
            noop(m)
        },
        Key::Esc => noop(with_mode(m, ModeV::DeviceList)),
        Key::Tab | Key::Right | Key::Left => noop(with_pin(input, toggled(button))),
        Key::Backspace => if input.len() > 0 {
            noop(with_pin(input.drop_last(), button))
        } else {
            noop(m)
        },
        Key::Enter => if button == PinButton::Back {
            noop(with_mode(m, ModeV::DeviceList))
        } else if trim_seq(input).len() == 0 {
            noop(with_log(m, "PIN cannot be empty"@))
        } else {
            (
                with_mode(
                    with_log(m, "Connecting to "@ + display_name(name, addr)),
                    messaging_start(addr, name),
                ),
                seq![
                    ActionV::SendPromptResponse(trim_seq(input)),
                    ActionV::SendCommand("connect "@ + addr),
                ],
            )
        },
        _ => noop(m),
    }
}

pub open spec fn confirm_key(m: ModelV, addr: Seq<char>, name: Seq<char>, key: Key) -> (
    ModelV,
    Seq<ActionV>,
) {
    match key {
        Key::Char(c) => if c == 'y' {
            (
                with_mode(
                    with_log(m, "Disconnect confirmed for "@ + display_name(name, addr)),
                    ModeV::DeviceList,
                ),
                seq![ActionV::SendCommand("disconnect "@ + addr)],
            )
        } else if c == 'n' {
            noop(
                with_mode(
                    with_log(m, "Disconnect canceled for "@ + display_name(name, addr)),
                    ModeV::DeviceList,
                ),
            )
        } else {
            noop(m)
        },
        Key::Esc => noop(
            with_mode(
                with_log(m, "Disconnect canceled for "@ + display_name(name, addr)),
                ModeV::DeviceList,
            ),
        ),
        _ => noop(m),
    }
}

pub open spec fn messaging_key(
    m: ModelV,
    addr: Seq<char>,
    name: Seq<char>,
    channels: Seq<Seq<char>>,
    selected_channel: usize,
    current_channel: Seq<char>,
    messages: Seq<(Seq<char>, Seq<char>)>,
    input: Seq<char>,
    key: Key,
) -> (ModelV, Seq<ActionV>) {
    let chat = |sel: usize, cur: Seq<char>, msgs: Seq<(Seq<char>, Seq<char>)>, i: Seq<char>|
        with_mode(
            m,
            ModeV::Messaging {
                addr,
                name,
                channels,
                selected_channel: sel,
                current_channel: cur,
                messages: msgs,
                input: i,
            },
        );
    match key {
        Key::Esc => noop(with_mode(m, ModeV::DeviceList)),
        Key::Char(c) => if c == 's' {
            noop(with_mode(m, ModeV::Settings { return_to: Box::new(m.mode) }))
        } else if !is_control(c) {
            noop(chat(selected_channel, current_channel, messages, input.push(c)))
        } else {
            noop(m)
        },
        Key::Tab => {
            let next = ((selected_channel + 1) % (channels.len() as int)) as usize;
            noop(chat(next, channels[next as int], messages, input))
        },
        Key::Enter => if trim_seq(input).len() != 0 {
            noop(chat(selected_channel, current_channel, messages.push((name, input)), Seq::empty()))
        } else {
            noop(m)
        },
        Key::Backspace => if input.len() > 0 {
            noop(chat(selected_channel, current_channel, messages, input.drop_last()))
        } else {
            noop(m)
        },
        _ => noop(m),
    }
}

pub open spec fn settings_key(m: ModelV, return_to: ModeV, key: Key) -> (ModelV, Seq<ActionV>) {
    match key {
        Key::Esc => noop(with_mode(m, return_to)),
        Key::Char(c) => if c == 'q' {
            (m, seq![ActionV::Quit])
        } else {
            noop(m)
        },
        _ => noop(m),
    }
}

/// What a key press does on the current screen.
pub open spec fn key_step(m: ModelV, key: Key) -> (ModelV, Seq<ActionV>) {
    match m.mode {
        ModeV::DeviceList => device_list_key(m, key),
        ModeV::PinEntry { addr, name, input, button } => pin_entry_key(
            m,
            addr,
            name,
            input,
            button,
            key,
        ),
        ModeV::Confirm { addr, name } => confirm_key(m, addr, name, key),
        ModeV::Messaging {
            addr,
            name,
            channels,
            selected_channel,
            current_channel,
            messages,
            input,
        } => messaging_key(
            m,
            addr,
            name,
            channels,
            selected_channel,
            current_channel,
            messages,
            input,
            key,
        ),
        ModeV::Settings { return_to } => settings_key(m, *return_to, key),
    }
}

/// Every key keeps the state well formed.
pub proof fn lemma_key_step_wf(m: ModelV, key: Key)
    requires
        model_wf(m),
    ensures
        model_wf(key_step(m, key).0),
{
    match m.mode {
        ModeV::Messaging { channels, selected_channel, .. } => {
            if key == Key::Tab {
                let next = ((selected_channel + 1) % (channels.len() as int));
                assert(0 <= next < channels.len());
            }
        },
        _ => {},
    }
}

/// Opening the settings from a chat and leaving them with Esc returns to the same chat.
pub proof fn lemma_settings_round_trip(m: ModelV)
    requires
        m.mode is Messaging,
    ensures
        key_step(m, Key::Char('s')).1 == Seq::<ActionV>::empty(),
        key_step(key_step(m, Key::Char('s')).0, Key::Esc) == noop(m),
{
}

/// Switching the focused PIN button twice leaves the dialog as it was.
pub proof fn lemma_pin_button_toggle_twice(m: ModelV, k1: Key, k2: Key)
    requires
        m.mode is PinEntry,
        k1 == Key::Tab || k1 == Key::Left || k1 == Key::Right,
        k2 == Key::Tab || k2 == Key::Left || k2 == Key::Right,
    ensures
        key_step(key_step(m, k1).0, k2) == noop(m),
{
}

/// Moving the highlight over a non-empty list always lands on a listed device.
pub proof fn lemma_highlight_stays_on_list(m: ModelV, key: Key)
    requires
        m.mode is DeviceList,
        m.devices.len() > 0,
        m.selected matches Some(i) ==> i == 0 || i < m.devices.len(),
        key == Key::Up || key == Key::Down,
    ensures
        key_step(m, key).0.selected matches Some(i) && i < m.devices.len(),
{
}

/// Choosing the highlighted device, typing a one-character PIN and confirming
/// answers the pairing prompt with that PIN and asks the Bluetooth task to
/// connect to that device's address, then opens the chat with it.
pub proof fn lemma_pin_entry_connects(m: ModelV, c: char)
    requires
        m.mode is DeviceList,
        selected_device(m) is Some,
        !is_control(c),
        !crate::text::is_ws(c),
        c != 'q',
    ensures
        ({
            let d = selected_device(m)->0;
            let m1 = key_step(m, Key::Enter).0;
            let m2 = key_step(m1, Key::Char(c)).0;
            let (m3, acts) = key_step(m2, Key::Enter);
            &&& acts == seq![
                ActionV::SendPromptResponse(seq![c]),
                ActionV::SendCommand("connect "@ + d.0),
            ]
            &&& m3.mode == messaging_start(d.0, d.2)
        }),
{
    let d = selected_device(m)->0;
    let m1 = key_step(m, Key::Enter).0;
    assert(utf8_len(Seq::<char>::empty()) == 0);
    let e = Seq::<char>::empty();
    assert(e.push(c) =~= seq![c]);
    let one = seq![c];
    assert(crate::text::trim_start_seq(one.drop_first()) == one.drop_first());
    assert(crate::text::trim_start_seq(one) == one);
    assert(crate::text::trim_end_seq(one) == one);
}

/// Asking to disconnect the highlighted device and confirming sends the
/// disconnect command for that device's address and returns to the list.
pub proof fn lemma_confirm_disconnects(m: ModelV)
    requires
        m.mode is DeviceList,
        selected_device(m) is Some,
    ensures
        ({
            let d = selected_device(m)->0;
            let m1 = key_step(m, Key::Char('d')).0;
            let (m2, acts) = key_step(m1, Key::Char('y'));
            &&& m1.mode == (ModeV::Confirm { addr: d.0, name: d.2 })
            &&& acts == seq![ActionV::SendCommand("disconnect "@ + d.0)]
            &&& m2.mode == ModeV::DeviceList
        }),
{
}

/// On the device list, Up moves the highlight exactly one row up (staying on
/// the top row), and changes nothing else.
pub proof fn lemma_up_moves_one_row(m: ModelV, i: usize)
    requires
        m.mode is DeviceList,
        m.selected == Some(i),
        i < m.devices.len(),
    ensures
        key_step(m, Key::Up).1 == Seq::<ActionV>::empty(),
        key_step(m, Key::Up).0 == (ModelV { selected: key_step(m, Key::Up).0.selected, ..m }),
        i > 0 ==> key_step(m, Key::Up).0.selected == Some((i - 1) as usize),
        i == 0 ==> key_step(m, Key::Up).0.selected == Some(0usize),
{
}

/// On the device list, Down moves the highlight exactly one row down (staying
/// on the last row), and changes nothing else.
pub proof fn lemma_down_moves_one_row(m: ModelV, i: usize)
    requires
        m.mode is DeviceList,
        m.selected == Some(i),
        i < m.devices.len(),
        m.devices.len() <= usize::MAX,
    ensures
        key_step(m, Key::Down).1 == Seq::<ActionV>::empty(),
        key_step(m, Key::Down).0 == (ModelV { selected: key_step(m, Key::Down).0.selected, ..m }),
        i + 1 < m.devices.len() ==> key_step(m, Key::Down).0.selected == Some((i + 1) as usize),
        i + 1 == m.devices.len() ==> key_step(m, Key::Down).0.selected == Some(i),
{
}

/// Down then Up from any row but the last, and Up then Down from any row but
/// the first, come back to the same row.
pub proof fn lemma_down_up_round_trip(m: ModelV, i: usize)
    requires
        m.mode is DeviceList,
        m.selected == Some(i),
        i < m.devices.len(),
        m.devices.len() <= usize::MAX,
    ensures
        i + 1 < m.devices.len() ==> key_step(key_step(m, Key::Down).0, Key::Up) == noop(m),
        i > 0 ==> key_step(key_step(m, Key::Up).0, Key::Down) == noop(m),
{
}

/// Stepping through the list with Down reaches every device in turn: after
/// `k` presses from the top row the highlight is on row `k`.
pub proof fn lemma_down_reaches_every_row(m: ModelV, k: nat)
    requires
        m.mode is DeviceList,
        m.selected == Some(0usize),
        k < m.devices.len(),
        m.devices.len() <= usize::MAX,
    ensures
        presses(m, Key::Down, k).selected == Some(k as usize),
        presses(m, Key::Down, k) == (ModelV { selected: Some(k as usize), ..m }),
    decreases k,
{
    if k > 0 {
        lemma_down_reaches_every_row(m, (k - 1) as nat);
    }
}

/// The state after pressing `key` `k` times.
pub open spec fn presses(m: ModelV, key: Key, k: nat) -> ModelV
    decreases k,
{
    if k == 0 {
        m
    } else {
        key_step(presses(m, key, (k - 1) as nat), key).0
    }
}

/// On the disconnect question, 'n' answers it exactly as Esc does: the dialog
/// closes back to the list, the cancellation is logged, and no command is sent.
pub proof fn lemma_confirm_no_is_cancel(m: ModelV, addr: Seq<char>, name: Seq<char>)
    requires
        m.mode == (ModeV::Confirm { addr, name }),
    ensures
        key_step(m, Key::Char('n')) == key_step(m, Key::Esc),
        key_step(m, Key::Char('n')).0.mode == ModeV::DeviceList,
        key_step(m, Key::Char('n')).1 == Seq::<ActionV>::empty(),
        key_step(m, Key::Char('n')).0.logs == m.logs.push("Disconnect canceled for "@ + display_name(name, addr)),
        key_step(m, Key::Char('n')).0.devices == m.devices,
        key_step(m, Key::Char('n')).0.selected == m.selected,
        key_step(m, Key::Char('n')).0.connections == m.connections,
{
}

/// On the chat screen, Backspace removes the last character typed and nothing
/// else; with nothing typed it does nothing.
pub proof fn lemma_chat_backspace_removes_one_char(
    m: ModelV,
    addr: Seq<char>,
    name: Seq<char>,
    channels: Seq<Seq<char>>,
    selected_channel: usize,
    current_channel: Seq<char>,
    messages: Seq<(Seq<char>, Seq<char>)>,
    input: Seq<char>,
)
    requires
        m.mode == (ModeV::Messaging {
            addr,
            name,
            channels,
            selected_channel,
            current_channel,
            messages,
            input,
        }),
    ensures
        key_step(m, Key::Backspace).1 == Seq::<ActionV>::empty(),
        input.len() == 0 ==> key_step(m, Key::Backspace).0 == m,
        input.len() > 0 ==> key_step(m, Key::Backspace).0 == (ModelV {
            mode: ModeV::Messaging {
                addr,
                name,
                channels,
                selected_channel,
                current_channel,
                messages,
                input: input.subrange(0, input.len() - 1),
            },
            ..m
        }),
{
}

/// On the chat screen, typing a character and deleting it again gives back the
/// screen as it was.
pub proof fn lemma_chat_type_then_backspace(m: ModelV, c: char)
    requires
        m.mode is Messaging,
        !is_control(c),
        c != 's',
    ensures
        key_step(key_step(m, Key::Char(c)).0, Key::Backspace) == noop(m),
{
    match m.mode {
        ModeV::Messaging { input, .. } => {
            assert(input.push(c).drop_last() =~= input);
        },
        _ => {},
    }
}

/// On the device list, Enter opens the PIN dialog for the highlighted device,
/// with nothing typed and the Continue button focused; 'd' asks whether to
/// disconnect that device. Neither sends anything or touches the rest of the state.
pub proof fn lemma_device_list_acts_on_highlight(m: ModelV, i: usize)
    requires
        m.mode is DeviceList,
        m.selected == Some(i),
        i < m.devices.len(),
    ensures
        key_step(m, Key::Enter) == noop(
            ModelV {
                mode: ModeV::PinEntry {
                    addr: m.devices[i as int].0,
                    name: m.devices[i as int].2,
                    input: Seq::empty(),
                    button: PinButton::Continue,
                },
                ..m
            },
        ),
        key_step(m, Key::Char('d')) == noop(
            ModelV { mode: ModeV::Confirm { addr: m.devices[i as int].0, name: m.devices[i as int].2 }, ..m },
        ),
{
}

/// On the device list, 'q' quits and changes nothing; 'r' and 'R' log the
/// request, print it and ask the Bluetooth task to refresh.
pub proof fn lemma_device_list_quit_and_refresh(m: ModelV)
    requires
        m.mode is DeviceList,
    ensures
        key_step(m, Key::Char('q')) == (m, seq![ActionV::Quit]),
        key_step(m, Key::Char('r')) == key_step(m, Key::Char('R')),
        key_step(m, Key::Char('r')).1 == seq![
            ActionV::Print("Refresh Device List"@),
            ActionV::SendCommand("refresh"@),
        ],
        key_step(m, Key::Char('r')).0 == (ModelV {
            logs: m.logs.push("Refresh device list requested by user"@),
            ..m
        }),
{
}

/// On the disconnect question, 'y' sends the disconnect command for the
/// device asked about, logs it and returns to the list.
pub proof fn lemma_confirm_yes_disconnects(m: ModelV, addr: Seq<char>, name: Seq<char>)
    requires
        m.mode == (ModeV::Confirm { addr, name }),
    ensures
        key_step(m, Key::Char('y')).1 == seq![ActionV::SendCommand("disconnect "@ + addr)],
        key_step(m, Key::Char('y')).0 == (ModelV {
            mode: ModeV::DeviceList,
            logs: m.logs.push("Disconnect confirmed for "@ + display_name(name, addr)),
            ..m
        }),
{
}

/// In the PIN dialog, a printable character other than 'q' is added to the
/// PIN while it is shorter than `PIN_MAX_BYTES` bytes, and ignored after that;
/// Backspace takes the last one off again.
pub proof fn lemma_pin_typing(
    m: ModelV,
    addr: Seq<char>,
    name: Seq<char>,
    input: Seq<char>,
    button: PinButton,
    c: char,
)
    requires
        m.mode == (ModeV::PinEntry { addr, name, input, button }),
        !is_control(c),
        c != 'q',
    ensures
        utf8_len(input) < PIN_MAX_BYTES ==> key_step(m, Key::Char(c)) == noop(
            ModelV { mode: ModeV::PinEntry { addr, name, input: input.push(c), button }, ..m },
        ),
        utf8_len(input) < PIN_MAX_BYTES ==> key_step(key_step(m, Key::Char(c)).0, Key::Backspace)
            == noop(m),
        utf8_len(input) >= PIN_MAX_BYTES ==> key_step(m, Key::Char(c)) == noop(m),
        input.len() > 0 ==> key_step(m, Key::Backspace) == noop(
            ModelV {
                mode: ModeV::PinEntry { addr, name, input: input.subrange(0, input.len() - 1), button },
                ..m
            },
        ),
        input.len() == 0 ==> key_step(m, Key::Backspace) == noop(m),
{
    assert(input.push(c).drop_last() =~= input);
}

/// In the PIN dialog, Esc, or Enter on the Back button, returns to the list
/// and sends nothing; Enter on Continue with a blank PIN only logs that the
/// PIN cannot be empty; 'q' quits.
pub proof fn lemma_pin_leave_or_refuse(
    m: ModelV,
    addr: Seq<char>,
    name: Seq<char>,
    input: Seq<char>,
    button: PinButton,
)
    requires
        m.mode == (ModeV::PinEntry { addr, name, input, button }),
    ensures
        key_step(m, Key::Esc) == noop(ModelV { mode: ModeV::DeviceList, ..m }),
        button == PinButton::Back ==> key_step(m, Key::Enter) == noop(
            ModelV { mode: ModeV::DeviceList, ..m },
        ),
        button == PinButton::Continue && trim_seq(input).len() == 0 ==> key_step(m, Key::Enter)
            == noop(ModelV { logs: m.logs.push("PIN cannot be empty"@), ..m }),
        key_step(m, Key::Char('q')) == (m, seq![ActionV::Quit]),
{
}

/// In the PIN dialog, Enter on Continue with a PIN that is not blank answers
/// the pairing request with the trimmed PIN, asks to connect to the device,
/// logs it and opens the chat with that device.
pub proof fn lemma_pin_submit(m: ModelV, addr: Seq<char>, name: Seq<char>, input: Seq<char>)
    requires
        m.mode == (ModeV::PinEntry { addr, name, input, button: PinButton::Continue }),
        trim_seq(input).len() != 0,
    ensures
        key_step(m, Key::Enter).1 == seq![
            ActionV::SendPromptResponse(trim_seq(input)),
            ActionV::SendCommand("connect "@ + addr),
        ],
        key_step(m, Key::Enter).0 == (ModelV {
            mode: messaging_start(addr, name),
            logs: m.logs.push("Connecting to "@ + display_name(name, addr)),
            ..m
        }),
{
}

/// On the chat screen: a printable character other than 's' is appended to
/// the message being typed; Enter sends a message that is not blank, adding
/// it under the user's name and clearing the input, and ignores a blank one;
/// Tab moves to the next channel, after the last back to the first; Esc
/// returns to the list.
pub proof fn lemma_chat_keys(
    m: ModelV,
    addr: Seq<char>,
    name: Seq<char>,
    channels: Seq<Seq<char>>,
    selected_channel: usize,
    current_channel: Seq<char>,
    messages: Seq<(Seq<char>, Seq<char>)>,
    input: Seq<char>,
    c: char,
)
    requires
        m.mode == (ModeV::Messaging {
            addr,
            name,
            channels,
            selected_channel,
            current_channel,
            messages,
            input,
        }),
        channels.len() > 0,
        channels.len() <= usize::MAX,
        selected_channel < channels.len(),
    ensures
        !is_control(c) && c != 's' ==> key_step(m, Key::Char(c)) == noop(
            ModelV {
                mode: ModeV::Messaging {
                    addr,
                    name,
                    channels,
                    selected_channel,
                    current_channel,
                    messages,
                    input: input.push(c),
                },
                ..m
            },
        ),
        trim_seq(input).len() != 0 ==> key_step(m, Key::Enter) == noop(
            ModelV {
                mode: ModeV::Messaging {
                    addr,
                    name,
                    channels,
                    selected_channel,
                    current_channel,
                    messages: messages.push((name, input)),
                    input: Seq::empty(),
                },
                ..m
            },
        ),
        trim_seq(input).len() == 0 ==> key_step(m, Key::Enter) == noop(m),
        selected_channel + 1 < channels.len() ==> key_step(m, Key::Tab) == noop(
            ModelV {
                mode: ModeV::Messaging {
                    addr,
                    name,
                    channels,
                    selected_channel: (selected_channel + 1) as usize,
                    current_channel: channels[selected_channel + 1],
                    messages,
                    input,
                },
                ..m
            },
        ),
        selected_channel + 1 == channels.len() ==> key_step(m, Key::Tab) == noop(
            ModelV {
                mode: ModeV::Messaging {
                    addr,
                    name,
                    channels,
                    selected_channel: 0,
                    current_channel: channels[0],
                    messages,
                    input,
                },
                ..m
            },
        ),
        key_step(m, Key::Esc) == noop(ModelV { mode: ModeV::DeviceList, ..m }),
{
    if selected_channel + 1 < channels.len() {
        vstd::arithmetic::div_mod::lemma_small_mod((selected_channel + 1) as nat, channels.len());
        assert((selected_channel + 1) % (channels.len() as int) == selected_channel + 1);
    } else {
        assert((selected_channel + 1) % (channels.len() as int) == 0);
    }
}

/// In the settings, Esc returns to the screen they were opened from and 'q' quits.
pub proof fn lemma_settings_keys(m: ModelV, return_to: ModeV)
    requires
        m.mode == (ModeV::Settings { return_to: Box::new(return_to) }),
    ensures
        key_step(m, Key::Esc) == noop(ModelV { mode: return_to, ..m }),
        key_step(m, Key::Char('q')) == (m, seq![ActionV::Quit]),
{
}

fn line_with_device(lead: &str, name: &str, addr: &str) -> (s: String)
    ensures
        s@ == lead@ + display_name(name@, addr@),
{
    concat2(lead, format_display_name(name, addr).as_str())
}

fn drop_last_char(s: &String) -> (r: String)
    ensures
        s@.len() > 0 ==> r@ == s@.drop_last(),
        s@.len() == 0 ==> r@ == s@,
{
    let v = chars_of(s.as_str());
    if v.len() == 0 {
        return String::new();
    }
    let r = string_of(&v, 0, v.len() - 1);
    assert(r@ =~= s@.drop_last());
    r
}

fn pushed(s: String, c: char) -> (r: String)
    ensures
        r@ == s@.push(c),
{
    let mut s = s;
    push_char(&mut s, c);
    s
}

impl UiModel {
    /// Key on the PIN dialog; the dialog's fields have been taken out of `self.mode`.
    fn on_pin_entry(&mut self, addr: String, name: String, input: String, button: PinButton, key: Key) -> (actions: Vec<UiAction>)
        requires
            old(self).mode@ == ModeV::DeviceList,
        ensures
            ({
                let m = with_mode(
                    old(self)@,
                    ModeV::PinEntry { addr: addr@, name: name@, input: input@, button },
                );
                (final(self)@, actions_view(actions@)) == pin_entry_key(
                    m,
                    addr@,
                    name@,
                    input@,
                    button,
                    key,
                )
            }),
    {
        proof {
            use_type_invariant(&*self);
        }
        let ghost m = with_mode(self@, ModeV::PinEntry { addr: addr@, name: name@, input: input@, button });
        let ghost (av, nv, iv0) = (addr@, name@, input@);
        let mut actions: Vec<UiAction> = Vec::new();
        match key {
            Key::Char(c) => {
                let iv = chars_of(input.as_str());
                if c == 'q' {
                    actions.push(UiAction::Quit);
                    self.mode = UiMode::PinEntry { addr, name, input, button };
                } else if !is_control_char(c) && utf8_len_below(&iv, PIN_MAX_BYTES) {
                    self.mode = UiMode::PinEntry { addr, name, input: pushed(input, c), button };
                } else {
                    self.mode = UiMode::PinEntry { addr, name, input, button };
                }
            },
            Key::Esc => {
                self.mode = UiMode::DeviceList;
            },
            Key::Tab | Key::Right | Key::Left => {
                self.mode = UiMode::PinEntry { addr, name, input, button: toggle(button) };
            },
            Key::Backspace => {
                if input.unicode_len() > 0 {
                    let shorter = drop_last_char(&input);
                    self.mode = UiMode::PinEntry { addr, name, input: shorter, button };
                } else {
                    self.mode = UiMode::PinEntry { addr, name, input, button };
                }
            },
            Key::Enter => {
                if button == PinButton::Back {
                    self.mode = UiMode::DeviceList;
                } else {
                    let pin = trim(input.as_str());
                    if pin.unicode_len() == 0 {
                        self.push_log(String::from_str("PIN cannot be empty"));
                        self.mode = UiMode::PinEntry { addr, name, input, button };
                    } else {
                        self.push_log(line_with_device("Connecting to ", name.as_str(), addr.as_str()));
                        let command = concat2("connect ", addr.as_str());
                        actions.push(UiAction::SendPromptResponse(pin));
                        actions.push(UiAction::SendCommand(command));
                        let channels = vec![String::from_str("public"), String::from_str("private")];
                        let messages = vec![
                            (String::from_str("system"), String::from_str("Welcome to Meshy chat.")),
                        ];
                        self.mode = UiMode::Messaging {
                            addr,
                            name,
                            channels,
                            selected_channel: 0,
                            current_channel: String::from_str("public"),
                            messages,
                            input: String::new(),
                        };
                        assert(strings_view(channels@) =~= seq!["public"@, "private"@]);
                        assert(pairs_view(messages@) =~= seq![("system"@, "Welcome to Meshy chat."@)]);
                        assert(self.mode@ == messaging_start(av, nv));
                    }
                }
            },
            _ => {
                self.mode = UiMode::PinEntry { addr, name, input, button };
            },
        }
        assert(actions_view(actions@) =~= pin_entry_key(m, av, nv, iv0, button, key).1);
        assert(self@ =~= pin_entry_key(m, av, nv, iv0, button, key).0);
        actions
    }

    /// Key on the disconnect confirmation; its fields have been taken out of `self.mode`.
    fn on_confirm(&mut self, addr: String, name: String, key: Key) -> (actions: Vec<UiAction>)
        requires
            old(self).mode@ == ModeV::DeviceList,
        ensures
            ({
                let m = with_mode(old(self)@, ModeV::Confirm { addr: addr@, name: name@ });
                (final(self)@, actions_view(actions@)) == confirm_key(m, addr@, name@, key)
            }),
    {
        proof {
            use_type_invariant(&*self);
        }
        let ghost m = with_mode(self@, ModeV::Confirm { addr: addr@, name: name@ });
        let ghost (av, nv) = (addr@, name@);
        let mut actions: Vec<UiAction> = Vec::new();
        let cancel = match key {
            Key::Char(c) => c == 'n',
            Key::Esc => true,
            _ => false,
        };
        let confirm = match key {
            Key::Char(c) => c == 'y',
            _ => false,
        };
        if confirm {
            self.push_log(line_with_device("Disconnect confirmed for ", name.as_str(), addr.as_str()));
            actions.push(UiAction::SendCommand(concat2("disconnect ", addr.as_str())));
            self.mode = UiMode::DeviceList;
        } else if cancel {
            self.push_log(line_with_device("Disconnect canceled for ", name.as_str(), addr.as_str()));
            self.mode = UiMode::DeviceList;
        } else {
            self.mode = UiMode::Confirm { addr, name };
        }
        assert(actions_view(actions@) =~= confirm_key(m, av, nv, key).1);
        assert(self@ =~= confirm_key(m, av, nv, key).0);
        actions
    }

    /// Key on the chat screen; its fields have been taken out of `self.mode`.
    fn on_messaging(
        &mut self,
        addr: String,
        name: String,
        channels: Vec<String>,
        selected_channel: usize,
        current_channel: String,
        messages: Vec<(String, String)>,
        input: String,
        key: Key,
    ) -> (actions: Vec<UiAction>)
        requires
            old(self).mode@ == ModeV::DeviceList,
            channels@.len() > 0,
            selected_channel < channels@.len(),
        ensures
            ({
                let m = with_mode(
                    old(self)@,
                    ModeV::Messaging {
                        addr: addr@,
                        name: name@,
                        channels: strings_view(channels@),
                        selected_channel,
                        current_channel: current_channel@,
                        messages: pairs_view(messages@),
                        input: input@,
                    },
                );
                (final(self)@, actions_view(actions@)) == messaging_key(
                    m,
                    addr@,
                    name@,
                    strings_view(channels@),
                    selected_channel,
                    current_channel@,
                    pairs_view(messages@),
                    input@,
                    key,
                )
            }),
    {
        proof {
            use_type_invariant(&*self);
        }
        let ghost mv = ModeV::Messaging {
            addr: addr@,
            name: name@,
            channels: strings_view(channels@),
            selected_channel,
            current_channel: current_channel@,
            messages: pairs_view(messages@),
            input: input@,
        };
        let ghost m = with_mode(self@, mv);
        let ghost (av, nv, cv, ccv, msv, iv) = (
            addr@,
            name@,
            strings_view(channels@),
            current_channel@,
            pairs_view(messages@),
            input@,
        );
        let actions: Vec<UiAction> = Vec::new();
        match key {
            Key::Esc => {
                self.mode = UiMode::DeviceList;
            },
            Key::Char(c) => {
                if c == 's' {
                    let back = UiMode::Messaging {
                        addr,
                        name,
                        channels,
                        selected_channel,
                        current_channel,
                        messages,
                        input,
                    };
                    assert(back@ == mv);
                    assert(mode_wf(back@));
                    self.mode = UiMode::Settings { return_to: Box::new(back) };
                } else if !is_control_char(c) {
                    self.mode = UiMode::Messaging {
                        addr,
                        name,
                        channels,
                        selected_channel,
                        current_channel,
                        messages,
                        input: pushed(input, c),
                    };
                } else {
                    self.mode = UiMode::Messaging {
                        addr,
                        name,
                        channels,
                        selected_channel,
                        current_channel,
                        messages,
                        input,
                    };
                }
            },
            Key::Tab => {
                let nch = channels.len();
                let next = (selected_channel + 1) % nch;
                let cur = channels[next].clone();
                assert(cv[next as int] == channels@[next as int]@);
                self.mode = UiMode::Messaging {
                    addr,
                    name,
                    channels,
                    selected_channel: next,
                    current_channel: cur,
                    messages,
                    input,
                };
            },
            Key::Enter => {
                let text = trim(input.as_str());
                if text.unicode_len() != 0 {
                    let mut messages = messages;
                    let ghost (nv2, iv2) = (name@, input@);
                    messages.push((name.clone(), input));
                    assert(pairs_view(messages@) =~= msv.push((nv2, iv2)));
                    self.mode = UiMode::Messaging {
                        addr,
                        name,
                        channels,
                        selected_channel,
                        current_channel,
                        messages,
                        input: String::new(),
                    };
                } else {
                    self.mode = UiMode::Messaging {
                        addr,
                        name,
                        channels,
                        selected_channel,
                        current_channel,
                        messages,
                        input,
                    };
                }
            },
            Key::Backspace => {
                let shorter = if input.unicode_len() > 0 {
                    drop_last_char(&input)
                } else {
                    input
                };
                self.mode = UiMode::Messaging {
                    addr,
                    name,
                    channels,
                    selected_channel,
                    current_channel,
                    messages,
                    input: shorter,
                };
            },
            _ => {
                self.mode = UiMode::Messaging {
                    addr,
                    name,
                    channels,
                    selected_channel,
                    current_channel,
                    messages,
                    input,
                };
            },
        }
        assert(actions_view(actions@) =~= messaging_key(m, av, nv, cv, selected_channel, ccv, msv, iv, key).1);
        assert(self@ =~= messaging_key(m, av, nv, cv, selected_channel, ccv, msv, iv, key).0);
        actions
    }

    /// Key on the settings screen; the screen to return to has been taken out of `self.mode`.
    fn on_settings(&mut self, return_to: UiMode, key: Key) -> (actions: Vec<UiAction>)
        requires
            old(self).mode@ == ModeV::DeviceList,
            mode_wf(return_to@),
        ensures
            ({
                let m = with_mode(
                    old(self)@,
                    ModeV::Settings { return_to: Box::new(return_to@) },
                );
                (final(self)@, actions_view(actions@)) == settings_key(m, return_to@, key)
            }),
    {
        proof {
            use_type_invariant(&*self);
        }
        let ghost rv = return_to@;
        let ghost m = with_mode(self@, ModeV::Settings { return_to: Box::new(rv) });
        let mut actions: Vec<UiAction> = Vec::new();
        match key {
            Key::Esc => {
                self.mode = return_to;
            },
            Key::Char(c) => {
                if c == 'q' {
                    actions.push(UiAction::Quit);
                }
                self.mode = UiMode::Settings { return_to: Box::new(return_to) };
            },
            _ => {
                self.mode = UiMode::Settings { return_to: Box::new(return_to) };
            },
        }
        assert(actions_view(actions@) =~= settings_key(m, rv, key).1);
        assert(self@ =~= settings_key(m, rv, key).0);
        actions
    }

    /// Apply a key press to the current screen; returns what the front end must do, in order.
    pub fn handle_key(&mut self, key: Key) -> (actions: Vec<UiAction>)
        ensures
            (final(self)@, actions_view(actions@)) == key_step(old(self)@, key),
            final(self).wf(),
    {
        let ghost m = self@;
        proof {
            use_type_invariant(&*self);
            lemma_key_step_wf(m, key);
        }
        let mut owned = UiModel::new();
        std::mem::swap(&mut owned, self);
        proof {
            use_type_invariant(&owned);
        }
        let UiModel { devices, selected, mode, connections, logs } = owned;
        *self = UiModel { devices, selected, mode: UiMode::DeviceList, connections, logs };
        assert(m == with_mode(self@, mode@));
        match mode {
            UiMode::DeviceList => self.on_device_list(key),
            UiMode::PinEntry { addr, name, input, button } => self.on_pin_entry(addr, name, input, button, key),
            UiMode::Confirm { addr, name } => self.on_confirm(addr, name, key),
            UiMode::Messaging {
                addr,
                name,
                channels,
                selected_channel,
                current_channel,
                messages,
                input,
            } => self.on_messaging(
                addr,
                name,
                channels,
                selected_channel,
                current_channel,
                messages,
                input,
                key,
            ),
            UiMode::Settings { return_to } => self.on_settings(*return_to, key),
        }
    }

    fn on_device_list(&mut self, key: Key) -> (actions: Vec<UiAction>)
        requires
            old(self).mode@ == ModeV::DeviceList,
        ensures
            (final(self)@, actions_view(actions@)) == device_list_key(old(self)@, key),
    {
        proof {
            use_type_invariant(&*self);
        }
        let ghost m = self@;
        let n = self.devices.len();
        match key {
            Key::Char(c) => {
                if c == 'r' || c == 'R' {
                    self.push_log(String::from_str("Refresh device list requested by user"));
                    let actions = vec![
                        UiAction::Print(String::from_str("Refresh Device List")),
                        UiAction::SendCommand(String::from_str("refresh")),
                    ];
                    assert(actions_view(actions@) =~= seq![
                        ActionV::Print("Refresh Device List"@),
                        ActionV::SendCommand("refresh"@),
                    ]);
                    return actions;
                } else if c == 'd' {
                    if let Some(i) = self.selected {
                        if i < n {
                            let addr = self.devices[i].0.clone();
                            let name = self.devices[i].2.clone();
                            self.mode = UiMode::Confirm { addr, name };
                        }
                    }
                } else if c == 'q' {
                    let actions = vec![UiAction::Quit];
                    assert(actions_view(actions@) =~= seq![ActionV::Quit]);
                    return actions;
                }
            },
            Key::Down => {
                if n > 0 {
                    let s = match self.selected {
                        Some(i) => i,
                        None => 0,
                    };
                    let next = if s < usize::MAX {
                        s + 1
                    } else {
                        s
                    };
                    let last = n - 1;
                    self.selected = Some(
                        if next < last {
                            next
                        } else {
                            last
                        },
                    );
                }
            },
            Key::Up => {
                if n > 0 {
                    let s = match self.selected {
                        Some(i) => i,
                        None => 0,
                    };
                    self.selected = Some(
                        if s > 0 {
                            s - 1
                        } else {
                            0
                        },
                    );
                }
            },
            Key::Enter => {
                if let Some(i) = self.selected {
                    if i < n {
                        let addr = self.devices[i].0.clone();
                        let name = self.devices[i].2.clone();
                        self.mode = UiMode::PinEntry {
                            addr,
                            name,
                            input: String::new(),
                            button: PinButton::Continue,
                        };
                    }
                }
            },
            _ => {},
        }
        let actions: Vec<UiAction> = Vec::new();
        assert(actions_view(actions@) =~= Seq::<ActionV>::empty());
        assert(self@ =~= device_list_key(m, key).0);
        actions
    }
}

} // verus!
