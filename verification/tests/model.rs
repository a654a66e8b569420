use meshy::bluetooth::connection::{connected_lines, disconnected_line};
use meshy::bluetooth::device_line;
use meshy::ui::chat::{messages_text, messaging_header};
use meshy::ui::device_list::{confirm_area, confirm_text, device_rows, log_rows};
use meshy::ui::model::{Key, UiAction, UiMode, UiModel, LOG_CAPACITY};
use meshy::ui::pin_entry::{centered_rect, pin_title, toggle, PinButton, Rect};

const ADDR: [u8; 6] = [0xAA, 0xBB, 0xCC, 0xDD, 0xEE, 0xFF];

fn with_device() -> UiModel {
    let mut m = UiModel::new();
    assert_eq!(m.handle_message(device_line(ADDR, "MeshCore-1")), None);
    m
}

#[test]
fn new_model_starts_on_the_device_list() {
    let m = UiModel::new();
    assert_eq!(*m.mode(), UiMode::DeviceList);
    assert_eq!(m.selected(), Some(0));
    assert!(m.devices().is_empty() && m.logs().is_empty() && m.connections().is_empty());
}

#[test]
fn device_lines_fill_the_list() {
    let mut m = with_device();
    assert_eq!(m.devices().len(), 1);
    assert_eq!(m.devices()[0].0, "AA:BB:CC:DD:EE:FF");
    assert_eq!(m.devices()[0].2, "MeshCore-1 (AA:BB:CC:DD:EE:FF)");
    assert_eq!(*m.logs(), vec!["Added device MeshCore-1 (AA:BB:CC:DD:EE:FF)"]);
    // a repeated announcement is ignored
    m.handle_message("DEVICE:AA:BB:CC:DD:EE:FF|Other".into());
    assert_eq!(m.devices().len(), 1);
    assert_eq!(m.logs().len(), 1);
    // a name may hold further bars; a line without one is dropped
    m.handle_message("DEVICE:11|a|b".into());
    assert_eq!(m.devices()[1].1, "a|b");
    m.handle_message("DEVICE:nobar".into());
    assert_eq!(m.devices().len(), 2);
}

#[test]
fn prompt_lines_are_handed_back() {
    let mut m = UiModel::new();
    assert_eq!(m.handle_message("PROMPT:Enter PIN".into()), Some("Enter PIN".to_string()));
    assert!(m.logs().is_empty());
    let answer = m.answer_prompt("Enter PIN", "  1234\n");
    assert_eq!(answer, "1234");
    assert_eq!(*m.logs(), vec!["Answered prompt: Enter PIN"]);
}

#[test]
fn connection_lines_update_the_status() {
    let mut m = with_device();
    assert_eq!(m.connection_status(), None);
    for line in connected_lines(ADDR) {
        m.handle_message(line);
    }
    assert_eq!(m.connection_status(), Some("Connected".to_string()));
    assert_eq!(m.logs()[1], "Connected to AA:BB:CC:DD:EE:FF");
    m.handle_message(disconnected_line(ADDR));
    assert_eq!(m.connection_status(), None);
    m.handle_message("CONN_FAIL:Device AA:BB:CC:DD:EE:FF not found on adapter".into());
    assert_eq!(m.connection_status(), Some("Connection failed".to_string()));
    assert_eq!(m.logs().last().unwrap(), "Connection failed: Device AA:BB:CC:DD:EE:FF not found on adapter");
    m.handle_message("DISCONN_FAIL:Device AA:BB:CC:DD:EE:FF not found on adapter".into());
    assert_eq!(m.connection_status(), Some("Disconnect failed".to_string()));
    assert_eq!(m.connections().len(), 1);
    m.handle_message("CONN_FAIL:Invalid address: x".into());
    assert_eq!(m.connections().len(), 1);
}

#[test]
fn other_lines_are_logged() {
    let mut m = UiModel::new();
    m.handle_message("STATUS:Scanning on adapter hci0".into());
    m.handle_message("LOG:hello".into());
    m.handle_message("plain".into());
    assert_eq!(*m.logs(), vec!["Scanning on adapter hci0", "hello", "plain"]);
}

#[test]
fn log_keeps_the_newest_lines() {
    let mut m = UiModel::new();
    for i in 0..(LOG_CAPACITY + 5) {
        m.handle_message(format!("LOG:{}", i));
    }
    assert_eq!(m.logs().len(), LOG_CAPACITY);
    assert_eq!(m.logs()[0], "5");
    assert_eq!(m.logs()[LOG_CAPACITY - 1], format!("{}", LOG_CAPACITY + 4));
}

#[test]
fn highlight_moves_within_the_list() {
    let mut m = with_device();
    m.handle_message("DEVICE:11:22:33:44:55:66|MeshCore-2".into());
    assert!(m.handle_key(Key::Down).is_empty());
    assert_eq!(m.selected(), Some(1));
    m.handle_key(Key::Down);
    assert_eq!(m.selected(), Some(1));
    m.handle_key(Key::Up);
    m.handle_key(Key::Up);
    assert_eq!(m.selected(), Some(0));
    let mut empty = UiModel::new();
    empty.handle_key(Key::Down);
    assert_eq!(empty.selected(), Some(0));
}

#[test]
fn refresh_and_quit_keys() {
    let mut m = UiModel::new();
    assert_eq!(
        m.handle_key(Key::Char('r')),
        vec![UiAction::Print("Refresh Device List".into()), UiAction::SendCommand("refresh".into())]
    );
    assert_eq!(*m.logs(), vec!["Refresh device list requested by user"]);
    assert_eq!(m.handle_key(Key::Char('q')), vec![UiAction::Quit]);
    assert_eq!(m.handle_key(Key::Char('x')), vec![]);
}

#[test]
fn entering_a_pin_connects() {
    let mut m = with_device();
    m.handle_key(Key::Enter);
    assert_eq!(
        *m.mode(),
        UiMode::PinEntry {
            addr: "AA:BB:CC:DD:EE:FF".into(),
            name: "MeshCore-1 (AA:BB:CC:DD:EE:FF)".into(),
            input: String::new(),
            button: PinButton::Continue,
        }
    );
    // an empty PIN is refused
    assert!(m.handle_key(Key::Enter).is_empty());
    assert_eq!(m.logs().last().unwrap(), "PIN cannot be empty");
    for c in "12x".chars() {
        m.handle_key(Key::Char(c));
    }
    m.handle_key(Key::Backspace);
    m.handle_key(Key::Char('\u{7}'));
    let actions = m.handle_key(Key::Enter);
    assert_eq!(
        actions,
        vec![
            UiAction::SendPromptResponse("12".into()),
            UiAction::SendCommand("connect AA:BB:CC:DD:EE:FF".into()),
        ]
    );
    assert_eq!(m.logs().last().unwrap(), "Connecting to MeshCore-1 (AA:BB:CC:DD:EE:FF) (AA:BB:CC:DD:EE:FF)");
    match m.mode() {
        UiMode::Messaging { channels, selected_channel, current_channel, messages, input, .. } => {
            assert_eq!(channels, &vec!["public".to_string(), "private".to_string()]);
            assert_eq!(*selected_channel, 0);
            assert_eq!(current_channel, "public");
            assert_eq!(messages, &vec![("system".to_string(), "Welcome to Meshy chat.".to_string())]);
            assert!(input.is_empty());
        }
        other => panic!("unexpected mode {:?}", other),
    }
}

#[test]
fn pin_is_limited_to_32_bytes() {
    let mut m = with_device();
    m.handle_key(Key::Enter);
    for _ in 0..40 {
        m.handle_key(Key::Char('7'));
    }
    match m.mode() {
        UiMode::PinEntry { input, .. } => assert_eq!(input.len(), 32),
        other => panic!("unexpected mode {:?}", other),
    }
    // a two-byte character still fits when fewer than 32 bytes are used
    let mut m = with_device();
    m.handle_key(Key::Enter);
    for _ in 0..31 {
        m.handle_key(Key::Char('1'));
    }
    m.handle_key(Key::Char('é'));
    m.handle_key(Key::Char('1'));
    match m.mode() {
        UiMode::PinEntry { input, .. } => assert_eq!(input.len(), 33),
        other => panic!("unexpected mode {:?}", other),
    }
}

#[test]
fn pin_dialog_buttons_and_escape() {
    let mut m = with_device();
    m.handle_key(Key::Enter);
    m.handle_key(Key::Tab);
    match m.mode() {
        UiMode::PinEntry { button, .. } => assert_eq!(*button, PinButton::Back),
        other => panic!("unexpected mode {:?}", other),
    }
    m.handle_key(Key::Right);
    m.handle_key(Key::Left);
    m.handle_key(Key::Enter);
    assert_eq!(*m.mode(), UiMode::DeviceList);
    m.handle_key(Key::Enter);
    m.handle_key(Key::Esc);
    assert_eq!(*m.mode(), UiMode::DeviceList);
    m.handle_key(Key::Enter);
    assert_eq!(m.handle_key(Key::Char('q')), vec![UiAction::Quit]);
    assert_eq!(toggle(toggle(PinButton::Back)), PinButton::Back);
}

#[test]
fn disconnect_needs_confirmation() {
    let mut m = with_device();
    m.handle_key(Key::Char('d'));
    assert_eq!(
        *m.mode(),
        UiMode::Confirm { addr: "AA:BB:CC:DD:EE:FF".into(), name: "MeshCore-1 (AA:BB:CC:DD:EE:FF)".into() }
    );
    assert_eq!(m.handle_key(Key::Char('y')), vec![UiAction::SendCommand("disconnect AA:BB:CC:DD:EE:FF".into())]);
    assert_eq!(*m.mode(), UiMode::DeviceList);
    m.handle_key(Key::Char('d'));
    assert!(m.handle_key(Key::Esc).is_empty());
    assert_eq!(*m.mode(), UiMode::DeviceList);
    assert_eq!(
        m.logs()[m.logs().len() - 2..],
        ["Disconnect confirmed for MeshCore-1 (AA:BB:CC:DD:EE:FF) (AA:BB:CC:DD:EE:FF)".to_string(),
         "Disconnect canceled for MeshCore-1 (AA:BB:CC:DD:EE:FF) (AA:BB:CC:DD:EE:FF)".to_string()]
    );
}

fn chatting() -> UiModel {
    let mut m = with_device();
    m.handle_key(Key::Enter);
    m.handle_key(Key::Char('1'));
    m.handle_key(Key::Enter);
    m
}

#[test]
fn chat_keys() {
    let mut m = chatting();
    for c in "hi".chars() {
        m.handle_key(Key::Char(c));
    }
    m.handle_key(Key::Enter);
    m.handle_key(Key::Tab);
    match m.mode() {
        UiMode::Messaging { selected_channel, current_channel, messages, input, name, .. } => {
            assert_eq!(*selected_channel, 1);
            assert_eq!(current_channel, "private");
            assert_eq!(messages.last().unwrap(), &(name.clone(), "hi".to_string()));
            assert!(input.is_empty());
        }
        other => panic!("unexpected mode {:?}", other),
    }
    m.handle_key(Key::Tab);
    match m.mode() {
        UiMode::Messaging { selected_channel, current_channel, .. } => {
            assert_eq!(*selected_channel, 0);
            assert_eq!(current_channel, "public");
        }
        other => panic!("unexpected mode {:?}", other),
    }
    m.handle_key(Key::Esc);
    assert_eq!(*m.mode(), UiMode::DeviceList);
}

#[test]
fn settings_return_to_the_same_chat() {
    let mut m = chatting();
    m.handle_key(Key::Char('x'));
    let before = format!("{:?}", *m.mode());
    m.handle_key(Key::Char('s'));
    assert!(matches!(*m.mode(), UiMode::Settings { .. }));
    assert!(m.handle_key(Key::Char('z')).is_empty());
    m.handle_key(Key::Esc);
    assert_eq!(format!("{:?}", *m.mode()), before);
    m.handle_key(Key::Char('s'));
    assert_eq!(m.handle_key(Key::Char('q')), vec![UiAction::Quit]);
}

#[test]
fn screen_texts() {
    let m = with_device();
    assert_eq!(device_rows(m.devices()), vec!["MeshCore-1 (AA:BB:CC:DD:EE:FF)"]);
    assert_eq!(device_rows(&Vec::new()), vec!["No MeshCore devices discovered yet"]);
    assert_eq!(log_rows(&vec!["a".to_string(), "b".to_string()]), vec!["b", "a"]);
    assert_eq!(confirm_text("n", "a"), "Disconnect n (a)? (y/n)");
    assert_eq!(pin_title("n", "a"), "Enter PIN for n (a)");
    assert_eq!(messaging_header("n", "a", "public"), "Connected to n (a) | Channel: public");
    assert_eq!(
        messages_text(&vec![("system".into(), "hi".into()), ("me".into(), "yo".into())]),
        "system: hi\nme: yo"
    );
    assert_eq!(messages_text(&Vec::new()), "");
}

#[test]
fn dialog_areas() {
    let area = Rect { x: 0, y: 0, width: 100, height: 40 };
    assert_eq!(centered_rect(60, 50, area), Rect { x: 20, y: 10, width: 60, height: 20 });
    // odd percentages: the sides take half of what is left each, the rest stays free
    assert_eq!(centered_rect(61, 51, area), Rect { x: 19, y: 10, width: 61, height: 20 });
    let offset = Rect { x: 5, y: 3, width: 30, height: 9 };
    let c = centered_rect(33, 77, offset);
    assert!(c.x >= 5 && c.x + c.width <= 35 && c.y >= 3 && c.y + c.height <= 12);
    assert_eq!(c, Rect { x: 15, y: 4, width: 10, height: 7 });
    assert_eq!(confirm_area(area), Rect { x: 25, y: 17, width: 50, height: 5 });
    assert_eq!(confirm_area(Rect { x: 0, y: 0, width: 10, height: 3 }), Rect { x: 0, y: 0, width: 20, height: 5 });
}

#[test]
fn device_list_is_the_fold_of_device_lines() {
    let mut m = UiModel::new();
    m.handle_message("DEVICE:A|one".into());
    m.handle_key(Key::Down);
    m.handle_message("DEVICE:B|two|x".into());
    m.handle_message("LOG:DEVICE:C|three".into());
    m.handle_key(Key::Char('r'));
    m.handle_message("DEVICE:A|again".into());
    m.handle_message("DEVICE:D".into());
    m.handle_message("DEVICE:E|".into());
    let listed: Vec<(String, String)> = m.devices().iter().map(|d| (d.0.clone(), d.1.clone())).collect();
    assert_eq!(
        listed,
        vec![("A".into(), "one".into()), ("B".into(), "two|x".into()), ("E".into(), "".into())]
    );
}
