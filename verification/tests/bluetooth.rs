use meshy::bluetooth::agent::{
    passkey_from_answer, passkey_or_zero, pin_from_answer, prompt_line, prompt_text, PromptKind,
};
use meshy::bluetooth::connection::{
    after_pair_attempt, missing_characteristics_line, subscribing_line, PairStep,
    attempting_connect_line, attempting_disconnect_line, paired_line, pairing_failed_line,
    characteristic_role, connected_lines, describe_notification, disconnected_line, is_nus_service,
    locate_nus, CharRole, NUS_RX, NUS_SERVICE, NUS_TX,
};
use meshy::bluetooth::{
    device_line, device_missing_lines, discovered_line, format_address, operation_failed_lines,
    parse_command, plan_command, plan_request, scanning_line, Command, Op, Plan,
};

const ADDR: [u8; 6] = [0xAA, 0xBB, 0xCC, 0xDD, 0xEE, 0xFF];

#[test]
fn address_is_written_in_upper_case_hex() {
    assert_eq!(format_address(ADDR), "AA:BB:CC:DD:EE:FF");
    assert_eq!(format_address([0x00, 0x0a, 0x10, 0x9f, 0x01, 0xf0]), "00:0A:10:9F:01:F0");
}

#[test]
fn commands_are_read() {
    assert_eq!(parse_command("refresh"), Command::Refresh);
    assert_eq!(parse_command("connect AA:BB:CC:DD:EE:FF"), Command::Connect("AA:BB:CC:DD:EE:FF".into()));
    assert_eq!(parse_command("connect connect  x "), Command::Connect("x".into()));
    assert_eq!(parse_command("disconnect 11:22:33:44:55:66\t"), Command::Disconnect("11:22:33:44:55:66".into()));
    assert_eq!(parse_command("refresh "), Command::Other("refresh ".into()));
    assert_eq!(parse_command("connect"), Command::Other("connect".into()));
}

#[test]
fn connect_command_starts_connection() {
    match plan_command("connect AA:BB:CC:DD:EE:FF") {
        Plan::Start { op, addr, notice } => {
            assert_eq!(op, Op::Connect);
            assert_eq!(addr, ADDR);
            assert_eq!(notice, "UI requested connect to AA:BB:CC:DD:EE:FF");
        }
        other => panic!("unexpected plan {:?}", other),
    }
    match plan_command("disconnect aa:bb:cc:dd:ee:ff") {
        Plan::Start { op, addr, notice } => {
            assert_eq!(op, Op::Disconnect);
            assert_eq!(addr, ADDR);
            assert_eq!(notice, "UI requested disconnect from AA:BB:CC:DD:EE:FF");
        }
        other => panic!("unexpected plan {:?}", other),
    }
}

#[test]
fn bad_address_is_reported() {
    assert_eq!(
        plan_command("connect AA:BB"),
        Plan::Reply(vec!["CONN_FAIL:Invalid address: AA:BB".into(), "Invalid address: AA:BB".into()])
    );
    assert_eq!(
        plan_command("disconnect zz:bb:cc:dd:ee:ff"),
        Plan::Reply(vec![
            "DISCONN_FAIL:Invalid address: zz:bb:cc:dd:ee:ff".into(),
            "Invalid address: zz:bb:cc:dd:ee:ff".into()
        ])
    );
}

#[test]
fn other_commands_are_echoed() {
    assert_eq!(plan_command("refresh"), Plan::Rescan);
    assert_eq!(plan_command("hello"), Plan::Reply(vec!["Received UI command: hello".into()]));
    assert_eq!(
        plan_request(&Command::Connect("x".into()), Some([1, 2, 3, 4, 5, 6])),
        Plan::Start { op: Op::Connect, addr: [1, 2, 3, 4, 5, 6], notice: "UI requested connect to 01:02:03:04:05:06".into() }
    );
}

#[test]
fn lines_for_the_ui() {
    assert_eq!(device_line(ADDR, "MeshCore-1"), "DEVICE:AA:BB:CC:DD:EE:FF|MeshCore-1");
    assert_eq!(discovered_line(ADDR, "MeshCore-1"), "LOG:Discovered device MeshCore-1 (AA:BB:CC:DD:EE:FF)");
    assert_eq!(
        device_missing_lines(Op::Connect, ADDR),
        vec!["CONN_FAIL:Device AA:BB:CC:DD:EE:FF not found on adapter", "Device AA:BB:CC:DD:EE:FF not found on adapter"]
    );
    assert_eq!(
        operation_failed_lines(Op::Disconnect, "timeout"),
        vec!["DISCONN_FAIL:timeout", "Disconnect failed: timeout"]
    );
    assert_eq!(
        operation_failed_lines(Op::Connect, "busy"),
        vec!["CONN_FAIL:busy", "Connect failed: busy"]
    );
    assert_eq!(connected_lines(ADDR), vec!["CONN:Connected to AA:BB:CC:DD:EE:FF", "Connected to AA:BB:CC:DD:EE:FF"]);
    assert_eq!(disconnected_line(ADDR), "DISCONN:Disconnected from AA:BB:CC:DD:EE:FF");
}

#[test]
fn uart_service_roles() {
    assert!(is_nus_service(NUS_SERVICE));
    assert!(!is_nus_service(NUS_RX));
    assert_eq!(characteristic_role(NUS_RX), CharRole::Rx);
    assert_eq!(characteristic_role(NUS_TX), CharRole::Tx);
    assert_eq!(characteristic_role(0x2A00), CharRole::Other);
    assert_eq!(NUS_SERVICE, 0x6E400001_B5A3_F393_E0A9_E50E24DCCA9E);
}

#[test]
fn uart_characteristics_are_found() {
    let services = vec![
        (0x1800, vec![NUS_RX, NUS_TX]),
        (NUS_SERVICE, vec![0x2A00, NUS_TX, NUS_RX]),
        (NUS_SERVICE, vec![NUS_RX]),
    ];
    let pair = locate_nus(&services);
    assert_eq!(pair.rx, Some((2, 0)));
    assert_eq!(pair.tx, Some((1, 1)));
    let none = locate_nus(&vec![(0x1800, vec![NUS_RX])]);
    assert_eq!(none.rx, None);
    assert_eq!(none.tx, None);
}

#[test]
fn notifications_are_described() {
    assert_eq!(describe_notification(b"hello\r\n"), "RX text: hello\r\n");
    assert_eq!(describe_notification("héllo".as_bytes()), "RX text: héllo");
    assert_eq!(describe_notification(&[0x00, 0xFF, 0x41]), "RX binary: 00 FF 41 ");
    assert_eq!(describe_notification(b"a\tb"), "RX binary: 61 09 62 ");
    assert_eq!(describe_notification(&[]), "RX text: ");
}

#[test]
fn passkeys_are_read() {
    assert_eq!(passkey_from_answer(" 123456\n"), Some(123456));
    assert_eq!(passkey_from_answer("+42"), Some(42));
    assert_eq!(passkey_from_answer("4294967295"), Some(u32::MAX));
    assert_eq!(passkey_from_answer("4294967296"), None);
    assert_eq!(passkey_from_answer("12a"), None);
    assert_eq!(passkey_from_answer(""), None);
    assert_eq!(passkey_from_answer("+"), None);
    assert_eq!(passkey_from_answer("-1"), None);
    assert_eq!(passkey_or_zero("abc"), 0);
    assert_eq!(passkey_or_zero("007"), 7);
    let n: u32 = 987654;
    assert_eq!(passkey_from_answer(&n.to_string()), Some(n));
}

#[test]
fn prompts_are_forwarded() {
    assert_eq!(pin_from_answer("  1234 \n"), "1234");
    assert_eq!(prompt_text(PromptKind::Pin, "dev"), "Device dev is requesting a PIN.");
    assert_eq!(prompt_text(PromptKind::Passkey, "dev"), "Device dev is requesting a Passkey (numeric PIN).");
    assert_eq!(prompt_line("Enter code"), "PROMPT:Enter code");
}

#[test]
fn progress_lines() {
    assert_eq!(attempting_connect_line(ADDR), "Attempting pair/connect to AA:BB:CC:DD:EE:FF");
    assert_eq!(attempting_disconnect_line(ADDR), "Attempting disconnect from AA:BB:CC:DD:EE:FF");
    assert_eq!(paired_line(ADDR, 1), "Paired AA:BB:CC:DD:EE:FF after 1 attempts");
    assert_eq!(paired_line(ADDR, 120), "Paired AA:BB:CC:DD:EE:FF after 120 attempts");
    assert_eq!(pairing_failed_line(0, "e"), "Pairing attempt 0 failed: e");
    assert_eq!(pairing_failed_line(u64::MAX, "x"), format!("Pairing attempt {} failed: x", u64::MAX));
    assert_eq!(scanning_line("hci0"), "STATUS:Scanning on adapter hci0");
}

#[test]
fn written_addresses_are_read_back() {
    for a in [ADDR, [0, 0, 0, 0, 0, 0], [0x01, 0x23, 0x45, 0x67, 0x89, 0xAB], [0xFF; 6]] {
        let text = format_address(a);
        match plan_command(&format!("connect {}", text)) {
            Plan::Start { op, addr, .. } => {
                assert_eq!(op, Op::Connect);
                assert_eq!(addr, a);
            }
            other => panic!("unexpected plan {:?}", other),
        }
        match plan_command(&format!("disconnect {}", text)) {
            Plan::Start { op, addr, .. } => {
                assert_eq!(op, Op::Disconnect);
                assert_eq!(addr, a);
            }
            other => panic!("unexpected plan {:?}", other),
        }
    }
    // a field may carry a `+` and leading zeros; a seventh field or an empty one is refused
    match plan_command("connect +aa:0bb:cc:dd:ee:ff") {
        Plan::Start { addr, .. } => assert_eq!(addr, ADDR),
        other => panic!("unexpected plan {:?}", other),
    }
    assert!(matches!(plan_command("connect AA:BB:CC:DD:EE:FF:00"), Plan::Reply(_)));
    assert!(matches!(plan_command("connect AA::CC:DD:EE:FF"), Plan::Reply(_)));
    assert!(matches!(plan_command("connect AA:BB:CC:DD:EE:100"), Plan::Reply(_)));
}

#[test]
fn pairing_is_retried_until_it_succeeds() {
    let (step, line) = after_pair_attempt(ADDR, 1, Some("Page Timeout"));
    assert_eq!(step, PairStep::Retry { next_attempt: 2, wait_secs: 2 });
    assert_eq!(line, "Pairing attempt 1 failed: Page Timeout");
    let (step, line) = after_pair_attempt(ADDR, 2, None);
    assert_eq!(step, PairStep::Paired);
    assert_eq!(line, "Paired AA:BB:CC:DD:EE:FF after 2 attempts");
    let (step, _) = after_pair_attempt(ADDR, u64::MAX, Some("again"));
    assert_eq!(step, PairStep::Retry { next_attempt: u64::MAX, wait_secs: 2 });
}

#[test]
fn subscription_lines() {
    assert_eq!(subscribing_line(), "Subscribing to TX notifications (connected)");
    assert_eq!(missing_characteristics_line(), "Could not find both RX and TX characteristics on this device.");
}
