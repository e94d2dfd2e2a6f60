use fbc_host::gui::config::{SlotPosition, TrayPosition};
use fbc_host::gui::fbc::ControllerState;
use fbc_host::gui::terminal::{
    discover_reply, done_reply, fast_pins_no_board, fast_pins_reply, list_reply, pick_board, terminal_help,
};
use fbc_host::gui::terminal::{parse_terminal_command, FastPinsAction, TerminalCommand};

#[test]
fn terminal_simple_commands() {
    assert!(matches!(parse_terminal_command("   "), TerminalCommand::Empty));
    assert!(matches!(parse_terminal_command("help"), TerminalCommand::Help));
    assert!(matches!(parse_terminal_command(" ls "), TerminalCommand::List));
    assert!(matches!(parse_terminal_command("list"), TerminalCommand::List));
    assert!(matches!(parse_terminal_command("discover"), TerminalCommand::Discover));
}

#[test]
fn terminal_board_commands() {
    match parse_terminal_command("status 00:0A:35:00:00:01") {
        TerminalCommand::Status(Some(m)) => assert_eq!(m, "00:0A:35:00:00:01"),
        other => panic!("unexpected {:?}", other),
    }
    assert!(matches!(parse_terminal_command("start"), TerminalCommand::Start(None)));
    assert!(matches!(parse_terminal_command("stop x"), TerminalCommand::Stop(Some(_))));
    assert!(matches!(parse_terminal_command("reset"), TerminalCommand::Reset(None)));
}

#[test]
fn terminal_fast_pins() {
    match parse_terminal_command("fastpins 00:0A:35:00:00:01 set 0xFF 0x0x10") {
        TerminalCommand::FastPins(Some(m), a) => {
            assert_eq!(m, "00:0A:35:00:00:01");
            assert_eq!(a, FastPinsAction::Write { dout: 0xff, oen: 0x10 });
        }
        other => panic!("unexpected {:?}", other),
    }
    assert!(matches!(
        parse_terminal_command("fastpins"),
        TerminalCommand::FastPins(None, FastPinsAction::Read)
    ));
    assert!(matches!(
        parse_terminal_command("fastpins aa:bb set zz 1"),
        TerminalCommand::FastPins(Some(_), FastPinsAction::BadDout)
    ));
    assert!(matches!(
        parse_terminal_command("fastpins aa:bb set 1 q"),
        TerminalCommand::FastPins(Some(_), FastPinsAction::BadOen)
    ));
    assert!(matches!(
        parse_terminal_command("fastpins aa:bb bogus"),
        TerminalCommand::FastPins(Some(_), FastPinsAction::Usage)
    ));
    // Without a MAC address the second word is taken as the board and the
    // command words start at it.
    assert!(matches!(
        parse_terminal_command("fastpins set 1 2"),
        TerminalCommand::FastPins(Some(_), FastPinsAction::Write { dout: 1, oen: 2 })
    ));
}

#[test]
fn terminal_unknown() {
    match parse_terminal_command("frobnicate now") {
        TerminalCommand::Unknown(w) => assert_eq!(w, "frobnicate"),
        other => panic!("unexpected {:?}", other),
    }
}

#[test]
fn terminal_replies() {
    assert!(terminal_help().starts_with("FBC System Terminal Commands:\n\n  help              - Show this help\n"));
    assert!(terminal_help().ends_with("  start 00:0A:35:00:01:02\n"));
    let r = |line: &str| done_reply(&parse_terminal_command(line), "00:0A:35:00:01:02");
    assert_eq!(r("start"), Some("Started 00:0A:35:00:01:02".to_string()));
    assert_eq!(r("stop x"), Some("Stopped 00:0A:35:00:01:02".to_string()));
    assert_eq!(r("reset"), Some("Reset 00:0A:35:00:01:02".to_string()));
    assert_eq!(r("bogus 1"), Some("Unknown command: bogus. Type 'help' for commands.".to_string()));
    assert_eq!(r(""), Some(String::new()));
    assert_eq!(r("fastpins set 0xFF 0x0F"), Some("Set fast pins for 00:0A:35:00:01:02".to_string()));
    assert_eq!(r("fastpins set zz 1"), Some("Error: Invalid DOUT hex value".to_string()));
    assert_eq!(r("fastpins set 1 zz"), Some("Error: Invalid OEN hex value".to_string()));
    assert_eq!(r("fastpins what"), Some("Usage: fastpins [mac] [set <dout_hex> <oen_hex>]".to_string()));
    assert_eq!(r("fastpins"), None);
    assert_eq!(r("list"), None);
    assert_eq!(discover_reply(3), "Discovered 3 board(s)");
    assert_eq!(fast_pins_reply(0xFF, 0x0F, 0xDEADBEEF), "Fast Pins (Bank 35):\n  DOUT: 0x000000FF\n  OEN:  0x0000000F\n  DIN:  0xDEADBEEF");
    assert_eq!(fast_pins_no_board(), "No board selected. Usage: fastpins [mac] [set <dout> <oen>]");
    let none: Vec<String> = vec![];
    assert_eq!(pick_board("status", &None, &none).unwrap_err(), "No boards discovered. Run 'discover' first.");
    let two = vec!["A".to_string(), "B".to_string()];
    assert_eq!(pick_board("status", &None, &two).unwrap_err(), "Multiple boards found. Specify MAC: status <mac>");
    assert_eq!(pick_board("status", &Some("C".to_string()), &two).unwrap(), "C");
    assert_eq!(pick_board("start", &None, &vec!["A".to_string()]).unwrap(), "A");
}

#[test]
fn terminal_list_reply() {
    assert_eq!(list_reply(&vec![]), "No boards discovered. Run 'discover' first.");
    let rows = vec![
        ("00:0A:35:00:01:02".to_string(), ControllerState::Running, Some(SlotPosition { shelf: 2, tray: TrayPosition::Back, slot: 5 })),
        ("AA".to_string(), ControllerState::Idle, None),
    ];
    let expected = format!(
        "MAC Address        State    Position\n{}\n{:<18} {:<8} {}\n{:<18} {:<8} {}\n",
        "─".repeat(45),
        "00:0A:35:00:01:02",
        "Running",
        "2-B5",
        "AA",
        "Idle",
        "?"
    );
    assert_eq!(list_reply(&rows), expected);
}
