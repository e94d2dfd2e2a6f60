//! The front end's terminal: which command a typed line asks for, and
//! with which arguments. Running the command against the boards, and
//! picking the board when no MAC address is given, is the caller's.

use vstd::prelude::*;
use crate::text::{
    chars_of, dec_chars, eq_str, parse_uint_radix, push_decimal, push_str, split_words, string_from_chars, uint_parse,
    words,
};
use crate::gui::config::{SlotPosition, TrayPosition};
use crate::gui::fbc::ControllerState;
use crate::sonoma::{hex8_upper, push_hex8_upper};

verus! {

/// What a `fastpins` line asks for.
#[derive(Clone, Copy, Debug, PartialEq, Eq, Structural)]
pub enum FastPinsAction {
    /// Read the fast pins.
    Read,
    /// Drive the pins with these output and output-enable words.
    Write { dout: u32, oen: u32 },
    /// The output word is no hex number.
    BadDout,
    /// The output-enable word is no hex number.
    BadOen,
    /// Anything else after the board: show the usage.
    Usage,
}

/// A terminal line, read. A MAC argument of `None` means that none was
/// typed, so the caller picks the board.
#[derive(Debug)]
pub enum TerminalCommand {
    /// A blank line.
    Empty,
    Help,
    List,
    Discover,
    Status(Option<String>),
    Start(Option<String>),
    Stop(Option<String>),
    Reset(Option<String>),
    FastPins(Option<String>, FastPinsAction),
    /// The first word is no command.
    Unknown(String),
}

/// The text of an optional string.
pub open spec fn opt_text(m: Option<String>) -> Option<Seq<char>> {
    match m {
        Some(s) => Some(s@),
        None => None,
    }
}

/// The second word, when there is one.
pub open spec fn mac_arg(w: Seq<Seq<char>>) -> Option<Seq<char>> {
    if w.len() > 1 {
        Some(w[1])
    } else {
        None
    }
}

/// Text without every leading `0x`.
pub open spec fn strip_hex_prefixes(s: Seq<char>) -> Seq<char>
    decreases s.len(),
{
    if s.len() >= 2 && s[0] == '0' && s[1] == 'x' {
        strip_hex_prefixes(s.skip(2))
    } else {
        s
    }
}

/// A hex word of a `fastpins set` line, as `u32::from_str_radix` reads it
/// once every leading `0x` is gone.
pub open spec fn hex_word(s: Seq<char>) -> Option<int> {
    match uint_parse(strip_hex_prefixes(s), 16, u32::MAX as int) {
        Ok(x) => Some(x),
        Err(_) => None,
    }
}

/// What the words after the board ask of the fast pins.
pub open spec fn fast_pins_action_of(rest: Seq<Seq<char>>) -> FastPinsAction {
    if rest.len() == 0 {
        FastPinsAction::Read
    } else if rest.len() >= 3 && rest[0] == "set"@ {
        match hex_word(rest[1]) {
            None => FastPinsAction::BadDout,
            Some(d) => match hex_word(rest[2]) {
                None => FastPinsAction::BadOen,
                Some(o) => FastPinsAction::Write { dout: d as u32, oen: o as u32 },
            },
        }
    } else {
        FastPinsAction::Usage
    }
}

/// Where the words after the board start on a `fastpins` line: after the
/// second word when it has a colon (a MAC address), else after the first.
pub open spec fn fast_pins_offset(w: Seq<Seq<char>>) -> int {
    if w.len() >= 2 && w[1].contains(':') {
        2
    } else {
        1
    }
}

/// A command that acts on one board, with its optional MAC argument.
pub open spec fn board_command(r: TerminalCommand, name: Seq<char>, mac: Option<Seq<char>>) -> bool {
    if name == "status"@ {
        r matches TerminalCommand::Status(m) && opt_text(m) == mac
    } else if name == "start"@ {
        r matches TerminalCommand::Start(m) && opt_text(m) == mac
    } else if name == "stop"@ {
        r matches TerminalCommand::Stop(m) && opt_text(m) == mac
    } else {
        r matches TerminalCommand::Reset(m) && opt_text(m) == mac
    }
}

/// Whether `r` is what the words of a terminal line ask for.
pub open spec fn command_of(w: Seq<Seq<char>>, r: TerminalCommand) -> bool {
    if w.len() == 0 {
        r is Empty
    } else if w[0] == "help"@ {
        r is Help
    } else if w[0] == "list"@ || w[0] == "ls"@ {
        r is List
    } else if w[0] == "discover"@ {
        r is Discover
    } else if w[0] == "status"@ || w[0] == "start"@ || w[0] == "stop"@ || w[0] == "reset"@ {
        board_command(r, w[0], mac_arg(w))
    } else if w[0] == "fastpins"@ {
        r matches TerminalCommand::FastPins(m, a) && opt_text(m) == mac_arg(w) && a
            == fast_pins_action_of(w.skip(fast_pins_offset(w)))
    } else {
        r matches TerminalCommand::Unknown(u) && u@ == w[0]
    }
}

fn text_of_chars(v: &Vec<char>) -> (r: String)
    ensures
        r@ == v@,
{
    string_from_chars(v.as_slice())
}

fn mac_arg_text(w: &Vec<Vec<char>>) -> (r: Option<String>)
    ensures
        w@.len() > 1 ==> (r matches Some(s) && s@ == w@[1]@),
        w@.len() <= 1 ==> r is None,
{
    if w.len() > 1 {
        Some(text_of_chars(&w[1]))
    } else {
        None
    }
}

/// Parse a hex word: every leading `0x` is dropped first.
fn parse_hex_word(v: &Vec<char>) -> (r: Option<u32>)
    ensures
        match hex_word(v@) {
            Some(x) => r == Some(x as u32),
            None => r is None,
        },
{
    let mut start: usize = 0;
    assert(v@.skip(0) =~= v@);
    while v.len() - start >= 2 && v[start] == '0' && v[start + 1] == 'x'
        invariant
            start <= v@.len(),
            strip_hex_prefixes(v@) == strip_hex_prefixes(v@.skip(start as int)),
        decreases v.len() - start,
    {
        assert(v@.skip(start as int).skip(2) =~= v@.skip(start + 2));
        start = start + 2;
    }
    let mut rest: Vec<char> = Vec::new();
    let mut i = start;
    while i < v.len()
        invariant
            start <= i <= v@.len(),
            rest@ == v@.subrange(start as int, i as int),
        decreases v.len() - i,
    {
        rest.push(v[i]);
        i = i + 1;
    }
    assert(rest@ =~= v@.skip(start as int));
    assert(strip_hex_prefixes(rest@) == rest@);
    match parse_uint_radix(rest.as_slice(), 16, 0xffff_ffff) {
        Ok(x) => Some(x as u32),
        Err(_) => None,
    }
}

/// Read a terminal line: its first word picks the command, the second is
/// the board's MAC address where one is typed, and a `fastpins` line may
/// go on with `set <dout> <oen>` in hex.
pub fn parse_terminal_command(command: &str) -> (r: TerminalCommand)
    ensures
        command_of(words(command@), r),
{
    let v = chars_of(command);
    let w = split_words(v.as_slice());
    let ghost ws = words(command@);
    assert(w@.len() == ws.len());
    if w.len() == 0 {
        return TerminalCommand::Empty;
    }
    assert(w@[0]@ == ws[0]);
    let first = &w[0];
    if eq_str(first.as_slice(), "help") {
        TerminalCommand::Help
    } else if eq_str(first.as_slice(), "list") || eq_str(first.as_slice(), "ls") {
        TerminalCommand::List
    } else if eq_str(first.as_slice(), "discover") {
        TerminalCommand::Discover
    } else if eq_str(first.as_slice(), "status") {
        TerminalCommand::Status(mac_arg_text(&w))
    } else if eq_str(first.as_slice(), "start") {
        TerminalCommand::Start(mac_arg_text(&w))
    } else if eq_str(first.as_slice(), "stop") {
        TerminalCommand::Stop(mac_arg_text(&w))
    } else if eq_str(first.as_slice(), "reset") {
        TerminalCommand::Reset(mac_arg_text(&w))
    } else if eq_str(first.as_slice(), "fastpins") {
        let mac = mac_arg_text(&w);
        let mut offset: usize = 1;
        if w.len() >= 2 {
            assert(w@[1]@ == ws[1]);
            let mut k: usize = 0;
            let mut colon = false;
            while k < w[1].len()
                invariant
                    w@.len() >= 2,
                    k <= w@[1]@.len(),
                    colon == w@[1]@.take(k as int).contains(':'),
                decreases w@[1]@.len() - k,
            {
                assert(w@[1]@.take(k + 1) =~= w@[1]@.take(k as int).push(w@[1]@[k as int]));
                if w[1][k] == ':' {
                    assert(w@[1]@.take(k + 1)[k as int] == ':');
                    colon = true;
                }
                k = k + 1;
            }
            assert(w@[1]@.take(w@[1]@.len() as int) =~= w@[1]@);
            if colon {
                offset = 2;
            }
        }
        assert(offset == fast_pins_offset(ws));
        let ghost rest = ws.skip(offset as int);
        let n = w.len();
        let action = if n <= offset {
            assert(rest.len() == 0);
            FastPinsAction::Read
        } else if n - offset >= 3 && eq_str(w[offset].as_slice(), "set") {
            assert(w@[offset as int]@ == rest[0]);
            assert(w@[offset + 1]@ == rest[1]);
            assert(w@[offset + 2]@ == rest[2]);
            match parse_hex_word(&w[offset + 1]) {
                None => FastPinsAction::BadDout,
                Some(d) => match parse_hex_word(&w[offset + 2]) {
                    None => FastPinsAction::BadOen,
                    Some(o) => FastPinsAction::Write { dout: d, oen: o },
                },
            }
        } else {
            proof {
                if n - offset >= 3 {
                    assert(w@[offset as int]@ == rest[0]);
                }
            }
            FastPinsAction::Usage
        };
        TerminalCommand::FastPins(mac, action)
    } else {
        TerminalCommand::Unknown(text_of_chars(first))
    }
}

// -----------------------------------------------------------------------------
// Replies
// -----------------------------------------------------------------------------

/// The terminal's help text.
pub open spec fn help_text() -> Seq<char> {
    "FBC System Terminal Commands:\n\n  help              - Show this help\n  list, ls          - List discovered boards\n  discover          - Discover boards on network\n  status <mac>      - Get board status\n  start <mac>       - Start test on board\n  stop <mac>        - Stop test on board\n  start <mac>       - Start test on board\n  stop <mac>        - Stop test on board\n  reset <mac>       - Reset board\n  fastpins <mac>    - Get/Set fast pins\n\nExamples:\n  discover\n  status 00:0A:35:00:01:02\n  start 00:0A:35:00:01:02\n"@
}

/// The terminal's help text.
pub fn terminal_help() -> (r: String)
    ensures
        r@ == help_text(),
{
    "FBC System Terminal Commands:\n\n  help              - Show this help\n  list, ls          - List discovered boards\n  discover          - Discover boards on network\n  status <mac>      - Get board status\n  start <mac>       - Start test on board\n  stop <mac>        - Stop test on board\n  start <mac>       - Start test on board\n  stop <mac>        - Stop test on board\n  reset <mac>       - Reset board\n  fastpins <mac>    - Get/Set fast pins\n\nExamples:\n  discover\n  status 00:0A:35:00:01:02\n  start 00:0A:35:00:01:02\n".to_owned()
}

/// The reply to a command that needs no answer from a board beyond its
/// success, for board `mac`: `None` for `list`, `discover`, `status` and
/// reading the fast pins, whose replies show what came back.
pub open spec fn done_reply_of(cmd: TerminalCommand, mac: Seq<char>) -> Option<Seq<char>> {
    match cmd {
        TerminalCommand::Empty => Some(Seq::<char>::empty()),
        TerminalCommand::Help => Some(help_text()),
        TerminalCommand::Unknown(w) => Some("Unknown command: "@ + w@ + ". Type 'help' for commands."@),
        TerminalCommand::Start(_) => Some("Started "@ + mac),
        TerminalCommand::Stop(_) => Some("Stopped "@ + mac),
        TerminalCommand::Reset(_) => Some("Reset "@ + mac),
        TerminalCommand::FastPins(_, FastPinsAction::Write { dout, oen }) => Some("Set fast pins for "@ + mac),
        TerminalCommand::FastPins(_, FastPinsAction::BadDout) => Some("Error: Invalid DOUT hex value"@),
        TerminalCommand::FastPins(_, FastPinsAction::BadOen) => Some("Error: Invalid OEN hex value"@),
        TerminalCommand::FastPins(_, FastPinsAction::Usage) => Some("Usage: fastpins [mac] [set <dout_hex> <oen_hex>]"@),
        _ => None,
    }
}

/// The reply to a command once it succeeded on board `mac`.
pub fn done_reply(cmd: &TerminalCommand, mac: &str) -> (r: Option<String>)
    ensures
        match done_reply_of(*cmd, mac@) {
            Some(t) => r matches Some(x) && x@ == t,
            None => r is None,
        },
{
    let mut m: Vec<char> = Vec::new();
    match cmd {
        TerminalCommand::Empty => {},
        TerminalCommand::Help => {
            return Some(terminal_help());
        },
        TerminalCommand::Unknown(w) => {
            push_str(&mut m, "Unknown command: ");
            push_str(&mut m, w.as_str());
            push_str(&mut m, ". Type 'help' for commands.");
        },
        TerminalCommand::Start(_) => {
            push_str(&mut m, "Started ");
            push_str(&mut m, mac);
        },
        TerminalCommand::Stop(_) => {
            push_str(&mut m, "Stopped ");
            push_str(&mut m, mac);
        },
        TerminalCommand::Reset(_) => {
            push_str(&mut m, "Reset ");
            push_str(&mut m, mac);
        },
        TerminalCommand::FastPins(_, action) => match action {
            FastPinsAction::Write { .. } => {
                push_str(&mut m, "Set fast pins for ");
                push_str(&mut m, mac);
            },
            FastPinsAction::BadDout => push_str(&mut m, "Error: Invalid DOUT hex value"),
            FastPinsAction::BadOen => push_str(&mut m, "Error: Invalid OEN hex value"),
            FastPinsAction::Usage => push_str(&mut m, "Usage: fastpins [mac] [set <dout_hex> <oen_hex>]"),
            FastPinsAction::Read => {
                return None;
            },
        },
        _ => {
            return None;
        },
    }
    Some(string_from_chars(m.as_slice()))
}

/// The reply to `discover`.
pub fn discover_reply(n: usize) -> (r: String)
    ensures
        r@ == "Discovered "@ + dec_chars(n as nat) + " board(s)"@,
{
    let mut m: Vec<char> = Vec::new();
    push_str(&mut m, "Discovered ");
    push_decimal(&mut m, n as u64);
    push_str(&mut m, " board(s)");
    string_from_chars(m.as_slice())
}

/// The reply to reading the fast pins: output, output-enable and input
/// words in hex.
pub fn fast_pins_reply(dout: u32, oen: u32, din: u32) -> (r: String)
    ensures
        r@ == "Fast Pins (Bank 35):\n  DOUT: 0x"@ + hex8_upper(dout) + "\n  OEN:  0x"@ + hex8_upper(oen)
            + "\n  DIN:  0x"@ + hex8_upper(din),
{
    let mut m: Vec<char> = Vec::new();
    push_str(&mut m, "Fast Pins (Bank 35):\n  DOUT: 0x");
    push_hex8_upper(&mut m, dout);
    push_str(&mut m, "\n  OEN:  0x");
    push_hex8_upper(&mut m, oen);
    push_str(&mut m, "\n  DIN:  0x");
    push_hex8_upper(&mut m, din);
    string_from_chars(m.as_slice())
}

/// The reply to `fastpins` when no board can be picked.
pub fn fast_pins_no_board() -> (r: String)
    ensures
        r@ == "No board selected. Usage: fastpins [mac] [set <dout> <oen>]"@,
{
    "No board selected. Usage: fastpins [mac] [set <dout> <oen>]".to_owned()
}

/// The board a command is for: the MAC typed, else the only board known;
/// with none known, or several, the message why none can be picked.
pub open spec fn board_pick(name: Seq<char>, typed: Option<Seq<char>>, known: Seq<Seq<char>>) -> Result<Seq<char>, Seq<char>> {
    match typed {
        Some(m) => Ok(m),
        None => if known.len() == 1 {
            Ok(known[0])
        } else if known.len() == 0 {
            Err("No boards discovered. Run 'discover' first."@)
        } else {
            Err("Multiple boards found. Specify MAC: "@ + name + " <mac>"@)
        },
    }
}

/// Pick the board a command named `name` is for.
pub fn pick_board(name: &str, typed: &Option<String>, known: &Vec<String>) -> (r: Result<String, String>)
    ensures
        match board_pick(name@, opt_text(*typed), known@.map_values(|k: String| k@)) {
            Ok(m) => r matches Ok(x) && x@ == m,
            Err(e) => r matches Err(x) && x@ == e,
        },
{
    match typed {
        Some(m) => Ok(m.clone()),
        None => {
            if known.len() == 1 {
                Ok(known[0].clone())
            } else if known.len() == 0 {
                Err("No boards discovered. Run 'discover' first.".to_owned())
            } else {
                let mut m: Vec<char> = Vec::new();
                push_str(&mut m, "Multiple boards found. Specify MAC: ");
                push_str(&mut m, name);
                push_str(&mut m, " <mac>");
                Err(string_from_chars(m.as_slice()))
            }
        },
    }
}

/// `s` padded with spaces on the right to `w` characters.
pub open spec fn pad_right(s: Seq<char>, w: nat) -> Seq<char> {
    if s.len() >= w {
        s
    } else {
        s + Seq::new((w - s.len()) as nat, |i: int| ' ')
    }
}

fn push_padded(out: &mut Vec<char>, s: &str, w: usize)
    ensures
        final(out)@ == old(out)@ + pad_right(s@, w as nat),
{
    let ghost o = out@;
    push_str(out, s);
    let n = chars_of(s).len();
    let mut k = n;
    assert(out@ =~= o + s@ + Seq::new((k - n) as nat, |i: int| ' '));
    while k < w
        invariant
            n == s@.len(),
            n <= k,
            k == n || k <= w,
            out@ == o + s@ + Seq::new((k - n) as nat, |i: int| ' '),
        decreases w - k,
    {
        out.push(' ');
        assert(out@ =~= o + s@ + Seq::new((k + 1 - n) as nat, |i: int| ' '));
        k = k + 1;
    }
    if n >= w {
        assert(k == n);
        assert(Seq::new((k - n) as nat, |i: int| ' ') =~= Seq::<char>::empty());
        assert(out@ =~= o + pad_right(s@, w as nat));
    } else {
        assert(k == w);
        assert(out@ =~= o + pad_right(s@, w as nat));
    }
}

/// The name a board state is shown with.
pub open spec fn state_name(s: ControllerState) -> Seq<char> {
    match s {
        ControllerState::Idle => "Idle"@,
        ControllerState::Running => "Running"@,
        ControllerState::Done => "Done"@,
        ControllerState::Error => "Error"@,
        ControllerState::Unknown => "Unknown"@,
    }
}

fn state_str(s: ControllerState) -> (r: &'static str)
    ensures
        r@ == state_name(s),
{
    match s {
        ControllerState::Idle => "Idle",
        ControllerState::Running => "Running",
        ControllerState::Done => "Done",
        ControllerState::Error => "Error",
        ControllerState::Unknown => "Unknown",
    }
}

/// A rack position as shown: `{shelf}-{F or B}{slot}`.
pub open spec fn position_text(p: SlotPosition) -> Seq<char> {
    dec_chars(p.shelf as nat) + seq!['-'] + (match p.tray {
        TrayPosition::Front => seq!['F'],
        TrayPosition::Back => seq!['B'],
    }) + dec_chars(p.slot as nat)
}

/// One line of the `list` reply: MAC, state and position (`?` when the
/// board has none).
pub open spec fn list_line(mac: Seq<char>, st: ControllerState, pos: Option<SlotPosition>) -> Seq<char> {
    pad_right(mac, 18) + " "@ + pad_right(state_name(st), 8) + " "@ + (match pos {
        Some(p) => position_text(p),
        None => "?"@,
    }) + "\n"@
}

/// The `list` lines of boards, in order.
pub open spec fn list_lines(rows: Seq<(String, ControllerState, Option<SlotPosition>)>) -> Seq<char>
    decreases rows.len(),
{
    if rows.len() == 0 {
        Seq::<char>::empty()
    } else {
        list_lines(rows.drop_last()) + list_line(rows.last().0@, rows.last().1, rows.last().2)
    }
}

/// The heading of the `list` reply: column names and a rule of 45 `─`.
pub open spec fn list_heading() -> Seq<char> {
    "MAC Address        State    Position\n"@ + Seq::new(45, |i: int| '─') + "\n"@
}

/// The reply to `list` for the boards known (MAC, state, position), in
/// the order given.
pub fn list_reply(rows: &Vec<(String, ControllerState, Option<SlotPosition>)>) -> (r: String)
    ensures
        rows@.len() == 0 ==> r@ == "No boards discovered. Run 'discover' first."@,
        rows@.len() > 0 ==> r@ == list_heading() + list_lines(rows@),
{
    if rows.len() == 0 {
        return "No boards discovered. Run 'discover' first.".to_owned();
    }
    let mut m: Vec<char> = Vec::new();
    push_str(&mut m, "MAC Address        State    Position\n");
    let mut k: usize = 0;
    while k < 45
        invariant
            k <= 45,
            m@ == "MAC Address        State    Position\n"@ + Seq::new(k as nat, |i: int| '─'),
        decreases 45 - k,
    {
        m.push('─');
        k = k + 1;
        assert(m@ =~= "MAC Address        State    Position\n"@ + Seq::new(k as nat, |i: int| '─'));
    }
    m.push('\n');
    proof {
        reveal_strlit("\n");
    }
    assert(m@ =~= list_heading());
    let mut i: usize = 0;
    while i < rows.len()
        invariant
            i <= rows@.len(),
            m@ == list_heading() + list_lines(rows@.take(i as int)),
        decreases rows.len() - i,
    {
        let ghost before = m@;
        let row = &rows[i];
        push_padded(&mut m, row.0.as_str(), 18);
        m.push(' ');
        push_padded(&mut m, state_str(row.1), 8);
        m.push(' ');
        match row.2 {
            Some(p) => {
                let t = p.to_string();
                push_str(&mut m, t.as_str());
            },
            None => push_str(&mut m, "?"),
        }
        m.push('\n');
        proof {
            let r = rows@[i as int];
            assert(rows@.take(i + 1).drop_last() =~= rows@.take(i as int));
            assert(rows@.take(i + 1).last() == r);
            reveal_strlit(" ");
            reveal_strlit("?");
            reveal_strlit("\n");
            assert(m@ =~= before + list_line(r.0@, r.1, r.2));
        }
        i = i + 1;
    }
    assert(rows@.take(rows@.len() as int) =~= rows@);
    string_from_chars(m.as_slice())
}

} // verus!
