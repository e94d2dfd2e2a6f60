//! Heartbeat frames, the raw Ethernet frames boards send while running,
//! and the live state of the boards that the monitor keeps from them.

use vstd::prelude::*;
use crate::codec::{be16, be32, le32, read_u16_be, read_u32_be, read_u32_le};
use crate::gui::switch::{RackPosition, SwitchConfig};
use crate::text::{chars_of, eq_str, hex_join, hex_joined, string_from_chars};

verus! {

broadcast use vstd::array::group_array_axioms;

/// EtherType of the board protocol.
pub const ETHERTYPE: u16 = 0x88B5;
/// Protocol magic.
pub const MAGIC: u16 = 0xFBC0;
/// Command a board sends on boot.
pub const ANNOUNCE: u8 = 0x01;
/// Command a board sends while running.
pub const HEARTBEAT: u8 = 0x50;
/// Packet type of the older heartbeat frame layout.
pub const LEGACY_HEARTBEAT: u8 = 0x02;

/// A heartbeat from a board.
#[derive(Debug, Clone, Copy, PartialEq, Eq)]
pub struct HeartbeatPacket {
    pub src_mac: [u8; 6],
    pub cycles: u32,
    pub errors: u32,
    /// Temperature × 10 (452 is 45.2 °C).
    pub temp_c: i16,
    pub state: u8,
}

/// What a frame carries, if it is a heartbeat: source MAC, cycles, errors,
/// raw temperature and state.
///
/// Protocol frames (at least 33 bytes): EtherType at 12, magic at 14,
/// command at 18, and for a HEARTBEAT the payload at 22 (big-endian cycles,
/// errors, temperature, then the state byte); an ANNOUNCE reads as an idle
/// board with zero counts. Older frames (at least 26 bytes): EtherType at 12,
/// packet type 0x02 at 14, little-endian cycles at 15, errors at 19,
/// temperature at 23, state at 25.
pub open spec fn heartbeat_of(d: Seq<u8>) -> Option<(Seq<u8>, u32, u32, int, u8)> {
    if d.len() < 26 || be16(d.subrange(12, 14)) != ETHERTYPE {
        None
    } else if d.len() >= 33 && be16(d.subrange(14, 16)) == MAGIC {
        if d[18] == ANNOUNCE {
            Some((d.subrange(6, 12), 0, 0, 0, 0))
        } else if d[18] == HEARTBEAT {
            Some(
                (
                    d.subrange(6, 12),
                    be32(d.subrange(22, 26)) as u32,
                    be32(d.subrange(26, 30)) as u32,
                    be16(d.subrange(30, 32)),
                    d[32],
                ),
            )
        } else {
            None
        }
    } else if d[14] == LEGACY_HEARTBEAT {
        Some(
            (
                d.subrange(6, 12),
                le32(d.subrange(15, 19)) as u32,
                le32(d.subrange(19, 23)) as u32,
                d[23] + d[24] * 256,
                d[25],
            ),
        )
    } else {
        None
    }
}

/// The signed 16-bit value of a 16-bit pattern.
pub open spec fn as_i16(raw: int) -> int {
    if raw >= 0x8000 {
        raw - 0x10000
    } else {
        raw
    }
}

/// The state word of a heartbeat as text.
pub open spec fn state_text(state: u8) -> Seq<char> {
    if state == 0 {
        "idle"@
    } else if state == 1 {
        "running"@
    } else if state == 2 {
        "done"@
    } else if state == 3 {
        "error"@
    } else {
        "unknown"@
    }
}

fn i16_of(raw: u16) -> (r: i16)
    ensures
        r == as_i16(raw as int),
{
    if raw >= 0x8000 {
        (raw as i32 - 0x10000) as i16
    } else {
        raw as i16
    }
}

impl HeartbeatPacket {
    /// Parse a heartbeat from a raw Ethernet frame.
    pub fn parse(data: &[u8]) -> (r: Option<Self>)
        ensures
            match heartbeat_of(data@) {
                Some((mac, cycles, errors, temp, state)) => r matches Some(h) && h.src_mac@ == mac
                    && h.cycles == cycles && h.errors == errors && h.temp_c == as_i16(temp)
                    && h.state == state,
                None => r is None,
            },
    {
        if data.len() < 26 {
            return None;
        }
        let ethertype = read_u16_be(data, 12);
        if ethertype != ETHERTYPE {
            return None;
        }
        let src_mac: [u8; 6] = [data[6], data[7], data[8], data[9], data[10], data[11]];
        assert(src_mac@ =~= data@.subrange(6, 12));
        if data.len() >= 33 && read_u16_be(data, 14) == MAGIC {
            let cmd = data[18];
            if cmd == ANNOUNCE {
                return Some(HeartbeatPacket { src_mac, cycles: 0, errors: 0, temp_c: 0, state: 0 });
            }
            if cmd != HEARTBEAT {
                return None;
            }
            let cycles = read_u32_be(data, 22);
            let errors = read_u32_be(data, 26);
            let temp_c = i16_of(read_u16_be(data, 30));
            let state = data[32];
            Some(HeartbeatPacket { src_mac, cycles, errors, temp_c, state })
        } else if data[14] == LEGACY_HEARTBEAT {
            let cycles = read_u32_le(data, 15);
            let errors = read_u32_le(data, 19);
            let raw = (data[23] as u16) + (data[24] as u16) * 256;
            let temp_c = i16_of(raw);
            let state = data[25];
            Some(HeartbeatPacket { src_mac, cycles, errors, temp_c, state })
        } else {
            None
        }
    }

    /// The source MAC as `AA:BB:CC:DD:EE:FF`.
    pub fn mac_string(&self) -> (r: String)
        ensures
            r@ == hex_joined(self.src_mac@, ':'),
    {
        let v = hex_join(self.src_mac.as_slice(), ':');
        string_from_chars(v.as_slice())
    }

    /// The board state as text: idle, running, done, error or unknown.
    pub fn state_string(&self) -> (r: String)
        ensures
            r@ == state_text(self.state),
    {
        if self.state == 0 {
            "idle".to_owned()
        } else if self.state == 1 {
            "running".to_owned()
        } else if self.state == 2 {
            "done".to_owned()
        } else if self.state == 3 {
            "error".to_owned()
        } else {
            "unknown".to_owned()
        }
    }
}

// -----------------------------------------------------------------------------
// Live board state
// -----------------------------------------------------------------------------

/// A rack position as values: shelf, tray, slot.
pub type PositionView = (u8, Seq<char>, u8);

pub open spec fn position_view(p: Option<RackPosition>) -> Option<PositionView> {
    match p {
        Some(x) => Some((x.shelf, x.tray@, x.slot)),
        None => None,
    }
}

/// What the monitor knows of a board.
#[derive(Debug)]
pub struct LiveBoardState {
    pub mac: String,
    pub position: Option<RackPosition>,
    pub online: bool,
    /// Unix time (ms) of the last heartbeat.
    pub last_seen: i64,
    /// Unix time (ms) the board was first heard from.
    pub first_seen: i64,
    /// idle, running, done, error or unknown.
    pub state: String,
    pub cycles: u64,
    pub errors: u64,
    /// Temperature in tenths of a degree Celsius.
    pub temp_decidegrees: i16,
    pub run_time_ms: u64,
    pub uptime_ms: u64,
}

/// A board's live state as values.
pub struct LiveView {
    pub mac: Seq<char>,
    pub position: Option<PositionView>,
    pub online: bool,
    pub last_seen: i64,
    pub first_seen: i64,
    pub state: Seq<char>,
    pub cycles: u64,
    pub errors: u64,
    pub temp: i16,
    pub run_time_ms: u64,
    pub uptime_ms: u64,
}

impl LiveBoardState {
    pub open spec fn live_view(&self) -> LiveView {
        LiveView {
            mac: self.mac@,
            position: position_view(self.position),
            online: self.online,
            last_seen: self.last_seen,
            first_seen: self.first_seen,
            state: self.state@,
            cycles: self.cycles,
            errors: self.errors,
            temp: self.temp_decidegrees,
            run_time_ms: self.run_time_ms,
            uptime_ms: self.uptime_ms,
        }
    }
}

/// What the monitor reports.
#[derive(Debug)]
pub enum BoardEvent {
    Connected { mac: String, position: Option<RackPosition> },
    Disconnected { mac: String },
    StateChanged { mac: String, old_state: String, new_state: String },
    Error { mac: String, error_count: u64 },
    Heartbeat { mac: String, state: LiveBoardState },
}

/// An event as values.
pub enum EventView {
    Connected(Seq<char>, Option<PositionView>),
    Disconnected(Seq<char>),
    StateChanged(Seq<char>, Seq<char>, Seq<char>),
    Error(Seq<char>, u64),
    Heartbeat(Seq<char>, LiveView),
}

pub open spec fn event_view(e: BoardEvent) -> EventView {
    match e {
        BoardEvent::Connected { mac, position } => EventView::Connected(mac@, position_view(position)),
        BoardEvent::Disconnected { mac } => EventView::Disconnected(mac@),
        BoardEvent::StateChanged { mac, old_state, new_state } => EventView::StateChanged(mac@, old_state@, new_state@),
        BoardEvent::Error { mac, error_count } => EventView::Error(mac@, error_count),
        BoardEvent::Heartbeat { mac, state } => EventView::Heartbeat(mac@, state.live_view()),
    }
}

pub open spec fn events_view(v: Seq<BoardEvent>) -> Seq<EventView> {
    v.map_values(|e: BoardEvent| event_view(e))
}

pub open spec fn boards_view(v: Seq<LiveBoardState>) -> Seq<LiveView> {
    v.map_values(|b: LiveBoardState| b.live_view())
}

/// The index of the board with MAC text `mac`.
pub open spec fn board_index(bs: Seq<LiveView>, mac: Seq<char>) -> Option<int>
    decreases bs.len(),
{
    if bs.len() == 0 {
        None
    } else {
        match board_index(bs.drop_last(), mac) {
            Some(k) => Some(k),
            None => if bs.last().mac == mac {
                Some(bs.len() - 1)
            } else {
                None
            },
        }
    }
}

/// A board first heard from at `now`.
pub open spec fn fresh_board(mac: Seq<char>, now: i64) -> LiveView {
    LiveView {
        mac,
        position: None,
        online: true,
        last_seen: now,
        first_seen: now,
        state: "unknown"@,
        cycles: 0,
        errors: 0,
        temp: 0,
        run_time_ms: 0,
        uptime_ms: 0,
    }
}

/// A board after a heartbeat at `now`: online, seen now, with the
/// heartbeat's state, counts and temperature; its uptime counts from when
/// it was first seen, and so does its run time while it runs.
pub open spec fn beat(b: LiveView, hb: HeartbeatPacket, now: i64) -> LiveView {
    let uptime = (now - b.first_seen) as u64;
    let st = state_text(hb.state);
    LiveView {
        mac: b.mac,
        position: b.position,
        online: true,
        last_seen: now,
        first_seen: b.first_seen,
        state: st,
        cycles: hb.cycles as u64,
        errors: hb.errors as u64,
        temp: hb.temp_c,
        run_time_ms: if st == "running"@ { uptime } else { b.run_time_ms },
        uptime_ms: uptime,
    }
}

/// The boards after a heartbeat: the sender's entry updated, or added.
pub open spec fn apply_heartbeat(bs: Seq<LiveView>, hb: HeartbeatPacket, now: i64) -> Seq<LiveView> {
    let mac = hex_joined(hb.src_mac@, ':');
    match board_index(bs, mac) {
        Some(k) => bs.update(k, beat(bs[k], hb, now)),
        None => bs.push(beat(fresh_board(mac, now), hb, now)),
    }
}

/// The events of a heartbeat: a connection for a new board, a state
/// change when the state differs, and the heartbeat itself.
pub open spec fn heartbeat_events(bs: Seq<LiveView>, hb: HeartbeatPacket, now: i64) -> Seq<EventView> {
    let mac = hex_joined(hb.src_mac@, ':');
    match board_index(bs, mac) {
        Some(k) => {
            let nb = beat(bs[k], hb, now);
            (if bs[k].state != nb.state {
                seq![EventView::StateChanged(mac, bs[k].state, nb.state)]
            } else {
                seq![]
            }) + seq![EventView::Heartbeat(mac, nb)]
        },
        None => seq![
            EventView::Connected(mac, None),
            EventView::Heartbeat(mac, beat(fresh_board(mac, now), hb, now)),
        ],
    }
}

/// Whether a board has been silent too long at `now`.
pub open spec fn silent(b: LiveView, now: i64, timeout_ms: i64) -> bool {
    b.online && now - b.last_seen > timeout_ms
}

/// A board marked offline.
pub open spec fn offline(b: LiveView) -> LiveView {
    LiveView { online: false, ..b }
}

/// The boards after a timeout check at `now`.
pub open spec fn apply_timeouts(bs: Seq<LiveView>, now: i64, timeout_ms: i64) -> Seq<LiveView> {
    bs.map_values(|b: LiveView| if silent(b, now, timeout_ms) { offline(b) } else { b })
}

/// The disconnections a timeout check at `now` reports, in board order.
pub open spec fn timeout_events(bs: Seq<LiveView>, now: i64, timeout_ms: i64) -> Seq<EventView>
    decreases bs.len(),
{
    if bs.len() == 0 {
        seq![]
    } else {
        timeout_events(bs.drop_last(), now, timeout_ms) + if silent(bs.last(), now, timeout_ms) {
            seq![EventView::Disconnected(bs.last().mac)]
        } else {
            seq![]
        }
    }
}

/// Whether no MAC appears twice and all times are at or after the epoch.
pub open spec fn boards_ok(bs: Seq<LiveView>) -> bool {
    &&& forall|i: int, j: int| 0 <= i < j < bs.len() ==> bs[i].mac != bs[j].mac
    &&& forall|i: int| 0 <= i < bs.len() ==> (#[trigger] bs[i]).first_seen >= 0 && bs[i].last_seen >= 0
}

/// The live state of the boards on the network.
pub struct RealtimeMonitor {
    boards: Vec<LiveBoardState>,
    switch_config: SwitchConfig,
    disconnect_timeout_ms: i64,
}

fn copy_position(p: &Option<RackPosition>) -> (r: Option<RackPosition>)
    ensures
        position_view(r) == position_view(*p),
{
    match p {
        Some(x) => Some(RackPosition { shelf: x.shelf, tray: x.tray.clone(), slot: x.slot }),
        None => None,
    }
}

fn copy_board(b: &LiveBoardState) -> (r: LiveBoardState)
    ensures
        r.live_view() == b.live_view(),
{
    LiveBoardState {
        mac: b.mac.clone(),
        position: copy_position(&b.position),
        online: b.online,
        last_seen: b.last_seen,
        first_seen: b.first_seen,
        state: b.state.clone(),
        cycles: b.cycles,
        errors: b.errors,
        temp_decidegrees: b.temp_decidegrees,
        run_time_ms: b.run_time_ms,
        uptime_ms: b.uptime_ms,
    }
}

proof fn lemma_board_index(bs: Seq<LiveView>, mac: Seq<char>)
    ensures
        board_index(bs, mac) matches Some(k) ==> 0 <= k < bs.len() && bs[k].mac == mac,
        board_index(bs, mac) is None ==> forall|i: int| 0 <= i < bs.len() ==> bs[i].mac != mac,
    decreases bs.len(),
{
    if bs.len() > 0 {
        lemma_board_index(bs.drop_last(), mac);
        assert forall|i: int| 0 <= i < bs.len() - 1 implies bs[i] == bs.drop_last()[i] by {}
    }
}

proof fn lemma_board_index_unique(bs: Seq<LiveView>, mac: Seq<char>, k: int)
    requires
        boards_ok(bs),
        0 <= k < bs.len(),
        bs[k].mac == mac,
    ensures
        board_index(bs, mac) == Some(k),
{
    lemma_board_index(bs, mac);
    if let Some(j) = board_index(bs, mac) {
        if j != k {
            if j < k {
                assert(bs[j].mac != bs[k].mac);
            } else {
                assert(bs[k].mac != bs[j].mac);
            }
        }
    }
}

impl RealtimeMonitor {
    /// The boards as values, in the order they were first heard from.
    pub closed spec fn boards_spec(&self) -> Seq<LiveView> {
        boards_view(self.boards@)
    }

    /// How long (ms) a board may stay silent before it counts as gone.
    pub closed spec fn timeout_spec(&self) -> i64 {
        self.disconnect_timeout_ms
    }

    /// The switch wiring that maps ports to rack positions.
    pub closed spec fn switch_spec(&self) -> SwitchConfig {
        self.switch_config
    }

    /// Whether the board list is sound: distinct MACs, times after the
    /// epoch.
    pub open spec fn wf(&self) -> bool {
        boards_ok(self.boards_spec())
    }

    /// A monitor that knows no board yet, with the default switch wiring
    /// and a 500 ms timeout (five missed heartbeats).
    pub fn new() -> (r: Self)
        ensures
            r.wf(),
            r.boards_spec() == Seq::<LiveView>::empty(),
            r.timeout_spec() == 500,
    {
        let m = RealtimeMonitor { boards: Vec::new(), switch_config: SwitchConfig::default(), disconnect_timeout_ms: 500 };
        assert(m.boards_spec() =~= Seq::<LiveView>::empty());
        m
    }

    /// Replace the switch wiring.
    pub fn set_switch_config(&mut self, config: SwitchConfig)
        ensures
            final(self).boards_spec() == old(self).boards_spec(),
            final(self).timeout_spec() == old(self).timeout_spec(),
            final(self).switch_spec() == config,
    {
        self.switch_config = config;
    }

    /// The switch wiring in use.
    pub fn switch_config(&self) -> (r: &SwitchConfig)
        ensures
            *r == self.switch_spec(),
    {
        &self.switch_config
    }

    fn find(&self, mac: &str) -> (r: Option<usize>)
        ensures
            match r {
                Some(k) => board_index(self.boards_spec(), mac@) == Some(k as int),
                None => board_index(self.boards_spec(), mac@) is None,
            },
    {
        let ghost bs = self.boards_spec();
        let mut i: usize = 0;
        while i < self.boards.len()
            invariant
                i <= self.boards@.len(),
                bs == boards_view(self.boards@),
                board_index(bs.take(i as int), mac@) is None,
            decreases self.boards.len() - i,
        {
            assert(bs.take(i + 1).drop_last() =~= bs.take(i as int));
            assert(bs.take(i + 1).last() == self.boards@[i as int].live_view());
            let mv = chars_of(self.boards[i].mac.as_str());
            if eq_str(mv.as_slice(), mac) {
                proof {
                    lemma_board_index_take(bs, i + 1, mac@);
                }
                return Some(i);
            }
            i = i + 1;
        }
        assert(bs.take(bs.len() as int) =~= bs);
        None
    }

    /// All boards' states, in the order they were first heard from.
    pub fn get_all_boards(&self) -> (r: Vec<LiveBoardState>)
        ensures
            boards_view(r@) == self.boards_spec(),
    {
        let mut out: Vec<LiveBoardState> = Vec::new();
        let mut i: usize = 0;
        while i < self.boards.len()
            invariant
                i <= self.boards@.len(),
                boards_view(out@) == boards_view(self.boards@).take(i as int),
            decreases self.boards.len() - i,
        {
            let b = copy_board(&self.boards[i]);
            let ghost bv = b.live_view();
            let ghost before = out@;
            out.push(b);
            assert(boards_view(out@) =~= boards_view(before).push(bv));
            assert(boards_view(self.boards@)[i as int] == bv);
            assert(boards_view(self.boards@).take(i + 1) =~= boards_view(self.boards@).take(i as int).push(bv));
            i = i + 1;
        }
        assert(boards_view(self.boards@).take(self.boards@.len() as int) =~= boards_view(self.boards@));
        out
    }

    /// The state of the board with MAC text `mac`, if it is known.
    pub fn get_board(&self, mac: &str) -> (r: Option<LiveBoardState>)
        ensures
            match board_index(self.boards_spec(), mac@) {
                Some(k) => r matches Some(b) && b.live_view() == self.boards_spec()[k],
                None => r is None,
            },
    {
        proof {
            lemma_board_index(self.boards_spec(), mac@);
        }
        match self.find(mac) {
            Some(k) => Some(copy_board(&self.boards[k])),
            None => None,
        }
    }

    /// Take a heartbeat heard at `now_ms`, and give the events it causes.
    pub fn process_heartbeat_at(&mut self, heartbeat: &HeartbeatPacket, now_ms: i64) -> (r: Vec<BoardEvent>)
        requires
            old(self).wf(),
            now_ms >= 0,
        ensures
            final(self).wf(),
            final(self).boards_spec() == apply_heartbeat(old(self).boards_spec(), *heartbeat, now_ms),
            final(self).timeout_spec() == old(self).timeout_spec(),
            final(self).switch_spec() == old(self).switch_spec(),
            events_view(r@) == heartbeat_events(old(self).boards_spec(), *heartbeat, now_ms),
    {
        let ghost bs = self.boards_spec();
        let mac = heartbeat.mac_string();
        let new_state = heartbeat.state_string();
        let ghost macv = hex_joined(heartbeat.src_mac@, ':');
        proof {
            lemma_board_index(bs, macv);
        }
        let mut events: Vec<BoardEvent> = Vec::new();
        match self.find(mac.as_str()) {
            Some(k) => {
                let old = copy_board(&self.boards[k]);
                let ghost ov = old.live_view();
                assert(ov == bs[k as int]);
                let uptime: u64 = #[verifier::truncate] ((now_ms - old.first_seen) as u64);
                let running = eq_str(chars_of(new_state.as_str()).as_slice(), "running");
                let nb = LiveBoardState {
                    mac: old.mac,
                    position: old.position,
                    online: true,
                    last_seen: now_ms,
                    first_seen: old.first_seen,
                    state: new_state.clone(),
                    cycles: heartbeat.cycles as u64,
                    errors: heartbeat.errors as u64,
                    temp_decidegrees: heartbeat.temp_c,
                    run_time_ms: if running { uptime } else { old.run_time_ms },
                    uptime_ms: uptime,
                };
                let ghost nbv = nb.live_view();
                assert(nbv == beat(bs[k as int], *heartbeat, now_ms));
                let same = eq_str(chars_of(old.state.as_str()).as_slice(), new_state.as_str());
                if !same {
                    events.push(BoardEvent::StateChanged { mac: mac.clone(), old_state: old.state, new_state: new_state.clone() });
                }
                let copy = copy_board(&nb);
                events.push(BoardEvent::Heartbeat { mac: mac.clone(), state: copy });
                let ghost before = self.boards@;
                self.boards.set(k, nb);
                proof {
                    assert(boards_view(self.boards@) =~= bs.update(k as int, nbv));
                    let after = boards_view(self.boards@);
                    assert forall|i: int, j: int| 0 <= i < j < after.len() implies after[i].mac != after[j].mac by {
                        if i != k && j != k {
                            assert(after[i] == bs[i] && after[j] == bs[j]);
                        } else if i == k {
                            assert(after[j] == bs[j]);
                        } else {
                            assert(after[i] == bs[i]);
                        }
                    }
                    assert forall|i: int| 0 <= i < after.len() implies (#[trigger] after[i]).first_seen >= 0
                        && after[i].last_seen >= 0 by {
                        if i != k {
                            assert(after[i] == bs[i]);
                        }
                    }
                    if same {
                        assert(events_view(events@) =~= seq![EventView::Heartbeat(macv, nbv)]);
                    } else {
                        assert(events_view(events@) =~= seq![
                            EventView::StateChanged(macv, bs[k as int].state, nbv.state),
                            EventView::Heartbeat(macv, nbv),
                        ]);
                    }
                    assert(heartbeat_events(bs, *heartbeat, now_ms) =~= events_view(events@));
                }
            },
            None => {
                let uptime: u64 = 0;
                let running = eq_str(chars_of(new_state.as_str()).as_slice(), "running");
                let nb = LiveBoardState {
                    mac: mac.clone(),
                    position: None,
                    online: true,
                    last_seen: now_ms,
                    first_seen: now_ms,
                    state: new_state,
                    cycles: heartbeat.cycles as u64,
                    errors: heartbeat.errors as u64,
                    temp_decidegrees: heartbeat.temp_c,
                    run_time_ms: if running { uptime } else { 0 },
                    uptime_ms: uptime,
                };
                let ghost nbv = nb.live_view();
                assert(((now_ms - now_ms) as u64) == 0u64);
                assert(nbv == beat(fresh_board(macv, now_ms), *heartbeat, now_ms));
                events.push(BoardEvent::Connected { mac: mac.clone(), position: None });
                let copy = copy_board(&nb);
                events.push(BoardEvent::Heartbeat { mac: mac.clone(), state: copy });
                self.boards.push(nb);
                proof {
                    assert(boards_view(self.boards@) =~= bs.push(nbv));
                    let after = boards_view(self.boards@);
                    assert forall|i: int, j: int| 0 <= i < j < after.len() implies after[i].mac != after[j].mac by {
                        if j == bs.len() {
                            assert(after[i] == bs[i]);
                        } else {
                            assert(after[i] == bs[i] && after[j] == bs[j]);
                        }
                    }
                    assert forall|i: int| 0 <= i < after.len() implies (#[trigger] after[i]).first_seen >= 0
                        && after[i].last_seen >= 0 by {
                        if i < bs.len() {
                            assert(after[i] == bs[i]);
                        }
                    }
                    assert(events_view(events@) =~= seq![
                        EventView::Connected(macv, None),
                        EventView::Heartbeat(macv, nbv),
                    ]);
                }
            },
        }
        events
    }

    /// Mark the boards silent for longer than the timeout at `now_ms` as
    /// offline, and report each.
    pub fn check_timeouts_at(&mut self, now_ms: i64) -> (r: Vec<BoardEvent>)
        requires
            old(self).wf(),
            now_ms >= 0,
        ensures
            final(self).wf(),
            final(self).boards_spec() == apply_timeouts(old(self).boards_spec(), now_ms, old(self).timeout_spec()),
            final(self).timeout_spec() == old(self).timeout_spec(),
            final(self).switch_spec() == old(self).switch_spec(),
            events_view(r@) == timeout_events(old(self).boards_spec(), now_ms, old(self).timeout_spec()),
    {
        let ghost bs = self.boards_spec();
        let ghost sw = self.switch_config;
        let timeout_ms = self.disconnect_timeout_ms;
        let mut events: Vec<BoardEvent> = Vec::new();
        let mut i: usize = 0;
        assert(bs.take(0) =~= seq![]);
        while i < self.boards.len()
            invariant
                now_ms >= 0,
                timeout_ms == self.disconnect_timeout_ms,
                self.switch_config == sw,
                boards_ok(bs),
                self.boards@.len() == bs.len(),
                i <= bs.len(),
                forall|k: int| 0 <= k < i ==> (#[trigger] boards_view(self.boards@)[k]) == (if silent(bs[k], now_ms, timeout_ms) {
                    offline(bs[k])
                } else {
                    bs[k]
                }),
                forall|k: int| i <= k < bs.len() ==> (#[trigger] boards_view(self.boards@)[k]) == bs[k],
                events_view(events@) == timeout_events(bs.take(i as int), now_ms, timeout_ms),
            decreases bs.len() - i,
        {
            assert(boards_view(self.boards@)[i as int] == bs[i as int]);
            assert(bs.take(i + 1).drop_last() =~= bs.take(i as int));
            assert(bs.take(i + 1).last() == bs[i as int]);
            let online = self.boards[i].online;
            let last_seen = self.boards[i].last_seen;
            if online && now_ms - last_seen > timeout_ms {
                let mac = self.boards[i].mac.clone();
                let mut b = copy_board(&self.boards[i]);
                b.online = false;
                let ghost before = self.boards@;
                self.boards.set(i, b);
                let ghost ev = events@;
                events.push(BoardEvent::Disconnected { mac });
                assert(events_view(events@) =~= events_view(ev).push(EventView::Disconnected(bs[i as int].mac)));
                assert forall|k: int| 0 <= k < bs.len() && k != i implies #[trigger] boards_view(self.boards@)[k]
                    == boards_view(before)[k] by {}
            } else {
                assert(events_view(events@) =~= timeout_events(bs.take(i + 1), now_ms, timeout_ms));
            }
            i = i + 1;
        }
        proof {
            assert(bs.take(bs.len() as int) =~= bs);
            let after = boards_view(self.boards@);
            assert(after =~= apply_timeouts(bs, now_ms, timeout_ms));
            assert forall|a: int, c: int| 0 <= a < c < after.len() implies after[a].mac != after[c].mac by {
                assert(after[a].mac == bs[a].mac && after[c].mac == bs[c].mac);
            }
            assert forall|a: int| 0 <= a < after.len() implies (#[trigger] after[a]).first_seen >= 0
                && after[a].last_seen >= 0 by {
                assert(after[a].first_seen == bs[a].first_seen && after[a].last_seen == bs[a].last_seen);
            }
        }
        events
    }

    /// Record the rack position of the board with MAC text `mac`, if it is
    /// known.
    pub fn set_board_position(&mut self, mac: &str, position: RackPosition)
        requires
            old(self).wf(),
        ensures
            final(self).wf(),
            final(self).timeout_spec() == old(self).timeout_spec(),
            final(self).switch_spec() == old(self).switch_spec(),
            match board_index(old(self).boards_spec(), mac@) {
                Some(k) => final(self).boards_spec() == old(self).boards_spec().update(
                    k,
                    LiveView { position: Some((position.shelf, position.tray@, position.slot)), ..old(self).boards_spec()[k] },
                ),
                None => final(self).boards_spec() == old(self).boards_spec(),
            },
    {
        let ghost bs = self.boards_spec();
        match self.find(mac) {
            Some(k) => {
                proof {
                    lemma_board_index(bs, mac@);
                }
                let ghost pv = (position.shelf, position.tray@, position.slot);
                let mut b = copy_board(&self.boards[k]);
                b.position = Some(position);
                self.boards.set(k, b);
                proof {
                    let want = bs.update(k as int, LiveView { position: Some(pv), ..bs[k as int] });
                    assert(boards_view(self.boards@) =~= want);
                    let after = boards_view(self.boards@);
                    assert forall|i: int, j: int| 0 <= i < j < after.len() implies after[i].mac != after[j].mac by {
                        assert(after[i].mac == bs[i].mac && after[j].mac == bs[j].mac);
                    }
                    assert forall|i: int| 0 <= i < after.len() implies (#[trigger] after[i]).first_seen >= 0
                        && after[i].last_seen >= 0 by {
                        assert(after[i].first_seen == bs[i].first_seen && after[i].last_seen == bs[i].last_seen);
                    }
                }
            },
            None => {},
        }
    }
}

proof fn lemma_board_index_take(bs: Seq<LiveView>, k: int, mac: Seq<char>)
    requires
        0 < k <= bs.len(),
        board_index(bs.take(k - 1), mac) is None,
        bs[k - 1].mac == mac,
    ensures
        board_index(bs, mac) == Some(k - 1),
    decreases bs.len(),
{
    let t = bs.take(k);
    assert(t.drop_last() =~= bs.take(k - 1));
    assert(board_index(t, mac) == Some(k - 1));
    lemma_board_index_prefix(bs, k, mac);
}

proof fn lemma_board_index_prefix(bs: Seq<LiveView>, k: int, mac: Seq<char>)
    requires
        0 <= k <= bs.len(),
        board_index(bs.take(k), mac) is Some,
    ensures
        board_index(bs, mac) == board_index(bs.take(k), mac),
    decreases bs.len(),
{
    if k < bs.len() {
        assert(bs.drop_last().take(k) =~= bs.take(k));
        lemma_board_index_prefix(bs.drop_last(), k, mac);
    } else {
        assert(bs.take(k) =~= bs);
    }
}

/// After a heartbeat, the sender's board is known, online and last seen
/// at the heartbeat's time, with the heartbeat's counts and state.
pub proof fn lemma_heartbeat_then_lookup(bs: Seq<LiveView>, hb: HeartbeatPacket, now: i64)
    requires
        boards_ok(bs),
        now >= 0,
    ensures
        ({
            let after = apply_heartbeat(bs, hb, now);
            let mac = hex_joined(hb.src_mac@, ':');
            board_index(after, mac) matches Some(k) && after[k].online && after[k].last_seen == now
                && after[k].cycles == hb.cycles as u64 && after[k].errors == hb.errors as u64
                && after[k].state == state_text(hb.state)
        }),
{
    let mac = hex_joined(hb.src_mac@, ':');
    let after = apply_heartbeat(bs, hb, now);
    lemma_board_index(bs, mac);
    match board_index(bs, mac) {
        Some(k) => {
            assert(after[k].mac == mac);
            lemma_heartbeat_keeps_ok(bs, hb, now);
            lemma_board_index_unique(after, mac, k);
        },
        None => {
            assert(after[bs.len() as int].mac == mac);
            lemma_heartbeat_keeps_ok(bs, hb, now);
            lemma_board_index_unique(after, mac, bs.len() as int);
        },
    }
}

/// A heartbeat keeps MACs distinct and times after the epoch.
pub proof fn lemma_heartbeat_keeps_ok(bs: Seq<LiveView>, hb: HeartbeatPacket, now: i64)
    requires
        boards_ok(bs),
        now >= 0,
    ensures
        boards_ok(apply_heartbeat(bs, hb, now)),
{
    let mac = hex_joined(hb.src_mac@, ':');
    let after = apply_heartbeat(bs, hb, now);
    lemma_board_index(bs, mac);
    match board_index(bs, mac) {
        Some(k) => {
            assert forall|i: int, j: int| 0 <= i < j < after.len() implies after[i].mac != after[j].mac by {
                assert(after[i].mac == bs[i].mac && after[j].mac == bs[j].mac);
            }
            assert forall|i: int| 0 <= i < after.len() implies (#[trigger] after[i]).first_seen >= 0
                && after[i].last_seen >= 0 by {
                if i != k {
                    assert(after[i] == bs[i]);
                }
            }
        },
        None => {
            assert forall|i: int, j: int| 0 <= i < j < after.len() implies after[i].mac != after[j].mac by {
                if j < bs.len() {
                    assert(after[i] == bs[i] && after[j] == bs[j]);
                } else {
                    assert(after[i] == bs[i]);
                }
            }
            assert forall|i: int| 0 <= i < after.len() implies (#[trigger] after[i]).first_seen >= 0
                && after[i].last_seen >= 0 by {
                if i < bs.len() {
                    assert(after[i] == bs[i]);
                }
            }
        },
    }
}

/// A timeout check only takes boards offline: it keeps every other field,
/// and a board heard from at the time of the check stays online.
pub proof fn lemma_timeouts_only_disconnect(bs: Seq<LiveView>, now: i64, timeout_ms: i64)
    requires
        timeout_ms >= 0,
    ensures
        apply_timeouts(bs, now, timeout_ms).len() == bs.len(),
        forall|i: int|
            0 <= i < bs.len() ==> {
                let a = #[trigger] apply_timeouts(bs, now, timeout_ms)[i];
                &&& a.mac == bs[i].mac && a.last_seen == bs[i].last_seen && a.state == bs[i].state
                &&& a.cycles == bs[i].cycles && a.position == bs[i].position
                &&& (a.online <==> bs[i].online && now - bs[i].last_seen <= timeout_ms)
            },
{
}

} // verus!
