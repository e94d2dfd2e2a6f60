//! Rack configuration: the physical layout of the burn-in system and the
//! assignment of boards (by MAC address) to slots.

use vstd::prelude::*;
use crate::text::{chars_of, dec_chars, push_decimal, push_str, string_from_chars};

verus! {

/// Front or back tray.
#[derive(Debug, Clone, Copy, PartialEq, Eq, Structural)]
pub enum TrayPosition {
    Front,
    Back,
}

/// Physical position in the rack.
#[derive(Debug, Clone, Copy, PartialEq, Eq, Structural)]
pub struct SlotPosition {
    /// Shelf number (1-based).
    pub shelf: u8,
    /// Front or back tray.
    pub tray: TrayPosition,
    /// Slot on the tray (1-based).
    pub slot: u8,
}

/// A board assigned to a slot.
#[derive(Debug)]
pub struct BoardAssignment {
    pub mac: String,
    pub position: SlotPosition,
}

/// The rack layout and its board assignments.
#[derive(Debug)]
pub struct RackConfig {
    /// Number of shelves (default 11).
    pub shelves: u8,
    /// Boards per tray (default 4).
    pub boards_per_tray: u8,
    /// Whether each shelf has a front and a back tray (default true).
    pub dual_tray: bool,
    /// Board slot assignments.
    pub assignments: Vec<BoardAssignment>,
}

/// An assignment as a value: the MAC text and the slot.
pub type Slot = (Seq<char>, SlotPosition);

impl BoardAssignment {
    pub open spec fn view_pair(&self) -> Slot {
        (self.mac@, self.position)
    }
}

/// The assignments as values.
pub open spec fn slots_of(v: Seq<BoardAssignment>) -> Seq<Slot> {
    Seq::new(v.len(), |i: int| v[i].view_pair())
}

/// The slot of the first assignment of `mac`, if any.
pub open spec fn find_position(asg: Seq<Slot>, mac: Seq<char>) -> Option<SlotPosition>
    decreases asg.len(),
{
    if asg.len() == 0 {
        None
    } else if asg[0].0 == mac {
        Some(asg[0].1)
    } else {
        find_position(asg.drop_first(), mac)
    }
}

/// `asg` without the assignments of `mac`.
pub open spec fn without_mac(asg: Seq<Slot>, mac: Seq<char>) -> Seq<Slot>
    decreases asg.len(),
{
    if asg.len() == 0 {
        asg
    } else {
        let rest = without_mac(asg.drop_last(), mac);
        if asg.last().0 == mac {
            rest
        } else {
            rest.push(asg.last())
        }
    }
}

/// `asg` without the assignments to `pos`.
pub open spec fn without_pos(asg: Seq<Slot>, pos: SlotPosition) -> Seq<Slot>
    decreases asg.len(),
{
    if asg.len() == 0 {
        asg
    } else {
        let rest = without_pos(asg.drop_last(), pos);
        if asg.last().1 == pos {
            rest
        } else {
            rest.push(asg.last())
        }
    }
}

/// Assigning `mac` to `pos`: any earlier assignment of the MAC or of the
/// slot is dropped, then the new one is added at the end.
pub open spec fn assign_spec(asg: Seq<Slot>, mac: Seq<char>, pos: SlotPosition) -> Seq<Slot> {
    without_pos(without_mac(asg, mac), pos).push((mac, pos))
}

/// No MAC and no slot is assigned twice.
pub open spec fn rack_unique(asg: Seq<Slot>) -> bool {
    forall|i: int, j: int|
        0 <= i < j < asg.len() ==> (#[trigger] asg[i]).0 != (#[trigger] asg[j]).0 && asg[i].1 != asg[j].1
}

/// Whether some assignment uses `pos`.
pub open spec fn taken(asg: Seq<Slot>, pos: SlotPosition) -> bool {
    exists|i: int| 0 <= i < asg.len() && (#[trigger] asg[i]).1 == pos
}

/// The slot with index `k`, counting slots within a tray, then trays
/// within a shelf, then shelves.
pub open spec fn slot_position(k: int, trays: int, bpt: int) -> SlotPosition {
    SlotPosition {
        shelf: (k / (trays * bpt) + 1) as u8,
        tray: if (k / bpt) % trays == 0 { TrayPosition::Front } else { TrayPosition::Back },
        slot: (k % bpt + 1) as u8,
    }
}

/// The first free slot index from `k` on (`total` when there is none).
pub open spec fn next_free(asg: Seq<Slot>, k: int, total: int, trays: int, bpt: int) -> int
    decreases total - k,
{
    if k >= total {
        total
    } else if !taken(asg, slot_position(k, trays, bpt)) {
        k
    } else {
        next_free(asg, k + 1, total, trays, bpt)
    }
}

/// One step of automatic assignment: an unassigned MAC takes the first
/// free slot from the current index on.
pub open spec fn auto_step(st: (Seq<Slot>, int), mac: Seq<char>, total: int, trays: int, bpt: int) -> (Seq<Slot>, int) {
    if find_position(st.0, mac) is Some {
        st
    } else {
        let k = next_free(st.0, st.1, total, trays, bpt);
        if k < total {
            (assign_spec(st.0, mac, slot_position(k, trays, bpt)), k + 1)
        } else {
            (st.0, total)
        }
    }
}

/// Automatic assignment of `macs` in order.
pub open spec fn auto_fold(asg: Seq<Slot>, macs: Seq<Seq<char>>, total: int, trays: int, bpt: int) -> (Seq<Slot>, int)
    decreases macs.len(),
{
    if macs.len() == 0 {
        (asg, 0)
    } else {
        auto_step(auto_fold(asg, macs.drop_last(), total, trays, bpt), macs.last(), total, trays, bpt)
    }
}

/// Whether two strings have the same characters.
fn same_text(a: &str, b: &str) -> (r: bool)
    ensures
        r == (a@ == b@),
{
    let x = chars_of(a);
    let y = chars_of(b);
    if x.len() != y.len() {
        return false;
    }
    let mut i: usize = 0;
    while i < x.len()
        invariant
            x@ == a@,
            y@ == b@,
            x@.len() == y@.len(),
            i <= x@.len(),
            forall|k: int| 0 <= k < i ==> x@[k] == y@[k],
        decreases x.len() - i,
    {
        if x[i] != y[i] {
            return false;
        }
        i = i + 1;
    }
    assert(x@ =~= y@);
    true
}

fn copy_assignment(a: &BoardAssignment) -> (r: BoardAssignment)
    ensures
        r.view_pair() == a.view_pair(),
{
    BoardAssignment { mac: a.mac.clone(), position: a.position }
}

impl Default for RackConfig {
    fn default() -> (r: Self)
        ensures
            r.shelves == 11,
            r.boards_per_tray == 4,
            r.dual_tray,
            r.assignments@.len() == 0,
    {
        RackConfig { shelves: 11, boards_per_tray: 4, dual_tray: true, assignments: Vec::new() }
    }
}

impl RackConfig {
    pub open spec fn slots(&self) -> Seq<Slot> {
        slots_of(self.assignments@)
    }

    pub open spec fn trays_spec(&self) -> int {
        if self.dual_tray { 2 } else { 1 }
    }

    pub open spec fn capacity_spec(&self) -> int {
        self.shelves * self.trays_spec() * self.boards_per_tray
    }

    /// Total board capacity: shelves × trays per shelf × boards per tray.
    pub fn capacity(&self) -> (r: u32)
        ensures
            r == self.capacity_spec(),
    {
        let trays: u32 = if self.dual_tray { 2 } else { 1 };
        assert((self.shelves as u32) * trays <= 510) by (nonlinear_arith)
            requires self.shelves <= 255, trays <= 2;
        assert((self.shelves as u32) * trays * (self.boards_per_tray as u32) <= 510 * 255) by (nonlinear_arith)
            requires (self.shelves as u32) * trays <= 510, self.boards_per_tray <= 255;
        (self.shelves as u32) * trays * (self.boards_per_tray as u32)
    }

    /// The slot of a MAC address (its first assignment).
    pub fn get_position(&self, mac: &str) -> (r: Option<SlotPosition>)
        ensures
            r == find_position(self.slots(), mac@),
    {
        let n = self.assignments.len();
        let mut i: usize = 0;
        assert(self.slots().skip(0) =~= self.slots());
        while i < n
            invariant
                n == self.assignments@.len(),
                i <= n,
                find_position(self.slots(), mac@) == find_position(self.slots().skip(i as int), mac@),
            decreases n - i,
        {
            let a = &self.assignments[i];
            assert(self.slots().skip(i as int).drop_first() =~= self.slots().skip(i + 1));
            if same_text(a.mac.as_str(), mac) {
                return Some(a.position);
            }
            i = i + 1;
        }
        assert(self.slots().skip(n as int) =~= Seq::<Slot>::empty());
        None
    }

    /// Assign a board to a slot, replacing any assignment of the board and
    /// of the slot.
    pub fn assign(&mut self, mac: String, position: SlotPosition)
        ensures
            final(self).slots() == assign_spec(old(self).slots(), mac@, position),
            final(self).shelves == old(self).shelves,
            final(self).boards_per_tray == old(self).boards_per_tray,
            final(self).dual_tray == old(self).dual_tray,
    {
        let ghost before = self.slots();
        let mut kept: Vec<BoardAssignment> = Vec::new();
        let n = self.assignments.len();
        let mut i: usize = 0;
        while i < n
            invariant
                n == self.assignments@.len(),
                before == slots_of(self.assignments@),
                i <= n,
                slots_of(kept@) == without_mac(before.take(i as int), mac@),
            decreases n - i,
        {
            let a = &self.assignments[i];
            assert(before.take(i + 1).drop_last() =~= before.take(i as int));
            if !(a.mac == mac) {
                let c = copy_assignment(a);
                kept.push(c);
            }
            assert(slots_of(kept@) =~= without_mac(before.take(i + 1), mac@));
            i = i + 1;
        }
        assert(before.take(n as int) =~= before);
        let ghost mid = slots_of(kept@);
        let mut kept2: Vec<BoardAssignment> = Vec::new();
        let m = kept.len();
        let mut j: usize = 0;
        while j < m
            invariant
                m == kept@.len(),
                mid == slots_of(kept@),
                j <= m,
                slots_of(kept2@) == without_pos(mid.take(j as int), position),
            decreases m - j,
        {
            let a = &kept[j];
            assert(mid.take(j + 1).drop_last() =~= mid.take(j as int));
            if a.position != position {
                let c = copy_assignment(a);
                kept2.push(c);
            }
            assert(slots_of(kept2@) =~= without_pos(mid.take(j + 1), position));
            j = j + 1;
        }
        assert(mid.take(m as int) =~= mid);
        let ghost mv = mac@;
        kept2.push(BoardAssignment { mac, position });
        assert(slots_of(kept2@) =~= assign_spec(before, mv, position));
        self.assignments = kept2;
    }

    /// Whether some assignment uses `position`.
    fn is_taken(&self, position: SlotPosition) -> (r: bool)
        ensures
            r == taken(self.slots(), position),
    {
        let n = self.assignments.len();
        let mut i: usize = 0;
        while i < n
            invariant
                n == self.assignments@.len(),
                i <= n,
                forall|k: int| 0 <= k < i ==> (#[trigger] self.slots()[k]).1 != position,
            decreases n - i,
        {
            if self.assignments[i].position == position {
                assert(self.slots()[i as int].1 == position);
                return true;
            }
            i = i + 1;
        }
        false
    }

    /// Assign each board not yet assigned to the next free slot, in slot
    /// order, while slots remain.
    pub fn auto_assign(&mut self, macs: &[String])
        ensures
            final(self).slots() == auto_fold(
                old(self).slots(),
                Seq::new(macs@.len(), |i: int| macs@[i]@),
                old(self).capacity_spec(),
                old(self).trays_spec(),
                old(self).boards_per_tray as int,
            ).0,
            final(self).shelves == old(self).shelves,
            final(self).boards_per_tray == old(self).boards_per_tray,
            final(self).dual_tray == old(self).dual_tray,
    {
        let ghost ms = Seq::new(macs@.len(), |i: int| macs@[i]@);
        let ghost total = self.capacity_spec();
        let ghost trays_i = self.trays_spec();
        let ghost bpt_i = self.boards_per_tray as int;
        let trays: usize = if self.dual_tray { 2 } else { 1 };
        let bpt = self.boards_per_tray as usize;
        assert((self.shelves as usize) * trays <= 510) by (nonlinear_arith)
            requires self.shelves <= 255, trays <= 2;
        assert((self.shelves as usize) * trays * bpt <= 510 * 255) by (nonlinear_arith)
            requires (self.shelves as usize) * trays <= 510, bpt <= 255;
        let total_slots = (self.shelves as usize) * trays * bpt;
        assert(total_slots == total);
        let mut slot_idx: usize = 0;
        let mut m: usize = 0;
        assert(ms.take(0) =~= Seq::<Seq<char>>::empty());
        while m < macs.len()
            invariant
                ms == Seq::new(macs@.len(), |i: int| macs@[i]@),
                total == total_slots,
                trays == trays_i,
                bpt == bpt_i,
                bpt == self.boards_per_tray,
                total_slots <= 510 * 255,
                total_slots == (self.shelves as usize) * trays * bpt,
                trays == 1 || trays == 2,
                m <= macs@.len(),
                auto_fold(old(self).slots(), ms.take(m as int), total, trays_i, bpt_i) == (self.slots(), slot_idx as int),
                slot_idx <= total_slots,
                self.shelves == old(self).shelves,
                self.boards_per_tray == old(self).boards_per_tray,
                self.dual_tray == old(self).dual_tray,
            decreases macs.len() - m,
        {
            let mac = &macs[m];
            assert(ms.take(m + 1).drop_last() =~= ms.take(m as int));
            assert(ms.take(m + 1).last() == mac@);
            let ghost st = (self.slots(), slot_idx as int);
            if self.get_position(mac.as_str()).is_some() {
                m = m + 1;
                continue;
            }
            let ghost start = slot_idx as int;
            while slot_idx < total_slots
                invariant_except_break
                    next_free(st.0, start, total, trays_i, bpt_i) == next_free(st.0, slot_idx as int, total, trays_i, bpt_i),
                    self.slots() == st.0,
                invariant
                    find_position(st.0, mac@) is None,
                    st.1 == start,
                    total == total_slots,
                    trays == trays_i,
                    bpt == bpt_i,
                    bpt == self.boards_per_tray,
                    total_slots <= 510 * 255,
                    total_slots == (self.shelves as usize) * trays * bpt,
                    trays == 1 || trays == 2,
                    start <= slot_idx <= total_slots,
                    self.shelves == old(self).shelves,
                    self.boards_per_tray == old(self).boards_per_tray,
                    self.dual_tray == old(self).dual_tray,
                ensures
                    auto_step(st, mac@, total, trays_i, bpt_i) == (self.slots(), slot_idx as int),
                decreases total_slots - slot_idx,
            {
                assert(bpt > 0 && trays * bpt > 0 && trays * bpt <= 510) by (nonlinear_arith)
                    requires slot_idx < total_slots, total_slots == (self.shelves as usize) * trays * bpt, trays >= 1, trays <= 2, bpt <= 255;
                let tb = trays * bpt;
                assert(slot_idx / tb < 255) by (nonlinear_arith)
                    requires slot_idx < total_slots, total_slots == (self.shelves as usize) * trays * bpt,
                        tb == trays * bpt, tb > 0, self.shelves <= 255;
                let shelf = (slot_idx / tb) as u8 + 1;
                let tray_idx = (slot_idx / bpt) % trays;
                let tray = if tray_idx == 0 { TrayPosition::Front } else { TrayPosition::Back };
                assert(slot_idx % bpt < 255) by (nonlinear_arith)
                    requires bpt > 0, bpt <= 255;
                let slot = (slot_idx % bpt) as u8 + 1;
                let position = SlotPosition { shelf, tray, slot };
                assert(position == slot_position(slot_idx as int, trays_i, bpt_i));
                if !self.is_taken(position) {
                    let ghost k = slot_idx as int;
                    self.assign(mac.clone(), position);
                    slot_idx = slot_idx + 1;
                    assert(next_free(st.0, k, total, trays_i, bpt_i) == k);
                    break;
                }
                slot_idx = slot_idx + 1;
            }
            m = m + 1;
        }
        assert(ms.take(macs@.len() as int) =~= ms);
    }

    /// Assigning a board and then looking it up gives the slot it was
    /// assigned.
    pub proof fn lemma_assign_then_get(asg: Seq<Slot>, mac: Seq<char>, pos: SlotPosition)
        ensures
            find_position(assign_spec(asg, mac, pos), mac) == Some(pos),
    {
        let a = without_mac(asg, mac);
        let w = without_pos(a, pos);
        lemma_without_mac_absent(asg, mac);
        lemma_without_pos_members(a, pos);
        assert forall|i: int| 0 <= i < w.len() implies (#[trigger] w[i]).0 != mac by {
            let k = choose|k: int| 0 <= k < a.len() && w[i] == a[k];
            assert(a[k].0 != mac);
        }
        lemma_find_absent_then_push(w, mac, pos);
    }

    /// After assigning a board to a slot, the new assignment is the only
    /// one of that board and the only one of that slot, whatever the
    /// assignments were before.
    pub proof fn lemma_assign_exactly_once(asg: Seq<Slot>, mac: Seq<char>, pos: SlotPosition)
        ensures
            ({
                let r = assign_spec(asg, mac, pos);
                &&& r.len() > 0
                &&& r.last() == (mac, pos)
                &&& forall|i: int| 0 <= i < r.len() - 1 ==> (#[trigger] r[i]).0 != mac && r[i].1 != pos
            }),
    {
        let a = without_mac(asg, mac);
        let w = without_pos(a, pos);
        lemma_without_mac_absent(asg, mac);
        lemma_without_pos_absent(a, pos);
        lemma_without_pos_members(a, pos);
        let r = w.push((mac, pos));
        assert forall|i: int| 0 <= i < r.len() - 1 implies (#[trigger] r[i]).0 != mac && r[i].1 != pos by {
            assert(r[i] == w[i]);
            let k = choose|k: int| 0 <= k < a.len() && w[i] == a[k];
            assert(a[k].0 != mac);
        }
    }

    /// Assigning keeps every MAC and every slot assigned at most once.
    pub proof fn lemma_assign_keeps_unique(asg: Seq<Slot>, mac: Seq<char>, pos: SlotPosition)
        requires
            rack_unique(asg),
        ensures
            rack_unique(assign_spec(asg, mac, pos)),
    {
        let a = without_mac(asg, mac);
        let w = without_pos(a, pos);
        lemma_without_mac_absent(asg, mac);
        lemma_without_mac_unique(asg, mac);
        lemma_without_pos_unique(a, pos);
        lemma_without_pos_absent(a, pos);
        lemma_without_pos_members(a, pos);
        let r = w.push((mac, pos));
        assert forall|i: int, j: int| 0 <= i < j < r.len() implies (#[trigger] r[i]).0 != (#[trigger] r[j]).0 && r[i].1 != r[j].1 by {
            if j < w.len() {
                assert(w[i] == r[i] && w[j] == r[j]);
            } else {
                assert(r[j] == (mac, pos));
                assert(r[i] == w[i]);
                let k = choose|k: int| 0 <= k < a.len() && w[i] == a[k];
                assert(a[k].0 != mac);
            }
        }
    }
}

/// Every entry of `without_mac` comes from `asg` (in order) and none has
/// the MAC.
proof fn lemma_without_mac_absent(asg: Seq<Slot>, mac: Seq<char>)
    ensures
        forall|i: int| 0 <= i < without_mac(asg, mac).len() ==> (#[trigger] without_mac(asg, mac)[i]).0 != mac,
    decreases asg.len(),
{
    if asg.len() > 0 {
        lemma_without_mac_absent(asg.drop_last(), mac);
        let rest = without_mac(asg.drop_last(), mac);
        let w = without_mac(asg, mac);
        assert forall|i: int| 0 <= i < w.len() implies (#[trigger] w[i]).0 != mac by {
            if i < rest.len() {
                assert(w[i] == rest[i]);
            }
        }
    }
}

proof fn lemma_without_pos_absent(asg: Seq<Slot>, pos: SlotPosition)
    ensures
        forall|i: int| 0 <= i < without_pos(asg, pos).len() ==> (#[trigger] without_pos(asg, pos)[i]).1 != pos,
    decreases asg.len(),
{
    if asg.len() > 0 {
        lemma_without_pos_absent(asg.drop_last(), pos);
        let rest = without_pos(asg.drop_last(), pos);
        let w = without_pos(asg, pos);
        assert forall|i: int| 0 <= i < w.len() implies (#[trigger] w[i]).1 != pos by {
            if i < rest.len() {
                assert(w[i] == rest[i]);
            }
        }
    }
}

/// Every entry kept by `without_mac` is an entry of `asg`.
proof fn lemma_without_mac_members(asg: Seq<Slot>, mac: Seq<char>)
    ensures
        forall|i: int| 0 <= i < without_mac(asg, mac).len() ==> exists|j: int| 0 <= j < asg.len() && #[trigger] without_mac(asg, mac)[i] == asg[j],
    decreases asg.len(),
{
    if asg.len() > 0 {
        let p = asg.drop_last();
        lemma_without_mac_members(p, mac);
        let w = without_mac(asg, mac);
        assert forall|i: int| 0 <= i < w.len() implies exists|j: int| 0 <= j < asg.len() && #[trigger] w[i] == asg[j] by {
            if i < without_mac(p, mac).len() {
                assert(w[i] == without_mac(p, mac)[i]);
                let j = choose|j: int| 0 <= j < p.len() && without_mac(p, mac)[i] == p[j];
                assert(asg[j] == p[j]);
            } else {
                assert(w[i] == asg[asg.len() - 1]);
            }
        }
    }
}

proof fn lemma_without_pos_members(asg: Seq<Slot>, pos: SlotPosition)
    ensures
        forall|i: int| 0 <= i < without_pos(asg, pos).len() ==> exists|j: int| 0 <= j < asg.len() && #[trigger] without_pos(asg, pos)[i] == asg[j],
    decreases asg.len(),
{
    if asg.len() > 0 {
        let p = asg.drop_last();
        lemma_without_pos_members(p, pos);
        let w = without_pos(asg, pos);
        assert forall|i: int| 0 <= i < w.len() implies exists|j: int| 0 <= j < asg.len() && #[trigger] w[i] == asg[j] by {
            if i < without_pos(p, pos).len() {
                assert(w[i] == without_pos(p, pos)[i]);
                let j = choose|j: int| 0 <= j < p.len() && without_pos(p, pos)[i] == p[j];
                assert(asg[j] == p[j]);
            } else {
                assert(w[i] == asg[asg.len() - 1]);
            }
        }
    }
}

proof fn lemma_without_mac_unique(asg: Seq<Slot>, mac: Seq<char>)
    requires
        rack_unique(asg),
    ensures
        rack_unique(without_mac(asg, mac)),
    decreases asg.len(),
{
    if asg.len() > 0 {
        let p = asg.drop_last();
        assert(rack_unique(p)) by {
            assert forall|i: int, j: int| 0 <= i < j < p.len() implies (#[trigger] p[i]).0 != (#[trigger] p[j]).0 && p[i].1 != p[j].1 by {
                assert(p[i] == asg[i] && p[j] == asg[j]);
            }
        }
        lemma_without_mac_unique(p, mac);
        lemma_without_mac_members(p, mac);
        let rest = without_mac(p, mac);
        let w = without_mac(asg, mac);
        if asg.last().0 != mac {
            assert forall|i: int, j: int| 0 <= i < j < w.len() implies (#[trigger] w[i]).0 != (#[trigger] w[j]).0 && w[i].1 != w[j].1 by {
                if j < rest.len() {
                    assert(w[i] == rest[i] && w[j] == rest[j]);
                } else {
                    assert(w[j] == asg.last());
                    assert(w[i] == rest[i]);
                    let k = choose|k: int| 0 <= k < p.len() && rest[i] == p[k];
                    assert(p[k] == asg[k]);
                    assert(asg[k].0 != asg[asg.len() - 1].0 && asg[k].1 != asg[asg.len() - 1].1);
                }
            }
        }
    }
}

proof fn lemma_without_pos_unique(asg: Seq<Slot>, pos: SlotPosition)
    requires
        rack_unique(asg),
    ensures
        rack_unique(without_pos(asg, pos)),
    decreases asg.len(),
{
    if asg.len() > 0 {
        let p = asg.drop_last();
        assert(rack_unique(p)) by {
            assert forall|i: int, j: int| 0 <= i < j < p.len() implies (#[trigger] p[i]).0 != (#[trigger] p[j]).0 && p[i].1 != p[j].1 by {
                assert(p[i] == asg[i] && p[j] == asg[j]);
            }
        }
        lemma_without_pos_unique(p, pos);
        lemma_without_pos_members(p, pos);
        let rest = without_pos(p, pos);
        let w = without_pos(asg, pos);
        if asg.last().1 != pos {
            assert forall|i: int, j: int| 0 <= i < j < w.len() implies (#[trigger] w[i]).0 != (#[trigger] w[j]).0 && w[i].1 != w[j].1 by {
                if j < rest.len() {
                    assert(w[i] == rest[i] && w[j] == rest[j]);
                } else {
                    assert(w[j] == asg.last());
                    assert(w[i] == rest[i]);
                    let k = choose|k: int| 0 <= k < p.len() && rest[i] == p[k];
                    assert(p[k] == asg[k]);
                    assert(asg[k].0 != asg[asg.len() - 1].0 && asg[k].1 != asg[asg.len() - 1].1);
                }
            }
        }
    }
}

/// A MAC absent from `w` is found at the end of `w.push((mac, pos))`.
proof fn lemma_find_absent_then_push(w: Seq<Slot>, mac: Seq<char>, pos: SlotPosition)
    requires
        forall|i: int| 0 <= i < w.len() ==> (#[trigger] w[i]).0 != mac,
    ensures
        find_position(w.push((mac, pos)), mac) == Some(pos),
    decreases w.len(),
{
    if w.len() == 0 {
        assert(w.push((mac, pos))[0] == (mac, pos));
    } else {
        assert(w.push((mac, pos))[0] == w[0]);
        assert(w.push((mac, pos)).drop_first() =~= w.drop_first().push((mac, pos)));
        lemma_find_absent_then_push(w.drop_first(), mac, pos);
    }
}

/// Automatic assignment keeps every MAC and every slot assigned at most
/// once.
pub proof fn lemma_auto_assign_keeps_unique(
    asg: Seq<Slot>,
    macs: Seq<Seq<char>>,
    total: int,
    trays: int,
    bpt: int,
)
    requires
        rack_unique(asg),
    ensures
        rack_unique(auto_fold(asg, macs, total, trays, bpt).0),
    decreases macs.len(),
{
    if macs.len() > 0 {
        lemma_auto_assign_keeps_unique(asg, macs.drop_last(), total, trays, bpt);
        let st = auto_fold(asg, macs.drop_last(), total, trays, bpt);
        let k = next_free(st.0, st.1, total, trays, bpt);
        RackConfig::lemma_assign_keeps_unique(st.0, macs.last(), slot_position(k, trays, bpt));
    }
}

impl SlotPosition {
    /// `{shelf}-{F or B}{slot}`, as the rack shows a position.
    pub fn to_string(&self) -> (r: String)
        ensures
            r@ == dec_chars(self.shelf as nat) + seq!['-'] + (match self.tray {
                TrayPosition::Front => seq!['F'],
                TrayPosition::Back => seq!['B'],
            }) + dec_chars(self.slot as nat),
    {
        let mut m: Vec<char> = Vec::new();
        push_decimal(&mut m, self.shelf as u64);
        m.push('-');
        match self.tray {
            TrayPosition::Front => m.push('F'),
            TrayPosition::Back => m.push('B'),
        }
        push_decimal(&mut m, self.slot as u64);
        proof {
            match self.tray {
                TrayPosition::Front => {
                    assert(m@ =~= dec_chars(self.shelf as nat) + seq!['-'] + seq!['F'] + dec_chars(self.slot as nat));
                },
                TrayPosition::Back => {
                    assert(m@ =~= dec_chars(self.shelf as nat) + seq!['-'] + seq!['B'] + dec_chars(self.slot as nat));
                },
            }
        }
        string_from_chars(m.as_slice())
    }
}

} // verus!
