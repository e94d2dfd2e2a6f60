//! Records of the lab's database: lots and the steps a lot goes through,
//! controllers, boards, projects, users, customers and devices.

use vstd::prelude::*;

verus! {

/// A universally unique identifier.
#[verifier::external_type_specification]
#[verifier::external_body]
pub struct ExUuid(uuid::Uuid);

/// `uuid::Uuid::new_v4`: a fresh random identifier. Nothing is stated of
/// its value, which comes from a random source.
#[verifier::external_body]
fn new_id() -> uuid::Uuid {
    uuid::Uuid::new_v4()
}

/// `chrono::Utc::now()` read as `timestamp_millis`: the current time in
/// milliseconds since the Unix epoch. It depends on the clock, so only its
/// sign is stated (`Utc::now` panics on a clock set before the epoch).
#[verifier::external_body]
fn now_millis() -> (r: i64)
    ensures
        r >= 0,
{
    chrono::Utc::now().timestamp_millis()
}

// -----------------------------------------------------------------------------
// Lots
// -----------------------------------------------------------------------------

/// Where a lot is in the burn-in flow.
#[derive(Debug, Clone, Copy, PartialEq, Eq, Structural)]
pub enum LotStep {
    Received,
    Setup,
    Loading,
    BurnIn,
    Readpoint,
    Unloading,
    Shipping,
    Complete,
}

impl LotStep {
    /// The place of the step in the flow, from 0 (received) to 7 (complete).
    pub open spec fn rank(self) -> int {
        match self {
            LotStep::Received => 0,
            LotStep::Setup => 1,
            LotStep::Loading => 2,
            LotStep::BurnIn => 3,
            LotStep::Readpoint => 4,
            LotStep::Unloading => 5,
            LotStep::Shipping => 6,
            LotStep::Complete => 7,
        }
    }

    /// The step that follows; complete stays complete.
    pub open spec fn next(self) -> LotStep {
        match self {
            LotStep::Received => LotStep::Setup,
            LotStep::Setup => LotStep::Loading,
            LotStep::Loading => LotStep::BurnIn,
            LotStep::BurnIn => LotStep::Readpoint,
            LotStep::Readpoint => LotStep::Unloading,
            LotStep::Unloading => LotStep::Shipping,
            LotStep::Shipping => LotStep::Complete,
            LotStep::Complete => LotStep::Complete,
        }
    }

    /// The step after `n` advances.
    pub open spec fn after(self, n: nat) -> LotStep
        decreases n,
    {
        if n == 0 {
            self
        } else {
            self.next().after((n - 1) as nat)
        }
    }

    /// Advancing moves one place forward, except from complete, where it
    /// stays.
    pub proof fn lemma_next_moves_forward(s: LotStep)
        ensures
            s != LotStep::Complete ==> s.next().rank() == s.rank() + 1,
            s == LotStep::Complete ==> s.next() == LotStep::Complete,
    {
    }

    /// Complete is reached after at most seven advances from any step, and
    /// is never left.
    pub proof fn lemma_complete_after_seven(s: LotStep, n: nat)
        requires
            n >= 7 - s.rank(),
        ensures
            s.after(n) == LotStep::Complete,
        decreases n,
    {
        if n > 0 {
            LotStep::lemma_complete_after_seven(s.next(), (n - 1) as nat);
        }
    }
}

impl Default for LotStep {
    fn default() -> (r: Self)
        ensures
            r == LotStep::Received,
    {
        LotStep::Received
    }
}

/// Whether a lot is being worked on.
#[derive(Debug, Clone, Copy, PartialEq, Eq, Structural)]
pub enum LotStatus {
    Active,
    OnHold,
    Complete,
    Cancelled,
}

impl Default for LotStatus {
    fn default() -> (r: Self)
        ensures
            r == LotStatus::Active,
    {
        LotStatus::Active
    }
}

/// A lot of devices under burn-in.
#[derive(Debug)]
pub struct Lot {
    pub id: uuid::Uuid,
    pub project_id: uuid::Uuid,
    pub system_id: uuid::Uuid,
    pub lot_number: String,
    pub customer_lot: String,
    pub step: LotStep,
    pub status: LotStatus,
    pub expected_qty: i32,
    pub running_qty: i32,
    pub good: i32,
    pub reject: i32,
    pub missing: i32,
    pub received_at: i64,
    pub started_at: Option<i64>,
    pub completed_at: Option<i64>,
}

/// `after` is `before` moved to the next step at time `now_ms`: reaching
/// burn-in stamps the start unless one was stamped before, and reaching
/// complete stamps the completion (again on every advance while complete).
pub open spec fn advanced_at(before: Lot, after: Lot, now_ms: i64) -> bool {
    &&& after.step == before.step.next()
    &&& after.started_at == (if after.step == LotStep::BurnIn && before.started_at is None {
        Some(now_ms)
    } else {
        before.started_at
    })
    &&& after.completed_at == (if after.step == LotStep::Complete {
        Some(now_ms)
    } else {
        before.completed_at
    })
    &&& after.same_but_times(before)
}

impl Lot {
    /// A lot just received: a fresh id, active, all of the expected
    /// quantity running, no results yet, received now.
    pub fn new(project_id: uuid::Uuid, system_id: uuid::Uuid, lot_number: String, customer_lot: String, expected_qty: i32) -> (r: Lot)
        ensures
            r.project_id == project_id,
            r.system_id == system_id,
            r.lot_number@ == lot_number@,
            r.customer_lot@ == customer_lot@,
            r.step == LotStep::Received,
            r.status == LotStatus::Active,
            r.expected_qty == expected_qty,
            r.running_qty == expected_qty,
            r.good == 0 && r.reject == 0 && r.missing == 0,
            r.received_at >= 0,
            r.started_at is None,
            r.completed_at is None,
    {
        Lot {
            id: new_id(),
            project_id,
            system_id,
            lot_number,
            customer_lot,
            step: LotStep::Received,
            status: LotStatus::Active,
            expected_qty,
            running_qty: expected_qty,
            good: 0,
            reject: 0,
            missing: 0,
            received_at: now_millis(),
            started_at: None,
            completed_at: None,
        }
    }

    /// Everything but the step and its times is the same.
    pub open spec fn same_but_times(self, other: Lot) -> bool {
        &&& self.id == other.id
        &&& self.project_id == other.project_id
        &&& self.system_id == other.system_id
        &&& self.lot_number@ == other.lot_number@
        &&& self.customer_lot@ == other.customer_lot@
        &&& self.status == other.status
        &&& self.expected_qty == other.expected_qty
        &&& self.running_qty == other.running_qty
        &&& self.good == other.good
        &&& self.reject == other.reject
        &&& self.missing == other.missing
        &&& self.received_at == other.received_at
    }

    /// Move the lot to its next step at time `now_ms`.
    pub fn advance_step_at(&mut self, now_ms: i64)
        ensures
            advanced_at(*old(self), *final(self), now_ms),
    {
        self.step = match self.step {
            LotStep::Received => LotStep::Setup,
            LotStep::Setup => LotStep::Loading,
            LotStep::Loading => LotStep::BurnIn,
            LotStep::BurnIn => LotStep::Readpoint,
            LotStep::Readpoint => LotStep::Unloading,
            LotStep::Unloading => LotStep::Shipping,
            LotStep::Shipping => LotStep::Complete,
            LotStep::Complete => LotStep::Complete,
        };
        if self.step == LotStep::BurnIn && self.started_at.is_none() {
            self.started_at = Some(now_ms);
        }
        if self.step == LotStep::Complete {
            self.completed_at = Some(now_ms);
        }
    }

    /// Move the lot to its next step, stamping times with the clock.
    pub fn advance_step(&mut self)
        ensures
            final(self).step == old(self).step.next(),
            final(self).step == LotStep::BurnIn && old(self).started_at is None ==> final(self).started_at is Some,
            !(final(self).step == LotStep::BurnIn && old(self).started_at is None) ==> final(self).started_at
                == old(self).started_at,
            final(self).step == LotStep::Complete ==> final(self).completed_at is Some,
            final(self).step != LotStep::Complete ==> final(self).completed_at == old(self).completed_at,
            final(self).same_but_times(*old(self)),
    {
        let now = now_millis();
        self.advance_step_at(now);
    }
}

/// Once stamped, the start of burn-in never changes, however many times a
/// lot advances.
pub proof fn lemma_start_stamp_kept(before: Lot, after: Lot, now_ms: i64)
    requires
        before.started_at is Some,
        advanced_at(before, after, now_ms),
    ensures
        after.started_at == before.started_at,
{
}

/// A lot that advances into burn-in without a start stamp gets one, at the
/// time it advanced.
pub proof fn lemma_burn_in_stamps_start(before: Lot, after: Lot, now_ms: i64)
    requires
        before.step == LotStep::Loading,
        before.started_at is None,
        advanced_at(before, after, now_ms),
    ensures
        after.step == LotStep::BurnIn,
        after.started_at == Some(now_ms),
        after.completed_at == before.completed_at,
{
}

// -----------------------------------------------------------------------------
// Controllers
// -----------------------------------------------------------------------------

/// Whether a controller is reachable and what it does.
#[derive(Debug, Clone, Copy, PartialEq, Eq, Structural)]
pub enum ControllerStatus {
    Online,
    Offline,
    Testing,
    Error,
}

impl Default for ControllerStatus {
    fn default() -> (r: Self)
        ensures
            r == ControllerStatus::Offline,
    {
        ControllerStatus::Offline
    }
}

/// A controller board known to the database.
#[derive(Debug)]
pub struct Controller {
    pub id: uuid::Uuid,
    pub board_id: Option<uuid::Uuid>,
    pub ip_address: String,
    pub mac_address: String,
    pub status: ControllerStatus,
    pub firmware_version: String,
    pub last_seen: Option<i64>,
    pub created_at: i64,
    pub updated_at: i64,
}

impl Controller {
    /// A controller not yet seen: offline, no board, no firmware version.
    pub fn new(ip_address: String, mac_address: String) -> (r: Controller)
        ensures
            r.board_id is None,
            r.ip_address@ == ip_address@,
            r.mac_address@ == mac_address@,
            r.status == ControllerStatus::Offline,
            r.firmware_version@ == Seq::<char>::empty(),
            r.last_seen is None,
            r.created_at >= 0 && r.updated_at >= 0,
    {
        Controller {
            id: new_id(),
            board_id: None,
            ip_address,
            mac_address,
            status: ControllerStatus::Offline,
            firmware_version: String::new(),
            last_seen: None,
            created_at: now_millis(),
            updated_at: now_millis(),
        }
    }

    /// Mark the controller online, seen now.
    pub fn mark_online(&mut self)
        ensures
            final(self).status == ControllerStatus::Online,
            final(self).last_seen matches Some(t) && t >= 0,
            final(self).updated_at >= 0,
            final(self).id == old(self).id && final(self).board_id == old(self).board_id,
            final(self).ip_address@ == old(self).ip_address@ && final(self).mac_address@ == old(self).mac_address@,
            final(self).firmware_version@ == old(self).firmware_version@,
            final(self).created_at == old(self).created_at,
    {
        self.status = ControllerStatus::Online;
        self.last_seen = Some(now_millis());
        self.updated_at = now_millis();
    }

    /// Mark the controller offline; when it was last seen is kept.
    pub fn mark_offline(&mut self)
        ensures
            final(self).status == ControllerStatus::Offline,
            final(self).last_seen == old(self).last_seen,
            final(self).updated_at >= 0,
            final(self).id == old(self).id && final(self).board_id == old(self).board_id,
            final(self).ip_address@ == old(self).ip_address@ && final(self).mac_address@ == old(self).mac_address@,
            final(self).firmware_version@ == old(self).firmware_version@,
            final(self).created_at == old(self).created_at,
    {
        self.status = ControllerStatus::Offline;
        self.updated_at = now_millis();
    }
}

// -----------------------------------------------------------------------------
// Boards
// -----------------------------------------------------------------------------

/// Where a board sits in the rack.
#[derive(Debug, Clone)]
pub struct BoardPosition {
    pub shelf: i32,
    pub tray: i32,
    pub slot: i32,
    /// `FRONT` or `REAR`.
    pub position_label: String,
    /// `A` or `B`.
    pub slot_label: String,
}

/// What a board is doing.
#[derive(Debug, Clone, Copy, PartialEq, Eq, Structural)]
pub enum BoardStatus {
    Empty,
    Loaded,
    Testing,
    Complete,
    Failed,
    Shutdown,
}

impl Default for BoardStatus {
    fn default() -> (r: Self)
        ensures
            r == BoardStatus::Empty,
    {
        BoardStatus::Empty
    }
}

/// A burn-in board of a lot.
#[derive(Debug)]
pub struct Board {
    pub id: uuid::Uuid,
    pub lot_id: uuid::Uuid,
    pub system_id: uuid::Uuid,
    pub position: BoardPosition,
    pub status: BoardStatus,
    pub serial: String,
    pub device_id: uuid::Uuid,
    pub created_at: i64,
    pub updated_at: i64,
}

impl Board {
    /// A new, empty board at `position`.
    pub fn new(lot_id: uuid::Uuid, system_id: uuid::Uuid, position: BoardPosition, serial: String, device_id: uuid::Uuid) -> (r: Board)
        ensures
            r.lot_id == lot_id,
            r.system_id == system_id,
            r.position.shelf == position.shelf && r.position.tray == position.tray && r.position.slot == position.slot,
            r.position.position_label@ == position.position_label@,
            r.position.slot_label@ == position.slot_label@,
            r.status == BoardStatus::Empty,
            r.serial@ == serial@,
            r.device_id == device_id,
            r.created_at >= 0 && r.updated_at >= 0,
    {
        Board {
            id: new_id(),
            lot_id,
            system_id,
            position,
            status: BoardStatus::Empty,
            serial,
            device_id,
            created_at: now_millis(),
            updated_at: now_millis(),
        }
    }
}

// -----------------------------------------------------------------------------
// Projects, users, customers, devices
// -----------------------------------------------------------------------------

/// Where a project stands.
#[derive(Debug, Clone, Copy, PartialEq, Eq, Structural)]
pub enum ProjectStatus {
    Planning,
    Active,
    OnHold,
    Complete,
    Cancelled,
}

impl Default for ProjectStatus {
    fn default() -> (r: Self)
        ensures
            r == ProjectStatus::Planning,
    {
        ProjectStatus::Planning
    }
}

/// How the devices of a project are cooled.
#[derive(Debug, Clone, Copy, PartialEq, Eq, Structural)]
pub enum CoolingType {
    Air,
    Liquid,
    /// No cooling (`None` in the front end).
    Uncooled,
}

impl Default for CoolingType {
    fn default() -> (r: Self)
        ensures
            r == CoolingType::Air,
    {
        CoolingType::Air
    }
}

/// A burn-in project for a device.
#[derive(Debug)]
pub struct Project {
    pub id: uuid::Uuid,
    pub device_id: uuid::Uuid,
    pub project_number: String,
    pub system_id: uuid::Uuid,
    pub status: ProjectStatus,
    pub cooling: CoolingType,
    pub start_date: Option<i64>,
    pub end_date: Option<i64>,
    pub created_at: i64,
    pub updated_at: i64,
}

impl Project {
    /// A project in planning, air-cooled, without dates.
    pub fn new(device_id: uuid::Uuid, project_number: String, system_id: uuid::Uuid) -> (r: Project)
        ensures
            r.device_id == device_id,
            r.project_number@ == project_number@,
            r.system_id == system_id,
            r.status == ProjectStatus::Planning,
            r.cooling == CoolingType::Air,
            r.start_date is None && r.end_date is None,
            r.created_at >= 0 && r.updated_at >= 0,
    {
        Project {
            id: new_id(),
            device_id,
            project_number,
            system_id,
            status: ProjectStatus::Planning,
            cooling: CoolingType::Air,
            start_date: None,
            end_date: None,
            created_at: now_millis(),
            updated_at: now_millis(),
        }
    }
}

/// What a user may do.
#[derive(Debug, Clone, Copy, PartialEq, Eq, Structural)]
pub enum UserRole {
    Operator,
    Tech,
    Engineer,
    Admin,
}

impl Default for UserRole {
    fn default() -> (r: Self)
        ensures
            r == UserRole::Operator,
    {
        UserRole::Operator
    }
}

/// A user of the system.
#[derive(Debug)]
pub struct User {
    pub id: uuid::Uuid,
    pub username: String,
    pub display_name: String,
    pub role: UserRole,
    pub active: bool,
    pub created_at: i64,
    pub updated_at: i64,
}

impl User {
    /// An active user.
    pub fn new(username: String, display_name: String, role: UserRole) -> (r: User)
        ensures
            r.username@ == username@,
            r.display_name@ == display_name@,
            r.role == role,
            r.active,
            r.created_at >= 0 && r.updated_at >= 0,
    {
        User {
            id: new_id(),
            username,
            display_name,
            role,
            active: true,
            created_at: now_millis(),
            updated_at: now_millis(),
        }
    }
}

/// A customer.
#[derive(Debug)]
pub struct Customer {
    pub id: uuid::Uuid,
    pub customer_name: String,
    pub contact_email: Option<String>,
    pub contact_phone: Option<String>,
    pub created_at: i64,
    pub updated_at: i64,
}

impl Customer {
    /// A customer without contact details.
    pub fn new(customer_name: String) -> (r: Customer)
        ensures
            r.customer_name@ == customer_name@,
            r.contact_email is None && r.contact_phone is None,
            r.created_at >= 0 && r.updated_at >= 0,
    {
        Customer {
            id: new_id(),
            customer_name,
            contact_email: None,
            contact_phone: None,
            created_at: now_millis(),
            updated_at: now_millis(),
        }
    }
}

/// A device type under test.
#[derive(Debug)]
pub struct Device {
    pub id: uuid::Uuid,
    pub customer: String,
    pub device_name: String,
    pub device_number: String,
    pub device_family: String,
    pub package_type: String,
    pub created_at: i64,
    pub updated_at: i64,
}

impl Device {
    /// A device record.
    pub fn new(customer: String, device_name: String, device_number: String, device_family: String, package_type: String) -> (r: Device)
        ensures
            r.customer@ == customer@,
            r.device_name@ == device_name@,
            r.device_number@ == device_number@,
            r.device_family@ == device_family@,
            r.package_type@ == package_type@,
            r.created_at >= 0 && r.updated_at >= 0,
    {
        Device {
            id: new_id(),
            customer,
            device_name,
            device_number,
            device_family,
            package_type,
            created_at: now_millis(),
            updated_at: now_millis(),
        }
    }
}

} // verus!
