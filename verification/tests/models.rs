use fbc_host::gui::database::{ControllerStatus as DbControllerStatus, LotStep as DbLotStep, QueryResult, LRM_NOT_FOUND, LRM_OK};
use fbc_host::gui::models::{
    Board, BoardPosition, BoardStatus, Controller, ControllerStatus, CoolingType, Customer, Device, Lot, LotStatus, LotStep,
    Project, ProjectStatus, User, UserRole,
};
use fbc_host::gui::pattern_converter::pc_ffi::{DcFileType, InputFormat};
use fbc_host::gui::ssh::{SshInput, SshSessionInfo};
use fbc_host::pip_db::RoutingDirection;

fn nil() -> uuid::Uuid {
    uuid::Uuid::nil()
}

#[test]
fn lot_starts_received() {
    let lot = Lot::new(nil(), nil(), "L1".to_string(), "C1".to_string(), 100);
    assert_eq!(lot.step, LotStep::Received);
    assert_eq!(lot.status, LotStatus::Active);
    assert_eq!(lot.running_qty, 100);
    assert_eq!(lot.good + lot.reject + lot.missing, 0);
    assert!(lot.received_at > 0);
    assert!(lot.started_at.is_none() && lot.completed_at.is_none());
    assert_ne!(lot.id, uuid::Uuid::nil());
}

#[test]
fn lot_walks_every_step_to_complete() {
    let mut lot = Lot::new(nil(), nil(), "L1".to_string(), "C1".to_string(), 10);
    let order = [
        LotStep::Setup,
        LotStep::Loading,
        LotStep::BurnIn,
        LotStep::Readpoint,
        LotStep::Unloading,
        LotStep::Shipping,
        LotStep::Complete,
        LotStep::Complete,
    ];
    for (k, want) in order.iter().enumerate() {
        lot.advance_step();
        assert_eq!(lot.step, *want);
        assert_eq!(lot.started_at.is_some(), k >= 2);
        assert_eq!(lot.completed_at.is_some(), k >= 6);
    }
}

#[test]
fn lot_advance_at_a_given_time() {
    let mut lot = Lot::new(nil(), nil(), "L1".to_string(), "C1".to_string(), 10);
    lot.advance_step_at(5);
    lot.advance_step_at(6);
    assert_eq!(lot.started_at, None);
    lot.advance_step_at(7);
    assert_eq!(lot.step, LotStep::BurnIn);
    assert_eq!(lot.started_at, Some(7));
    lot.advance_step_at(8);
    assert_eq!(lot.started_at, Some(7));
    lot.step = LotStep::BurnIn;
    lot.advance_step_at(9);
    assert_eq!(lot.started_at, Some(7));
    lot.step = LotStep::Shipping;
    lot.advance_step_at(10);
    assert_eq!(lot.completed_at, Some(10));
    lot.advance_step_at(11);
    assert_eq!(lot.completed_at, Some(11));
    assert_eq!(lot.step, LotStep::Complete);
}

#[test]
fn controllers_go_online_and_offline() {
    let mut c = Controller::new("172.16.0.5".to_string(), "00:0A:35:00:00:01".to_string());
    assert_eq!(c.status, ControllerStatus::Offline);
    assert!(c.last_seen.is_none());
    c.mark_online();
    assert_eq!(c.status, ControllerStatus::Online);
    let seen = c.last_seen;
    assert!(seen.is_some());
    c.mark_offline();
    assert_eq!(c.status, ControllerStatus::Offline);
    assert_eq!(c.last_seen, seen);
    assert_eq!(c.ip_address, "172.16.0.5");
}

#[test]
fn other_records_and_defaults() {
    let pos = BoardPosition { shelf: 1, tray: 2, slot: 3, position_label: "FRONT".to_string(), slot_label: "A".to_string() };
    let b = Board::new(nil(), nil(), pos, "SN1".to_string(), nil());
    assert_eq!(b.status, BoardStatus::Empty);
    assert_eq!(b.position.slot, 3);
    let p = Project::new(nil(), "P-1".to_string(), nil());
    assert_eq!(p.status, ProjectStatus::Planning);
    assert_eq!(p.cooling, CoolingType::Air);
    let u = User::new("op".to_string(), "Operator".to_string(), UserRole::Tech);
    assert!(u.active);
    assert_eq!(u.role, UserRole::Tech);
    let c = Customer::new("ACME".to_string());
    assert!(c.contact_email.is_none());
    let d = Device::new("ACME".to_string(), "D".to_string(), "1".to_string(), "F".to_string(), "BGA".to_string());
    assert_eq!(d.package_type, "BGA");
    assert_eq!(LotStep::default(), LotStep::Received);
    assert_eq!(LotStatus::default(), LotStatus::Active);
    assert_eq!(ControllerStatus::default(), ControllerStatus::Offline);
    assert_eq!(BoardStatus::default(), BoardStatus::Empty);
    assert_eq!(ProjectStatus::default(), ProjectStatus::Planning);
    assert_eq!(CoolingType::default(), CoolingType::Air);
    assert_eq!(UserRole::default(), UserRole::Operator);
}

#[test]
fn engine_codes() {
    assert_eq!(DbControllerStatus::Offline.code(), 0);
    assert_eq!(DbControllerStatus::Error.code(), 3);
    assert_eq!(DbLotStep::BurnIn.code(), 3);
    assert_eq!(DbLotStep::Complete.code(), 7);
    assert_eq!(LRM_OK, 0);
    assert_eq!(LRM_NOT_FOUND, -2);
    let q = QueryResult { json: "[]".to_string(), count: 0 };
    assert_eq!(q.count, 0);
    assert_eq!(InputFormat::Stil.code(), 2);
    assert_eq!(DcFileType::MapFile.code(), 1);
    assert_eq!(DcFileType::PowerOff.code(), 6);
    let info = SshSessionInfo { id: 1, host: "h".to_string(), user: "u".to_string() };
    assert_eq!(info.id, 1);
    assert!(matches!(SshInput::Data(vec![1]), SshInput::Data(_)));
    assert!(matches!(SshInput::Close, SshInput::Close));
    assert_ne!(RoutingDirection::Local, RoutingDirection::InterCol);
}
