//! Records and codes of the lab's database engine.

use vstd::prelude::*;

verus! {

/// The engine's success code.
pub const LRM_OK: i32 = 0;
/// A general failure.
pub const LRM_ERR: i32 = -1;
/// The record was not found.
pub const LRM_NOT_FOUND: i32 = -2;
/// The record exists already.
pub const LRM_EXISTS: i32 = -3;

/// The answer to a query: its rows as JSON text, and how many rows.
#[derive(Debug, Clone)]
pub struct QueryResult {
    pub json: String,
    pub count: usize,
}

/// A controller's status as the engine stores it.
#[derive(Debug, Clone, Copy, PartialEq, Eq, Structural)]
pub enum ControllerStatus {
    Offline,
    Online,
    Testing,
    Error,
}

impl ControllerStatus {
    /// The number the engine stores.
    pub open spec fn code_spec(self) -> i32 {
        match self {
            ControllerStatus::Offline => 0,
            ControllerStatus::Online => 1,
            ControllerStatus::Testing => 2,
            ControllerStatus::Error => 3,
        }
    }

    /// The number the engine stores.
    pub fn code(self) -> (r: i32)
        ensures
            r == self.code_spec(),
    {
        match self {
            ControllerStatus::Offline => 0,
            ControllerStatus::Online => 1,
            ControllerStatus::Testing => 2,
            ControllerStatus::Error => 3,
        }
    }
}

/// A lot's step as the engine stores it.
#[derive(Debug, Clone, Copy, PartialEq, Eq, Structural)]
pub enum LotStep {
    Received,
    Setup,
    Loading,
    BurnIn,
    Readpoint,
    Unloading,
    Shipping,
    Complete,
}

impl LotStep {
    /// The number the engine stores: the step's place in the flow.
    pub open spec fn code_spec(self) -> i32 {
        match self {
            LotStep::Received => 0,
            LotStep::Setup => 1,
            LotStep::Loading => 2,
            LotStep::BurnIn => 3,
            LotStep::Readpoint => 4,
            LotStep::Unloading => 5,
            LotStep::Shipping => 6,
            LotStep::Complete => 7,
        }
    }

    /// The number the engine stores.
    pub fn code(self) -> (r: i32)
        ensures
            r == self.code_spec(),
    {
        match self {
            LotStep::Received => 0,
            LotStep::Setup => 1,
            LotStep::Loading => 2,
            LotStep::BurnIn => 3,
            LotStep::Readpoint => 4,
            LotStep::Unloading => 5,
            LotStep::Shipping => 6,
            LotStep::Complete => 7,
        }
    }
}

} // verus!
