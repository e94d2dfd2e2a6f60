//! Codes that the pattern converter and the device configuration
//! generator engines take.

use vstd::prelude::*;

verus! {

/// The format of a pattern file to convert.
#[derive(Debug, Clone, Copy, PartialEq, Eq, Structural)]
pub enum InputFormat {
    Auto,
    Atp,
    Stil,
    Avc,
}

impl InputFormat {
    /// The engine's number for the format.
    pub fn code(self) -> (r: i32)
        ensures
            r == match self {
                InputFormat::Auto => 0i32,
                InputFormat::Atp => 1,
                InputFormat::Stil => 2,
                InputFormat::Avc => 3,
            },
    {
        match self {
            InputFormat::Auto => 0,
            InputFormat::Atp => 1,
            InputFormat::Stil => 2,
            InputFormat::Avc => 3,
        }
    }
}

/// A file the device configuration generator writes.
#[derive(Debug, Clone, Copy, PartialEq, Eq, Structural)]
pub enum DcFileType {
    PinMap,
    /// The `.map` file (`Map` in the engine's naming).
    MapFile,
    Lvl,
    Tim,
    Tp,
    PowerOn,
    PowerOff,
}

impl DcFileType {
    /// The engine's number for the file.
    pub fn code(self) -> (r: i32)
        ensures
            r == match self {
                DcFileType::PinMap => 0i32,
                DcFileType::MapFile => 1,
                DcFileType::Lvl => 2,
                DcFileType::Tim => 3,
                DcFileType::Tp => 4,
                DcFileType::PowerOn => 5,
                DcFileType::PowerOff => 6,
            },
    {
        match self {
            DcFileType::PinMap => 0,
            DcFileType::MapFile => 1,
            DcFileType::Lvl => 2,
            DcFileType::Tim => 3,
            DcFileType::Tp => 4,
            DcFileType::PowerOn => 5,
            DcFileType::PowerOff => 6,
        }
    }
}

} // verus!
