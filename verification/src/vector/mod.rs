//! The `.fbc` compressed vector format, the `.fvec` text format and the
//! compiler between them.

pub mod format;
pub mod fvec;
pub mod compiler;
pub mod roundtrip;
pub mod stats;
pub mod text_roundtrip;
pub mod pin_lists;
