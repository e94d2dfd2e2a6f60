//! Pattern conversion: the codes of the converter engine and the
//! extraction of pin tables from engineers' files.

pub mod pc_ffi;
pub mod pin_extractor;
