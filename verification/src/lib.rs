//! Host-side library for the FBC burn-in system: the `.fbc` compressed
//! vector format, its compiler and decompiler, the `.fvec` text format, the
//! raw-Ethernet packet framing, the binary datalog and the small parsers
//! used by the host tools.

pub mod codec;
pub mod text;
pub mod vector;
pub mod crc;
pub mod types;
pub mod fbc_protocol;
pub mod cli;
pub mod cli_args;
pub mod datalog;
pub mod sonoma_regs;
pub mod gui;
pub mod sonoma_parse;
pub mod sonoma;
pub mod pip_db;
pub mod client;
