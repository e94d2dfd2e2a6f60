//! Logic of the desktop front end: rack layout, board positions,
//! heartbeat packets, switch MAC tables, exports and pattern pin tables.

pub mod config;
pub mod position;
pub mod switch;
pub mod realtime;
pub mod export;
pub mod fbc;
pub mod state;
pub mod terminal;
pub mod sonoma;
pub mod commands;
pub mod firmware;
pub mod models;
pub mod database;
pub mod ssh;
pub mod pattern_converter;
