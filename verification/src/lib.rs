//! Touch 'n Drink: the verified core of a club drink purchase terminal.

pub mod hex;
pub mod digest;
pub mod text;
pub mod json;
pub mod nfc;
pub mod vereinsflieger;
pub mod user;
pub mod reader;
pub mod pn532;
pub mod ota;
pub mod article;
pub mod schedule;
pub mod telemetry;
pub mod util;
pub mod error;
pub mod mixpanel;
pub mod xtask;
pub mod config;
pub mod ui;
pub mod wifi;
pub mod time;
