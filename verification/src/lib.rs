//! Hotkey killswitch: key-name parsing, key bitmaps and the switch's decision logic.
pub mod text;
pub mod keys;
pub mod bitmap;
pub mod switch;
pub mod hooks;
pub mod ledger;
pub mod linux;
pub mod cli;
