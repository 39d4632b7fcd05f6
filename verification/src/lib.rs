//! Clipboard history manager: the verified core.
//!
//! `storage` holds the clipboard history and the settings table, `clipboard`
//! the platform monitors' change detection, `capture` the rules that turn a
//! captured clipboard value into a history record, `paste` what pasting a
//! record writes back, `text` the string helpers those rules are written
//! with, and `laws` the properties that span several operations.

pub mod storage;
pub mod text;
pub mod clipboard;
pub mod capture;
pub mod paste;
pub mod laws;

