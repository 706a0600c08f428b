//! Scan-and-dispatch engine of a fifty-key macro keypad wired as a button
//! matrix.
//!
//! One poll cycle goes through three steps. A [`scan::ScanPass`] says which
//! pin to drive or read next and gathers the keys found closed. The
//! [`detect::diff`] of that set against the one of the cycle before gives the
//! keys that went down and up. [`dispatch::key_pressed`] and
//! [`dispatch::key_released`] turn each of them into requests for the input
//! sink, by the action table of the layer in force, and switch the layers.
//! [`engine::Keypad::cycle`] runs the last two steps and keeps what is
//! remembered between cycles.
//!
//! The library touches neither pins nor input devices: it is handed levels
//! and hands back requests.

pub mod action;
pub mod detect;
pub mod dispatch;
pub mod engine;
pub mod keyset;
pub mod layout;
pub mod mode;
pub mod scan;
pub mod table;
