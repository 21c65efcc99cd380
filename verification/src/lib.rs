//! A terminal typing trainer's core: settings validation, the typing session
//! state machine, word pools, screen navigation and result bookkeeping.

pub mod config;
pub mod random;
pub mod words;
pub mod session;
pub mod mistakes;
pub mod ui;
pub mod flow;
pub mod history;
pub mod jsonl;
