//! Verified core of hakai: the state machine of the interactive result list,
//! risk classification, profile handling and the decisions of the scanner,
//! the deleter and the IPC server.
pub mod cli;
pub mod clock;
pub mod config;
pub mod deleter;
pub mod headless;
pub mod ipc;
pub mod paths;
pub mod platform;
pub mod risk;
pub mod scanner;
pub mod sizer;
pub mod sorting;
pub mod text;
pub mod tui;
