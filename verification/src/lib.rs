//! Portico: SSH port forwarding with a live monitor.
//!
//! The verified core holds the configuration model and its defaults, the
//! registry of servers and forwardings that the monitor keeps, the command
//! line that starts a tunnel, the reading of the kernel's socket tables into
//! the ports that processes listen on, the text of the status table and the
//! navigation of the terminal interface.

pub mod cli;
pub mod config;
pub mod monitor;
pub mod ssh;
pub mod text;
pub mod tui;
pub mod procnet;
