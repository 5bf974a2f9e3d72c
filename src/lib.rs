//! Wireless network control: scan-output parsers for two command-line tools,
//! and the decisions of the connection controller.

pub mod control;
pub mod model;
pub mod netsh;
pub mod nmcli;
pub mod text;
