//! The verified core of RustyTools, a network diagnostics toolkit.

pub mod arp;
pub mod commands;
pub mod csv;
pub mod dns;
pub mod echo;
pub mod ip;
pub mod mac;
pub mod netconfig;
pub mod order;
pub mod ping;
pub mod session;
pub mod source;
pub mod stats;
pub mod subnets;
pub mod text;
pub mod traceroute;
pub mod units;
pub mod util;
pub mod vendors;
pub mod view;
