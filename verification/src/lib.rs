//! Verified core of an ESP32-C3 firmware that filters frames with a
//! hot-loaded XDP program, answers UDP datagrams and formats the log lines
//! that the XDP program asks for through its helper calls.

pub mod bounded;
pub mod firewall;
pub mod helper;
pub mod link;
pub mod loader;
pub mod message;
pub mod printk;
pub mod station;
pub mod udp;
