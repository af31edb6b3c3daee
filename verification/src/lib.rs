//! The control plane of a small WiFi-to-wired router: the requests that
//! bring interface, packet filter, address translation and the DHCP and DNS
//! service into their posture, the watch that keeps the uplink connected,
//! and the registries of connection attempts and of devices.
//!
//! Nothing here runs a program, touches a file or sleeps. The library says
//! what is to be run or written, and reads what tools and files say; the
//! program around it does the running, the writing and the waiting.

pub mod api;
pub mod auth;
pub mod bandwidth;
pub mod clock;
pub mod command;
pub mod devices;
pub mod dhcp;
pub mod firewall;
pub mod history;
pub mod ip;
pub mod mac;
pub mod monitor;
pub mod network;
pub mod pty;
pub mod ranking;
pub mod table;
pub mod text;
pub mod vendor;
pub mod wifi;
