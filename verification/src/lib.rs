//! A verified netlink protocol core for a Linux host-metrics exporter.
//!
//! The library builds byte-exact netlink request messages, decodes
//! type-length-value attribute streams, reassembles multi-message dump
//! responses, and turns kernel replies into plain counter samples for the
//! connection-tracking and ethtool subsystems.  All socket I/O lives outside
//! the library; every function here is pure computation over byte buffers
//! and plain values.

pub mod codec;
pub mod conntrack;
pub mod dump;
pub mod edac;
pub mod error;
pub mod ethtool;
pub mod hwmon;
pub mod message;
pub mod numa;
pub mod nvme;
pub mod runtime;
pub mod strutil;
pub mod textparse;
pub mod wire;
