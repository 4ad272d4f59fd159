//! Verified core of a daemon that watches per-device I/O counters and spins
//! down rotational disks that have been idle for a configured time.
//!
//! The library holds the activity-tracking ledger, the snapshot-line parser,
//! the per-device state machine, and the configuration-flag parser. All I/O
//! (reading the kernel counter file, issuing sync and spin-down commands)
//! lives outside the library and hands it plain byte lines.

pub mod app;
pub mod config;
pub mod device;
pub mod errors;
pub mod iomonitor;
pub mod mounts;
mod sys;
pub mod utils;

pub use sys::{classify_scsi_root, is_scsi, make_inplace_cstr, spec_cstr_ok, DeviceKindError};
