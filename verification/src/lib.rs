//! Read-only introspection of a host's hardware inventory: block-device
//! and partition topology with sector-accurate geometry and partition-table
//! classification, plus CPU, memory and mount-table views.
//!
//! Every function here is pure computation over plain values; callers read
//! the kernel-exposed files and raw device sectors themselves and hand the
//! bytes or text in.

pub mod cpu;
pub mod disks;
pub mod memory;
pub mod mount;
pub mod strutil;
pub mod units;
