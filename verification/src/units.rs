//! Byte and bitrate unit constants, and conversions between a base unit
//! and its decimal (SI) or binary (IEC) multiples.

use vstd::prelude::*;

verus! {

pub const B: u64 = 1;

pub const KB: u64 = 1000 * B;

pub const MB: u64 = 1000 * KB;

pub const GB: u64 = 1000 * MB;

pub const TB: u64 = 1000 * GB;

pub const PB: u64 = 1000 * TB;

pub const EB: u64 = 1000 * PB;

pub const KIB: u64 = 1024 * B;

pub const MIB: u64 = 1024 * KIB;

pub const GIB: u64 = 1024 * MIB;

pub const TIB: u64 = 1024 * GIB;

pub const PIB: u64 = 1024 * TIB;

pub const EIB: u64 = 1024 * PIB;

pub const BPS: u64 = 1;

pub const KBPS: u64 = 1000 * BPS;

pub const MBPS: u64 = 1000 * KBPS;

pub const GBPS: u64 = 1000 * MBPS;

pub const TBPS: u64 = 1000 * GBPS;

pub const PBPS: u64 = 1000 * TBPS;

pub const EBPS: u64 = 1000 * PBPS;

pub const KIBPS: u64 = 1024 * BPS;

pub const MIBPS: u64 = 1024 * KIBPS;

pub const GIBPS: u64 = 1024 * MIBPS;

pub const TIBPS: u64 = 1024 * GIBPS;

pub const PIBPS: u64 = 1024 * TIBPS;

pub const EIBPS: u64 = 1024 * PIBPS;

/// Whole number of binary kilobits per second in `bps`, rounded down.
pub fn bps_to_kibps(bps: u64) -> (r: u64)
    ensures
        r == bps / KIBPS,
{
    bps / KIBPS
}

/// Whole number of binary megabits per second in `bps`, rounded down.
pub fn bps_to_mibps(bps: u64) -> (r: u64)
    ensures
        r == bps / MIBPS,
{
    bps / MIBPS
}

/// Whole number of binary gigabits per second in `bps`, rounded down.
pub fn bps_to_gibps(bps: u64) -> (r: u64)
    ensures
        r == bps / GIBPS,
{
    bps / GIBPS
}

/// Whole number of binary terabits per second in `bps`, rounded down.
pub fn bps_to_tibps(bps: u64) -> (r: u64)
    ensures
        r == bps / TIBPS,
{
    bps / TIBPS
}

/// Whole number of binary petabits per second in `bps`, rounded down.
pub fn bps_to_pibps(bps: u64) -> (r: u64)
    ensures
        r == bps / PIBPS,
{
    bps / PIBPS
}

/// Whole number of binary exabits per second in `bps`, rounded down.
pub fn bps_to_eibps(bps: u64) -> (r: u64)
    ensures
        r == bps / EIBPS,
{
    bps / EIBPS
}

/// Binary kilobits per second expressed as bits per second.
pub fn kibps_to_bps(kibps: u64) -> (r: u64)
    requires
        kibps * KIBPS <= u64::MAX,
    ensures
        r == kibps * KIBPS,
{
    kibps * KIBPS
}

/// Binary megabits per second expressed as bits per second.
pub fn mibps_to_bps(mibps: u64) -> (r: u64)
    requires
        mibps * MIBPS <= u64::MAX,
    ensures
        r == mibps * MIBPS,
{
    mibps * MIBPS
}

/// Binary gigabits per second expressed as bits per second.
pub fn gibps_to_bps(gibps: u64) -> (r: u64)
    requires
        gibps * GIBPS <= u64::MAX,
    ensures
        r == gibps * GIBPS,
{
    gibps * GIBPS
}

/// Binary terabits per second expressed as bits per second.
pub fn tibps_to_bps(tibps: u64) -> (r: u64)
    requires
        tibps * TIBPS <= u64::MAX,
    ensures
        r == tibps * TIBPS,
{
    tibps * TIBPS
}

/// Binary petabits per second expressed as bits per second.
pub fn pibps_to_bps(pibps: u64) -> (r: u64)
    requires
        pibps * PIBPS <= u64::MAX,
    ensures
        r == pibps * PIBPS,
{
    pibps * PIBPS
}

/// Binary exabits per second expressed as bits per second.
pub fn eibps_to_bps(eibps: u64) -> (r: u64)
    requires
        eibps * EIBPS <= u64::MAX,
    ensures
        r == eibps * EIBPS,
{
    eibps * EIBPS
}

} // verus!
