//! The unit in which a byte count or a byte rate is shown.
use vstd::prelude::*;

verus! {

pub const KIB: u64 = 1024;

pub const MIB: u64 = 1024 * 1024;

pub const GIB: u64 = 1024 * 1024 * 1024;

/// The binary unit in which a quantity of bytes is shown.
#[derive(Debug, Clone, Copy, PartialEq, Eq, Structural)]
pub enum ByteUnit {
    Gigabytes,
    Megabytes,
    Kilobytes,
    Bytes,
}

/// The largest unit of which `n` holds at least one: GiB, MiB, KiB, or
/// plain bytes.
pub open spec fn unit_of(n: u64) -> ByteUnit {
    if n >= GIB {
        ByteUnit::Gigabytes
    } else if n >= MIB {
        ByteUnit::Megabytes
    } else if n >= KIB {
        ByteUnit::Kilobytes
    } else {
        ByteUnit::Bytes
    }
}

/// The unit in which `n` bytes (or bytes per second) are shown; see
/// `unit_of`.
pub fn byte_unit(n: u64) -> (r: ByteUnit)
    ensures
        r == unit_of(n),
{
    if n >= GIB {
        ByteUnit::Gigabytes
    } else if n >= MIB {
        ByteUnit::Megabytes
    } else if n >= KIB {
        ByteUnit::Kilobytes
    } else {
        ByteUnit::Bytes
    }
}

/// A quantity shown in a unit holds at least one of it and fewer than 1024
/// of it (the gigabyte unit has no upper bound).
pub proof fn lemma_unit_range(n: u64)
    ensures
        unit_of(n) == ByteUnit::Bytes ==> n < 1024,
        unit_of(n) == ByteUnit::Kilobytes ==> KIB <= n < 1024 * KIB,
        unit_of(n) == ByteUnit::Megabytes ==> MIB <= n < 1024 * MIB,
        unit_of(n) == ByteUnit::Gigabytes ==> GIB <= n,
{
}

} // verus!
