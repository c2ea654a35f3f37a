//! The identity of the motherboard and of its firmware.
use vstd::prelude::*;
use crate::text::{trim, trimmed};

verus! {

/// Contains information relative to the installed bios
#[derive(Debug, Clone)]
pub struct Bios {
    pub vendor: String,
    pub release: String,
    pub version: String,
    pub date: String,
}

/// Contains information relative to the motherboard and the installed bios
#[derive(Debug, Clone)]
pub struct Motherboard {
    pub name: String,
    pub vendor: String,
    pub version: String,
    pub bios: Bios,
}

/// The description of the firmware, from the content of the four files
/// that the kernel keeps on it.
pub fn biosInfo(vendor: &str, release: &str, version: &str, date: &str) -> (bios: Bios)
    ensures
        bios.vendor@ == trim(vendor@),
        bios.release@ == trim(release@),
        bios.version@ == trim(version@),
        bios.date@ == trim(date@),
{
    Bios {
        vendor: trimmed(vendor),
        release: trimmed(release),
        version: trimmed(version),
        date: trimmed(date),
    }
}

/// The description of the motherboard, from the content of the three
/// files that the kernel keeps on it and the description of its firmware.
pub fn motherboardInfo(name: &str, vendor: &str, version: &str, bios: Bios) -> (board: Motherboard)
    ensures
        board.name@ == trim(name@),
        board.vendor@ == trim(vendor@),
        board.version@ == trim(version@),
        board.bios == bios,
{
    Motherboard { name: trimmed(name), version: trimmed(version), vendor: trimmed(vendor), bios: bios }
}

} // verus!
