//! The opened hardware-monitor handle.
//!
//! Opening a monitor directory is the caller's concern; what this core
//! keeps of it is the card it belongs to and the two eligibility facts
//! read once at open time: whether the device's vendor is the target
//! manufacturer and whether the monitor reports the target interface
//! name.  Keeping both, rather than one combined flag, leaves visible
//! *why* a device was excluded.

use vstd::prelude::*;

use crate::device::Card;

verus! {

/// One successfully opened monitor interface and its eligibility facts.
#[derive(Clone, Copy, Debug, PartialEq, Eq, Structural)]
pub struct HwMon {
    pub card: Card,
    pub amd_vendor: bool,
    pub amd_name: bool,
}

impl HwMon {
    pub fn new(card: Card, amd_vendor: bool, amd_name: bool) -> (r: HwMon)
        ensures
            r == (HwMon { card, amd_vendor, amd_name }),
    {
        HwMon { card, amd_vendor, amd_name }
    }

    /// The device's vendor is the target manufacturer.
    pub fn is_amd(&self) -> (r: bool)
        ensures
            r == self.amd_vendor,
    {
        self.amd_vendor
    }

    /// The monitor's self-reported name is the target interface name.
    pub fn name_is_amd(&self) -> (r: bool)
        ensures
            r == self.amd_name,
    {
        self.amd_name
    }
}

} // verus!
