//! Bus enumeration arithmetic: building configuration-space addresses
//! for device probing.  Reading and writing the configuration ports is
//! machine access and stays outside the library.
use vstd::prelude::*;

verus! {

/// A configuration-space address, element by element.
#[derive(Debug, Clone, Copy, PartialEq, Eq, Structural)]
pub struct PciAddress {
    pub bus_number: u32,
    pub device_number: u32,
    pub function_number: u32,
    pub register_number: u32,
}

impl PciAddress {
    /// An address from its elements.
    pub fn new(bus_number: u32, device_number: u32, function_number: u32, register_number: u32)
        -> (r: PciAddress)
        ensures
            r == (PciAddress { bus_number, device_number, function_number, register_number }),
    {
        PciAddress { bus_number, device_number, function_number, register_number }
    }

    /// The packed 32-bit address word: enable bit on top, then bus,
    /// device, function and register fields.
    pub fn create_address(&self) -> (r: u32)
        ensures
            r == (1u32 << 31) | (self.bus_number << 16) | (self.device_number << 11) | (
            self.function_number << 8) | (self.register_number << 2),
    {
        (1u32 << 31) | (self.bus_number << 16) | (self.device_number << 11) | (
        self.function_number << 8) | (self.register_number << 2)
    }
}

/// The address word probed to test whether a device is present at the
/// given bus, device and function, register zero.
pub fn device_probe_address(bus: u32, device: u32, function: u32) -> (r: u32)
    ensures
        r == (1u32 << 31) | (bus << 16) | (device << 11) | (function << 8),
{
    (1u32 << 31) | (bus << 16) | (device << 11) | (function << 8)
}

} // verus!
