//! Configuration-space address arithmetic and the device table.  Reading
//! the configuration ports to enumerate the bus is machine access and
//! stays outside the library; the address words and the decoding of what
//! comes back are computed and stated here.
use vstd::prelude::*;

verus! {

/// The configuration-space address port.
pub const PCI_ADDRESS_PORT: u16 = 0xCF8;
/// The configuration-space data port.
pub const PCI_DATA_PORT: u16 = 0xCFC;

/// Where a device sits: bus, device and function numbers.
#[derive(Debug, Clone, Copy, PartialEq, Eq, Structural)]
pub struct PciAddress {
    pub bus: u32,
    pub device: u32,
    pub function: u32,
}

impl PciAddress {
    /// An address from its elements.
    pub fn new(bus: u32, device: u32, function: u32) -> (r: PciAddress)
        ensures
            r == (PciAddress { bus, device, function }),
    {
        PciAddress { bus, device, function }
    }
}

/// The address word selecting one aligned configuration register of one
/// device function.
pub fn config_address(bus: u32, device: u32, function: u32, offset: u32) -> (r: u32)
    ensures
        r == (1u32 << 31) | (bus << 16) | (device << 11) | (function << 8) | (offset & 0xFC),
{
    (1u32 << 31) | (bus << 16) | (device << 11) | (function << 8) | (offset & 0xFC)
}

/// The class code, subclass code and programming interface packed into
/// the class register, top to bottom.
pub fn decode_class_codes(word: u32) -> (r: (u32, u32, u32))
    ensures
        r.0 == word >> 24,
        r.1 == (word >> 16) & 0xFF,
        r.2 == (word >> 8) & 0xFF,
{
    (word >> 24, (word >> 16) & 0xFF, (word >> 8) & 0xFF)
}

/// The bus controller's view: the addresses of the devices found during
/// enumeration.
#[derive(Debug)]
pub struct Pci {
    pub addresses: Vec<PciAddress>,
}

impl Pci {
    /// A controller that has found no devices yet.
    pub fn new() -> (r: Pci)
        ensures
            r.addresses@.len() == 0,
    {
        Pci { addresses: Vec::new() }
    }

    /// Record a discovered device.
    pub fn record_device(&mut self, address: PciAddress)
        ensures
            final(self).addresses@ == old(self).addresses@.push(address),
    {
        self.addresses.push(address);
    }
}

} // verus!
