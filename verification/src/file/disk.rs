//! The ATA disk driver's register layout and command arithmetic.  The
//! driver computes which value goes to which port; performing the port
//! access itself is machine access and stays outside the library.
use vstd::prelude::*;

verus! {

/// One value to write to one port.
#[derive(Debug, Clone, Copy, PartialEq, Eq, Structural)]
pub struct PortWrite {
    pub port: u16,
    pub value: u16,
}

/// Ports of the ATA register block, derived from the two base addresses.
#[derive(Debug, Clone, Copy, PartialEq, Eq, Structural)]
pub struct AtaRegisters {
    pub data: u16,
    pub error: u16,
    pub sector_count: u16,
    pub lba_low: u16,
    pub lba_mid: u16,
    pub lba_high: u16,
    pub drive: u16,
    pub command: u16,
    pub control: u16,
}

impl AtaRegisters {
    /// The register ports at their conventional offsets from the bases.
    pub fn new(bar0: u16, bar1: u16) -> (r: AtaRegisters)
        requires
            bar0 + 7 <= u16::MAX,
            bar1 + 2 <= u16::MAX,
        ensures
            r.data == bar0,
            r.error == bar0 + 1,
            r.sector_count == bar0 + 2,
            r.lba_low == bar0 + 3,
            r.lba_mid == bar0 + 4,
            r.lba_high == bar0 + 5,
            r.drive == bar0 + 6,
            r.command == bar0 + 7,
            r.control == bar1 + 2,
    {
        AtaRegisters {
            data: bar0,
            error: bar0 + 1,
            sector_count: bar0 + 2,
            lba_low: bar0 + 3,
            lba_mid: bar0 + 4,
            lba_high: bar0 + 5,
            drive: bar0 + 6,
            command: bar0 + 7,
            control: bar1 + 2,
        }
    }
}

/// A disk driver instance: the device's class identification, its base
/// address registers, and the derived ATA register ports.
#[derive(Debug, Clone, Copy, PartialEq, Eq, Structural)]
pub struct DiskDriver {
    pub class: u32,
    pub subclass: u32,
    pub programming_interface: u32,
    pub bar0: u32,
    pub bar1: u32,
    pub bar2: u32,
    pub bar3: u32,
    pub bar4: u32,
    pub bar5: u32,
    pub regs: AtaRegisters,
}

impl DiskDriver {
    /// A driver over the given identification and base addresses; the
    /// register ports derive from the low halves of the first two bases.
    pub fn new(
        class: u32,
        subclass: u32,
        programming_interface: u32,
        bar0: u32,
        bar1: u32,
        bar2: u32,
        bar3: u32,
        bar4: u32,
        bar5: u32,
    ) -> (r: DiskDriver)
        requires
            bar0 % 0x10000 + 7 <= u16::MAX,
            bar1 % 0x10000 + 2 <= u16::MAX,
        ensures
            r.class == class,
            r.subclass == subclass,
            r.programming_interface == programming_interface,
            r.bar0 == bar0,
            r.bar1 == bar1,
            r.bar2 == bar2,
            r.bar3 == bar3,
            r.bar4 == bar4,
            r.bar5 == bar5,
            r.regs.data == bar0 % 0x10000,
            r.regs.error == bar0 % 0x10000 + 1,
            r.regs.sector_count == bar0 % 0x10000 + 2,
            r.regs.lba_low == bar0 % 0x10000 + 3,
            r.regs.lba_mid == bar0 % 0x10000 + 4,
            r.regs.lba_high == bar0 % 0x10000 + 5,
            r.regs.drive == bar0 % 0x10000 + 6,
            r.regs.command == bar0 % 0x10000 + 7,
            r.regs.control == bar1 % 0x10000 + 2,
    {
        proof {
            assert(bar0 as u16 == bar0 % 0x10000) by (bit_vector);
            assert(bar1 as u16 == bar1 % 0x10000) by (bit_vector);
        }
        DiskDriver {
            class,
            subclass,
            programming_interface,
            bar0,
            bar1,
            bar2,
            bar3,
            bar4,
            bar5,
            regs: AtaRegisters::new(bar0 as u16, bar1 as u16),
        }
    }

    /// The drive-select write for a block address: master drive, the
    /// address's head bits in the low nibble.
    pub fn select_drive(&self, lba: u64) -> (r: PortWrite)
        ensures
            r.port == self.regs.drive,
            r.value == 0xE0u64 | ((lba & 0xF000000) >> 24),
    {
        let head = ((lba & 0xF000000) >> 24) as u16;
        proof {
            assert((lba & 0xF000000) >> 24 <= 0xF) by (bit_vector);
            assert((0xE0u64 | ((lba & 0xF000000) >> 24)) == 0xE0 + ((lba & 0xF000000) >> 24))
                by (bit_vector);
        }
        PortWrite { port: self.regs.drive, value: 0xE0 + head }
    }

    /// The three writes that load a 24-bit block address into the
    /// address registers, low byte first.
    pub fn set_lba(&self, lba: u64) -> (r: (PortWrite, PortWrite, PortWrite))
        ensures
            r.0 == (PortWrite { port: self.regs.lba_low, value: (lba & 0xFF) as u16 }),
            r.1 == (PortWrite { port: self.regs.lba_mid, value: ((lba & 0xFF00) >> 8) as u16 }),
            r.2 == (PortWrite { port: self.regs.lba_high, value: ((lba & 0xFF0000) >> 16) as u16 }),
    {
        proof {
            assert(lba & 0xFF <= 0xFF) by (bit_vector);
            assert((lba & 0xFF00) >> 8 <= 0xFF) by (bit_vector);
            assert((lba & 0xFF0000) >> 16 <= 0xFF) by (bit_vector);
        }
        (
            PortWrite { port: self.regs.lba_low, value: (lba & 0xFF) as u16 },
            PortWrite { port: self.regs.lba_mid, value: ((lba & 0xFF00) >> 8) as u16 },
            PortWrite { port: self.regs.lba_high, value: ((lba & 0xFF0000) >> 16) as u16 },
        )
    }

    /// The write that loads the sector count register.
    pub fn set_sector_count(&self, sectors: u8) -> (r: PortWrite)
        ensures
            r.port == self.regs.sector_count,
            r.value == sectors,
    {
        PortWrite { port: self.regs.sector_count, value: sectors as u16 }
    }

    /// The writes a sector write issues before the data transfer: the
    /// block address loaded into the address registers.
    pub fn write_sector(&self, lba: u64) -> (r: (PortWrite, PortWrite, PortWrite))
        ensures
            r == self.set_lba_spec(lba),
    {
        self.set_lba(lba)
    }

    /// What `set_lba` computes, as a spec-level value.
    pub open spec fn set_lba_spec(self, lba: u64) -> (PortWrite, PortWrite, PortWrite) {
        (
            PortWrite { port: self.regs.lba_low, value: (lba & 0xFF) as u16 },
            PortWrite { port: self.regs.lba_mid, value: ((lba & 0xFF00) >> 8) as u16 },
            PortWrite { port: self.regs.lba_high, value: ((lba & 0xFF0000) >> 16) as u16 },
        )
    }

    /// Base address of the master bus ports, used for a bus-master
    /// sector write.
    pub fn master_write_sector(&self) -> (r: u32)
        ensures
            r == self.bar4 & 0xFFFFFF00,
    {
        self.bar4 & 0xFFFFFF00
    }

    /// Base address of the master bus ports, used for a bus-master
    /// sector read.
    pub fn master_read_sector(&self) -> (r: u32)
        ensures
            r == self.bar4 & 0xFFFFFF00,
    {
        self.bar4 & 0xFFFFFF00
    }
}

} // verus!
