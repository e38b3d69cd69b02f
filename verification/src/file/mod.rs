//! Device and filesystem support: bus probing arithmetic, the ATA disk
//! command layout, FAT32 structures, file metadata, and pipes.

pub mod bus;
pub mod disk;
pub mod fat32;
pub mod fs;
pub mod pci;
pub mod pipe;
