//! FAT32 structures: directory records decoded from their on-disk 32-byte
//! layout, and the filesystem header with its validity checks and cluster
//! address arithmetic.
use vstd::prelude::*;

verus! {

/// Bytes per sector a valid filesystem must declare.
pub const EXPECTED_BYTES_PER_SECTOR: u16 = 512;
/// Number of file allocation tables a valid filesystem must have.
pub const EXPECTED_FATS: u8 = 2;
/// Signature that must close the header sector.
pub const EXPECTED_SIGNATURE: u16 = 0xAA55;

/// One directory record: the short name, the attribute byte, the two
/// halves of the first cluster number, and the file size.
#[derive(Debug, Clone, Copy)]
pub struct DirectoryRecord {
    pub short_filename: [u8; 11],
    pub attrib_byte: u8,
    pub cluster_high: u16,
    pub cluster_low: u16,
    pub file_size: u32,
}

impl DirectoryRecord {
    /// A record from its fields.
    pub fn new(
        short_filename: &[u8; 11],
        attrib_byte: u8,
        cluster_high: u16,
        cluster_low: u16,
        file_size: u32,
    ) -> (r: DirectoryRecord)
        ensures
            r.short_filename@ == short_filename@,
            r.attrib_byte == attrib_byte,
            r.cluster_high == cluster_high,
            r.cluster_low == cluster_low,
            r.file_size == file_size,
    {
        DirectoryRecord {
            short_filename: *short_filename,
            attrib_byte,
            cluster_high,
            cluster_low,
            file_size,
        }
    }

    /// A record decoded from its 32-byte on-disk form: name in the first
    /// eleven bytes, attribute byte next, cluster halves and file size at
    /// their fixed offsets.
    pub fn create_from_buffer(buffer: &[u8; 32]) -> (r: DirectoryRecord)
        ensures
            forall|i: int| 0 <= i < 11 ==> r.short_filename@[i] == buffer@[i],
            r.attrib_byte == buffer@[0x0B],
            r.cluster_high == (buffer@[0x14] as u16) * 256 + buffer@[0x15],
            r.cluster_low == (buffer@[0x1A] as u16) * 256 + buffer@[0x1B],
            r.file_size == ((buffer@[0x1C] as u32) << 24) | ((buffer@[0x1D] as u32) << 16) | ((
            buffer@[0x1E] as u32) << 8) | (buffer@[0x1F] as u32),
    {
        let name: [u8; 11] = [
            buffer[0],
            buffer[1],
            buffer[2],
            buffer[3],
            buffer[4],
            buffer[5],
            buffer[6],
            buffer[7],
            buffer[8],
            buffer[9],
            buffer[10],
        ];
        let ghost hi = buffer@[0x14] as u16;
        let ghost hi2 = buffer@[0x15] as u16;
        let ghost lo = buffer@[0x1A] as u16;
        let ghost lo2 = buffer@[0x1B] as u16;
        proof {
            assert(((hi << 8u16) | hi2) == hi * 256 + hi2) by (bit_vector)
                requires
                    hi <= 0xff,
                    hi2 <= 0xff,
            ;
            assert(((lo << 8u16) | lo2) == lo * 256 + lo2) by (bit_vector)
                requires
                    lo <= 0xff,
                    lo2 <= 0xff,
            ;
        }
        DirectoryRecord {
            short_filename: name,
            attrib_byte: buffer[0x0B],
            cluster_high: ((buffer[0x14] as u16) << 8) | (buffer[0x15] as u16),
            cluster_low: ((buffer[0x1A] as u16) << 8) | (buffer[0x1B] as u16),
            file_size: ((buffer[0x1C] as u32) << 24) | ((buffer[0x1D] as u32) << 16) | ((
            buffer[0x1E] as u32) << 8) | (buffer[0x1F] as u32),
        }
    }
}

/// A FAT32 filesystem header held in memory.
#[derive(Debug, Clone, Copy, PartialEq, Eq, Structural)]
pub struct Fat32 {
    pub first_sector: u64,
    pub bytes_per_sector: u16,
    pub sectors_per_cluster: u8,
    pub reserved_sectors: u16,
    pub fats: u8,
    pub sectors_per_fat: u32,
    pub root_cluster: u32,
    pub signature: u16,
}

impl Fat32 {
    /// A header from its fields.
    pub fn new(
        first_sector: u64,
        bytes_per_sector: u16,
        sectors_per_cluster: u8,
        reserved_sectors: u16,
        fats: u8,
        sectors_per_fat: u32,
        root_cluster: u32,
        signature: u16,
    ) -> (r: Fat32)
        ensures
            r == (Fat32 {
                first_sector,
                bytes_per_sector,
                sectors_per_cluster,
                reserved_sectors,
                fats,
                sectors_per_fat,
                root_cluster,
                signature,
            }),
    {
        Fat32 {
            first_sector,
            bytes_per_sector,
            sectors_per_cluster,
            reserved_sectors,
            fats,
            sectors_per_fat,
            root_cluster,
            signature,
        }
    }

    /// Whether the header is a valid FAT32 header: the expected sector
    /// size, number of tables, and closing signature, and nothing else.
    pub fn check_filesystem(&self) -> (r: bool)
        ensures
            r == (self.bytes_per_sector == EXPECTED_BYTES_PER_SECTOR && self.fats == EXPECTED_FATS
                && self.signature == EXPECTED_SIGNATURE),
    {
        self.bytes_per_sector == EXPECTED_BYTES_PER_SECTOR && self.fats == EXPECTED_FATS
            && self.signature == EXPECTED_SIGNATURE
    }

    /// The block address of a cluster; cluster numbering starts at two,
    /// at the first data sector.
    pub fn get_cluster_address(&self, cluster: u32) -> (r: u64)
        requires
            cluster >= 2,
            self.first_sector + (cluster - 2) * self.sectors_per_cluster <= u64::MAX,
        ensures
            r == self.first_sector + (cluster - 2) * self.sectors_per_cluster,
    {
        proof {
            assert((cluster - 2) as u64 * (self.sectors_per_cluster as u64) <= 0xffffffffu64
                * 0xff) by (nonlinear_arith)
                requires
                    cluster >= 2,
            ;
        }
        self.first_sector as u64 + (cluster as u64 - 2) * (self.sectors_per_cluster as u64)
    }

    /// The block address the root directory listing starts at.
    pub fn list_root(&self) -> (r: u64)
        requires
            self.root_cluster >= 2,
            self.first_sector + (self.root_cluster - 2) * self.sectors_per_cluster <= u64::MAX,
        ensures
            r == self.first_sector + (self.root_cluster - 2) * self.sectors_per_cluster,
    {
        self.get_cluster_address(self.root_cluster)
    }
}

} // verus!
