//! Device support: pipes over the ring buffer, bus address arithmetic,
//! disk command layout, filesystem structures, errors, times, vectors.
use kernel_core::error::error::Error as Errno;
use kernel_core::error::Error;
use kernel_core::file::bus;
use kernel_core::file::disk::DiskDriver;
use kernel_core::file::fat32::DirectoryRecord;
use kernel_core::file::fat32::Fat32;
use kernel_core::file::fs::Stat;
use kernel_core::file::pci;
use kernel_core::file::pipe::Pipe;
use kernel_core::gdt;
use kernel_core::interrupts::InterruptIndex;
use kernel_core::time::clock::now;
use kernel_core::time::timestruct::TimeSpec;

#[test]
fn pipe_write_then_read_round_trip() {
    let mut p = Pipe::new(16);
    let (n, blocked) = p.write(b"hello");
    assert_eq!((n, blocked), (5, false));
    let mut out = vec![0u8; 5];
    let (m, rblocked) = p.read(&mut out);
    assert_eq!((m, rblocked), (5, false));
    assert_eq!(&out, b"hello");
}

#[test]
fn pipe_blocks_writer_when_full() {
    let mut p = Pipe::new(4);
    let (n, blocked) = p.write(b"abcdef");
    assert_eq!(n, 4);
    assert!(blocked);
    assert!(p.w_lock);
    let mut out = vec![0u8; 6];
    let (m, _) = p.read(&mut out);
    assert_eq!(m, 4);
    assert_eq!(&out[..4], b"abcd");
    assert!(!p.w_lock);
}

#[test]
fn pipe_blocks_reader_when_empty() {
    let mut p = Pipe::new(4);
    let mut out = vec![0u8; 4];
    let (m, blocked) = p.read(&mut out);
    assert_eq!(m, 0);
    assert!(blocked);
    assert!(p.r_lock);
    p.write(b"x");
    assert!(!p.r_lock);
}

#[test]
fn pipe_short_read_leaves_the_rest() {
    let mut p = Pipe::new(8);
    p.write(b"abcdef");
    let mut out = vec![0u8; 2];
    let (m, _) = p.read(&mut out);
    assert_eq!(m, 2);
    assert_eq!(&out, b"ab");
    let mut rest = vec![0u8; 8];
    let (m2, _) = p.read(&mut rest);
    assert_eq!(m2, 4);
    assert_eq!(&rest[..4], b"cdef");
}

#[test]
fn bus_address_packing() {
    let a = bus::PciAddress::new(1, 2, 3, 4);
    assert_eq!(a.create_address(), (1 << 31) | (1 << 16) | (2 << 11) | (3 << 8) | (4 << 2));
    assert_eq!(bus::device_probe_address(0, 0, 0), 1 << 31);
    assert_eq!(
        bus::device_probe_address(255, 31, 7),
        (1u32 << 31) | (255 << 16) | (31 << 11) | (7 << 8)
    );
}

#[test]
fn pci_config_addresses_and_classes() {
    assert_eq!(pci::config_address(0, 1, 0, 0x8), (1u32 << 31) | (1 << 11) | 0x8);
    // the low offset bits are masked to the aligned register
    assert_eq!(pci::config_address(0, 0, 0, 0xFF), (1u32 << 31) | 0xFC);
    let (class, subclass, pi) = pci::decode_class_codes(0x0101_8000);
    assert_eq!((class, subclass, pi), (1, 1, 0x80));
    let mut p = pci::Pci::new();
    p.record_device(pci::PciAddress::new(0, 3, 0));
    assert_eq!(p.addresses.len(), 1);
    assert_eq!(p.addresses[0].device, 3);
}

#[test]
fn disk_register_layout_and_commands() {
    let d = DiskDriver::new(1, 1, 0, 0x1F0, 0x3F6, 0x170, 0x376, 0, 0);
    assert_eq!(d.regs.data, 0x1F0);
    assert_eq!(d.regs.command, 0x1F7);
    assert_eq!(d.regs.control, 0x3F8);
    let sel = d.select_drive(0x0700_0000);
    assert_eq!(sel.port, 0x1F6);
    assert_eq!(sel.value, 0xE7);
    let (lo, mid, hi) = d.set_lba(0x00AB_CDEF);
    assert_eq!((lo.port, lo.value), (0x1F3, 0xEF));
    assert_eq!((mid.port, mid.value), (0x1F4, 0xCD));
    assert_eq!((hi.port, hi.value), (0x1F5, 0xAB));
    let sc = d.set_sector_count(9);
    assert_eq!((sc.port, sc.value), (0x1F2, 9));
    assert_eq!(d.master_read_sector(), 0);
    let d2 = DiskDriver::new(1, 1, 0, 0x1F0, 0x3F6, 0, 0, 0xC123, 0);
    assert_eq!(d2.master_write_sector(), 0xC100);
}

#[test]
fn fat32_header_validation() {
    let good = Fat32::new(0, 512, 3, 0x20, 2, 20, 0x2, 0xAA55);
    assert!(good.check_filesystem());
    let bad_sector = Fat32::new(0, 1024, 3, 0x20, 2, 20, 0x2, 0xAA55);
    assert!(!bad_sector.check_filesystem());
    let bad_fats = Fat32::new(0, 512, 3, 0x20, 1, 20, 0x2, 0xAA55);
    assert!(!bad_fats.check_filesystem());
    let bad_signature = Fat32::new(0, 512, 3, 0x20, 2, 20, 0x2, 0x1234);
    assert!(!bad_signature.check_filesystem());
}

#[test]
fn fat32_cluster_addresses() {
    let fs = Fat32::new(100, 512, 8, 0x20, 2, 20, 2, 0xAA55);
    assert_eq!(fs.get_cluster_address(2), 100);
    assert_eq!(fs.get_cluster_address(5), 100 + 3 * 8);
    assert_eq!(fs.list_root(), 100);
}

#[test]
fn directory_record_decoding() {
    let mut buffer = [0u8; 32];
    buffer[..11].copy_from_slice(b"HELLO   TXT");
    buffer[0x0B] = 0x20;
    buffer[0x14] = 0x12;
    buffer[0x15] = 0x34;
    buffer[0x1A] = 0x56;
    buffer[0x1B] = 0x78;
    buffer[0x1C] = 0x01;
    buffer[0x1D] = 0x02;
    buffer[0x1E] = 0x03;
    buffer[0x1F] = 0x04;
    let r = DirectoryRecord::create_from_buffer(&buffer);
    assert_eq!(&r.short_filename, b"HELLO   TXT");
    assert_eq!(r.attrib_byte, 0x20);
    assert_eq!(r.cluster_high, 0x1234);
    assert_eq!(r.cluster_low, 0x5678);
    assert_eq!(r.file_size, 0x01020304);
    let r2 = DirectoryRecord::new(b"A          ", 1, 2, 3, 4);
    assert_eq!(r2.file_size, 4);
}

#[test]
fn error_numbers() {
    assert_eq!(Errno::new(5).errno, 5);
    assert_eq!(kernel_core::error::error::EPERM, 1);
    assert_eq!(kernel_core::error::error::EHWPOISON, 133);
    assert_eq!(kernel_core::error::error::EWOULDBLOCK, kernel_core::error::error::EAGAIN);
    assert_eq!(Error::PERM.errno(), 1);
    assert_eq!(Error::NOMEM.errno(), 12);
    // the enum has no variants for the two aliased codes, so its
    // numbering runs two short of the named constants by the end
    assert_eq!(Error::HWPOISON.errno(), 131);
}

#[test]
fn times_and_vectors_and_selectors() {
    assert_eq!(now(), TimeSpec::empty());
    assert_eq!(TimeSpec::new(3, 7), TimeSpec { tv_sec: 3, tv_nsec: 7 });
    assert_eq!(TimeSpec::default(), TimeSpec::empty());
    assert_eq!(Stat::default().st_size, 0);
    assert_eq!(InterruptIndex::Timer.vector(), 32);
    assert_eq!(InterruptIndex::Keyboard.vector(), 33);
    assert_eq!(gdt::get_kernel_segments(), (0x08, 0x10));
    assert_eq!(gdt::get_user_segments(), (0x2b, 0x33));
    let mut tss = gdt::TaskStateSegment::new();
    gdt::set_interrupt_stack_table(&mut tss, 1, 0xFEED_0000);
    assert_eq!(tss.interrupt_stack_table[1], 0xFEED_0000);
    assert_eq!(tss.interrupt_stack_table[0], 0);
}
