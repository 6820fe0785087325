use unikernel::fw_cfg::{find_file, is_present, name_matches, read, MemFwCfg};
use unikernel::idt::{idt_table, pic_init_sequence, vector_stub, IdtEntry, Stub, StubAddrs};
use unikernel::pci::{find, make_address, read16, read32, read8, MemConfigSpace};
use unikernel::rtc::{bcd_to_bin, read_unix_timestamp, RtcRegs};
use unikernel::serial::{print, print_hex, print_usize, usize_decimal, SerialLog};
use unikernel::timer::{count_after_tick, now_ms, pit_sequence, sleep_deadline, sleep_over, TickCounter};
use unikernel::virtio::{
    avail_offset, bar_addr, blk_descriptor_chain, blk_request_header, encode_descriptor,
    find_cap, io_bar_base, queue_mem_size, used_offset,
};
use unikernel::virtq::{blk_status_ok, used_entry_offset, used_idx_offset, VirtioBlkDev, VirtioNetDev};

// ─── PCI ────────────────────────────────────────────────────────────

#[test]
fn config_addresses() {
    assert_eq!(make_address(0, 0, 0, 0), 0x8000_0000);
    assert_eq!(make_address(1, 3, 2, 0x13), 0x8000_0000 | (1 << 16) | (3 << 11) | (2 << 8) | 0x10);
}

fn with_device(cs: &mut MemConfigSpace, bus: u8, slot: u8, func: u8, vendor: u16, device: u16, bar0: u32) {
    cs.set(make_address(bus, slot, func, 0), (device as u32) << 16 | vendor as u32);
    cs.set(make_address(bus, slot, func, 0x10), bar0);
}

#[test]
fn config_reads_pick_halves_and_bytes() {
    let mut cs = MemConfigSpace::new();
    cs.set(make_address(0, 1, 0, 0x0C), 0x1122_3344);
    assert_eq!(read32(&cs, 0, 1, 0, 0x0C), 0x1122_3344);
    assert_eq!(read16(&cs, 0, 1, 0, 0x0C), 0x3344);
    assert_eq!(read16(&cs, 0, 1, 0, 0x0E), 0x1122);
    assert_eq!(read8(&cs, 0, 1, 0, 0x0D), 0x33);
    assert_eq!(read8(&cs, 0, 1, 0, 0x0F), 0x11);
    assert_eq!(read16(&cs, 0, 2, 0, 0), 0xFFFF);
}

#[test]
fn find_returns_the_first_match_in_scan_order() {
    let mut cs = MemConfigSpace::new();
    with_device(&mut cs, 0, 5, 0, 0x1AF4, 0x1001, 0xC041);
    with_device(&mut cs, 0, 3, 0, 0x1AF4, 0x1001, 0xC001);
    with_device(&mut cs, 0, 2, 0, 0x8086, 0x1237, 0);
    let d = find(&cs, 0x1AF4, 0x1001).unwrap();
    assert_eq!((d.bus, d.slot, d.func), (0, 3, 0));
    assert_eq!((d.vendor_id, d.device_id, d.bar0), (0x1AF4, 0x1001, 0xC001));
    assert!(find(&cs, 0x1AF4, 0x1000).is_none());
}

#[test]
fn find_looks_at_other_functions_only_of_multifunction_devices() {
    let mut cs = MemConfigSpace::new();
    with_device(&mut cs, 0, 4, 0, 0x8086, 0x0001, 0);
    with_device(&mut cs, 0, 4, 2, 0x1AF4, 0x1000, 0xC101);
    cs.set(make_address(0, 4, 0, 0x0C), 0);
    assert!(find(&cs, 0x1AF4, 0x1000).is_none());
    cs.set(make_address(0, 4, 0, 0x0C), 0x0080_0000);
    let d = find(&cs, 0x1AF4, 0x1000).unwrap();
    assert_eq!((d.slot, d.func), (4, 2));
}

// ─── Virtio layout ──────────────────────────────────────────────────

#[test]
fn queue_layout_for_256_entries() {
    assert_eq!(avail_offset(256), 4096);
    assert_eq!(used_offset(256), 8192);
    assert_eq!(queue_mem_size(256), 12288);
}

#[test]
fn queue_layout_for_128_entries() {
    assert_eq!(avail_offset(128), 2048);
    assert_eq!(used_offset(128), 4096);
    assert_eq!(queue_mem_size(128), 8192);
    assert_eq!(used_idx_offset(128), 4098);
    assert_eq!(used_entry_offset(128, 3), 4096 + 4 + 24);
}

#[test]
fn descriptor_and_header_bytes() {
    let d = encode_descriptor(0x1122_3344_5566_7788, 0x200, 3, 2);
    assert_eq!(d, vec![0x88, 0x77, 0x66, 0x55, 0x44, 0x33, 0x22, 0x11, 0, 2, 0, 0, 3, 0, 2, 0]);
    let h = blk_request_header(1, 0x0102);
    assert_eq!(h, vec![1, 0, 0, 0, 0, 0, 0, 0, 2, 1, 0, 0, 0, 0, 0, 0]);
}

#[test]
fn block_chain_flags() {
    let c = blk_descriptor_chain(0, 0x1000, 0x2000, 512, 0x3000);
    assert_eq!((c[0].addr, c[0].len, c[0].flags, c[0].next), (0x1000, 16, 1, 1));
    assert_eq!((c[1].addr, c[1].len, c[1].flags, c[1].next), (0x2000, 512, 3, 2));
    assert_eq!((c[2].addr, c[2].len, c[2].flags, c[2].next), (0x3000, 1, 2, 0));
    let w = blk_descriptor_chain(1, 0x1000, 0x2000, 512, 0x3000);
    assert_eq!(w[1].flags, 1);
}

#[test]
fn io_bar_bases() {
    assert_eq!(io_bar_base(0xC041), Some(0xC040));
    assert_eq!(io_bar_base(0xFEBC_0000), None);
}

#[test]
fn capability_walk_finds_the_virtio_capability() {
    let mut cs = MemConfigSpace::new();
    with_device(&mut cs, 0, 6, 0, 0x1AF4, 0x1053, 0);
    let dev = find(&cs, 0x1AF4, 0x1053).unwrap();
    // status: capabilities list present
    cs.set(make_address(0, 6, 0, 0x04), 0x0010_0000);
    cs.set(make_address(0, 6, 0, 0x34), 0x40);
    // 0x40: vendor capability of type 1, next 0x50; 0x50: type 2, bar 4, offset 0x3000
    cs.set(make_address(0, 6, 0, 0x40), 0x0110_5009);
    cs.set(make_address(0, 6, 0, 0x44), 0x0000_0004);
    cs.set(make_address(0, 6, 0, 0x48), 0x0000_0000);
    cs.set(make_address(0, 6, 0, 0x50), 0x0214_0009);
    cs.set(make_address(0, 6, 0, 0x54), 0x0000_0004);
    cs.set(make_address(0, 6, 0, 0x58), 0x0000_3000);
    let c = find_cap(&cs, &dev, 2).unwrap();
    assert_eq!((c.bar, c.offset, c.cap_cfg_offset), (4, 0x3000, 0x50));
    let c = find_cap(&cs, &dev, 1).unwrap();
    assert_eq!((c.bar, c.offset, c.cap_cfg_offset), (4, 0, 0x40));
    assert!(find_cap(&cs, &dev, 3).is_none());
}

#[test]
fn bar_addresses() {
    let mut cs = MemConfigSpace::new();
    with_device(&mut cs, 0, 7, 0, 0x1AF4, 0x1053, 0xC001);
    let dev = find(&cs, 0x1AF4, 0x1053).unwrap();
    cs.set(make_address(0, 7, 0, 0x20), 0xFE00_000C);
    cs.set(make_address(0, 7, 0, 0x24), 0x0000_0001);
    cs.set(make_address(0, 7, 0, 0x14), 0xFEB0_0008);
    assert_eq!(bar_addr(&cs, &dev, 0), 0);
    assert_eq!(bar_addr(&cs, &dev, 4), 0x1_FE00_0000);
    assert_eq!(bar_addr(&cs, &dev, 1), 0xFEB0_0000);
}

// ─── Legacy virtio drivers ──────────────────────────────────────────

#[test]
fn block_device_needs_a_queue() {
    assert!(VirtioBlkDev::new(0xC000, 0).is_none());
}

#[test]
fn block_request_writes() {
    let mut d = VirtioBlkDev::new(0xC000, 128).unwrap();
    assert_eq!(d.register(0x12), 0xC012);
    let r = d.prepare(0, 7, 0x1000, 0x2000, 512, 0x3000);
    assert_eq!(r.header, blk_request_header(0, 7));
    assert_eq!(r.writes.len(), 5);
    assert_eq!((r.writes[0].offset, r.writes[0].bytes.clone()), (0, encode_descriptor(0x1000, 16, 1, 1)));
    assert_eq!((r.writes[1].offset, r.writes[1].bytes.clone()), (16, encode_descriptor(0x2000, 512, 3, 2)));
    assert_eq!((r.writes[2].offset, r.writes[2].bytes.clone()), (32, encode_descriptor(0x3000, 1, 2, 0)));
    assert_eq!((r.writes[3].offset, r.writes[3].bytes.clone()), (2048 + 4, vec![0, 0]));
    assert_eq!((r.writes[4].offset, r.writes[4].bytes.clone()), (2048 + 2, vec![1, 0]));
    assert_eq!(r.notify_port, 0xC010);
    assert_eq!(r.used_idx_offset, 4098);
    assert!(!d.check_completion(0));
    assert!(d.check_completion(1));
    assert!(!d.check_completion(1));
    let r2 = d.prepare(1, 8, 0x1000, 0x2000, 512, 0x3000);
    assert_eq!((r2.writes[3].offset, r2.writes[4].bytes.clone()), (2048 + 6, vec![2, 0]));
    assert!(blk_status_ok(0));
    assert!(!blk_status_ok(1));
}

#[test]
fn network_receive_setup_and_take() {
    let mut n = VirtioNetDev::new(0xC100, [1, 2, 3, 4, 5, 6], 256);
    assert_eq!(n.mac_address(), [1, 2, 3, 4, 5, 6]);
    let w = n.rx_setup(0x10_0000);
    assert_eq!(w.len(), 33);
    assert_eq!((w[2].offset, w[2].bytes.clone()), (16, encode_descriptor(0x10_0000 + 2048, 2048, 2, 0)));
    assert_eq!((w[3].offset, w[3].bytes.clone()), (4096 + 4 + 2, vec![1, 0]));
    assert_eq!((w[32].offset, w[32].bytes.clone()), (4096 + 2, vec![16, 0]));
    assert!(!n.rx_pending(0));
    assert!(n.rx_pending(1));
    assert_eq!(n.rx_used_entry(), 8192 + 4);
    let s = n.rx_take(5, 74);
    assert_eq!((s.frame_offset, s.frame_len), (5 * 2048 + 10, 64));
    assert_eq!((s.writes[0].offset, s.writes[0].bytes.clone()), (4096 + 4 + 32, vec![5, 0]));
    assert_eq!((s.writes[1].offset, s.writes[1].bytes.clone()), (4096 + 2, vec![17, 0]));
    assert_eq!(s.notify_port, 0xC110);
    assert_eq!(n.rx_used_entry(), 8192 + 4 + 8);
    let short = n.rx_take(0, 4);
    assert_eq!(short.frame_len, 0);
}

#[test]
fn network_transmit_slots() {
    let mut n = VirtioNetDev::new(0xC100, [0; 6], 256);
    let t = n.tx_prepare(0x20_0000, 60);
    assert_eq!(t.buffer_offset, 0);
    assert_eq!((t.writes[0].offset, t.writes[0].bytes.clone()), (0, encode_descriptor(0x20_0000, 70, 0, 0)));
    assert_eq!((t.writes[1].offset, t.writes[1].bytes.clone()), (4096 + 4, vec![0, 0]));
    assert_eq!((t.writes[2].offset, t.writes[2].bytes.clone()), (4096 + 2, vec![1, 0]));
    for _ in 0..16 {
        n.tx_prepare(0x20_0000, 60);
    }
    let t = n.tx_prepare(0x20_0000, 60);
    // slot 17, buffer 17 % 16 = 1
    assert_eq!(t.buffer_offset, 2048);
    assert_eq!(t.writes[0].offset, 17 * 16);
}

// ─── Interrupts and timer ───────────────────────────────────────────

#[test]
fn gates_split_the_handler_address() {
    let e = IdtEntry::new(0x1234_5678_9ABC_DEF0);
    assert_eq!(e.offset_lo, 0xDEF0);
    assert_eq!(e.offset_mid, 0x9ABC);
    assert_eq!(e.offset_hi, 0x1234_5678);
    assert_eq!((e.selector, e.attrs, e.reserved), (0x08, 0x8E00, 0));
    let back = e.offset_lo as u64 | (e.offset_mid as u64) << 16 | (e.offset_hi as u64) << 32;
    assert_eq!(back, 0x1234_5678_9ABC_DEF0);
    let z = IdtEntry::zero();
    assert_eq!((z.offset_lo, z.selector, z.attrs, z.offset_mid, z.offset_hi), (0, 0, 0, 0, 0));
}

#[test]
fn vectors_get_their_stubs() {
    assert_eq!(vector_stub(8), Stub::ExceptionWithError);
    assert_eq!(vector_stub(14), Stub::ExceptionWithError);
    assert_eq!(vector_stub(9), Stub::Exception);
    assert_eq!(vector_stub(0x20), Stub::PicMaster);
    assert_eq!(vector_stub(0x27), Stub::PicMaster);
    assert_eq!(vector_stub(0x28), Stub::PicSlave);
    assert_eq!(vector_stub(0x2F), Stub::PicSlave);
    assert_eq!(vector_stub(0x30), Stub::Exception);
    let t = idt_table(StubAddrs { exception: 0x100, exception_err: 0x200, pic_master: 0x300, pic_slave: 0x400 });
    assert_eq!(t.len(), 256);
    assert_eq!(t[13], IdtEntry::new(0x200));
    assert_eq!(t[0x21], IdtEntry::new(0x300));
    assert_eq!(t[0x2A], IdtEntry::new(0x400));
    assert_eq!(t[255], IdtEntry::new(0x100));
}

#[test]
fn controller_and_timer_programming() {
    let p = pic_init_sequence();
    assert_eq!(p.len(), 10);
    assert_eq!(p[2], (0x21, 0x20));
    assert_eq!(p[3], (0xA1, 0x28));
    assert_eq!(p[8], (0x21, 0xFE));
    assert_eq!(pit_sequence(), vec![(0x43, 0x36), (0x40, 0xA9), (0x40, 0x04)]);
}

#[test]
fn clock_counts_ticks() {
    let mut c = TickCounter::new();
    assert_eq!(now_ms(&c), 0);
    c.tick();
    c.tick();
    assert_eq!(now_ms(&c), 2);
    assert_eq!(sleep_deadline(10, 5), 15);
    assert_eq!(sleep_deadline(u64::MAX - 1, 5), u64::MAX);
    assert!(!sleep_over(14, 15));
    assert!(sleep_over(15, 15));
}

// ─── Real-time clock ────────────────────────────────────────────────

fn bcd_regs(sec: u8, min: u8, hour: u8, day: u8, mon: u8, year: u8) -> RtcRegs {
    RtcRegs { sec, min, hour, day, mon, year, reg_b: 0x02 }
}

#[test]
fn bcd_bytes() {
    assert_eq!(bcd_to_bin(0x59), 59);
    assert_eq!(bcd_to_bin(0x00), 0);
    assert_eq!(bcd_to_bin(0x12), 12);
}

#[test]
fn timestamps_from_bcd_registers() {
    assert_eq!(read_unix_timestamp(&bcd_regs(0, 0, 0, 1, 1, 0)), 946684800);
    assert_eq!(read_unix_timestamp(&bcd_regs(0x56, 0x34, 0x12, 1, 3, 0x24)), 1709296496);
    assert_eq!(read_unix_timestamp(&bcd_regs(0, 0, 0, 0x29, 2, 0x24)), 1709164800);
    assert_eq!(read_unix_timestamp(&bcd_regs(0x59, 0x59, 0x23, 0x31, 0x12, 0x99)), 4102444799);
}

#[test]
fn timestamps_from_binary_registers() {
    let r = RtcRegs { sec: 56, min: 34, hour: 12, day: 1, mon: 3, year: 24, reg_b: 0x06 };
    assert_eq!(read_unix_timestamp(&r), 1709296496);
}

#[test]
fn new_year_2025() {
    assert_eq!(read_unix_timestamp(&bcd_regs(0, 0, 0, 1, 1, 0x25)), 1735689600);
}

#[test]
fn clock_moves_forward_across_new_year() {
    let before = read_unix_timestamp(&bcd_regs(0x59, 0x59, 0x23, 0x31, 0x12, 0x24));
    let after = read_unix_timestamp(&bcd_regs(0, 0, 0, 1, 1, 0x25));
    assert_eq!(before, 1735689599);
    assert_eq!(after, before + 1);
}

#[test]
fn clock_moves_forward_across_month_ends() {
    let leap_feb = read_unix_timestamp(&bcd_regs(0x59, 0x59, 0x23, 0x29, 0x02, 0x24));
    let leap_mar = read_unix_timestamp(&bcd_regs(0, 0, 0, 1, 3, 0x24));
    assert_eq!(leap_mar, leap_feb + 1);
    assert_eq!(leap_mar, 1709251200);
    let feb = read_unix_timestamp(&bcd_regs(0x59, 0x59, 0x23, 0x28, 0x02, 0x23));
    let mar = read_unix_timestamp(&bcd_regs(0, 0, 0, 1, 3, 0x23));
    assert_eq!(mar, feb + 1);
    let apr = read_unix_timestamp(&bcd_regs(0x59, 0x59, 0x23, 0x30, 0x04, 0x23));
    let may = read_unix_timestamp(&bcd_regs(0, 0, 0, 1, 5, 0x23));
    assert_eq!(may, apr + 1);
}

// ─── Serial console ─────────────────────────────────────────────────

#[test]
fn print_sends_carriage_returns() {
    let mut s = SerialLog::new();
    print(&mut s, "a\nb");
    assert_eq!(s.output(), &b"a\r\nb".to_vec());
}

#[test]
fn numbers_in_decimal_and_hex() {
    assert_eq!(usize_decimal(0), b"0".to_vec());
    assert_eq!(usize_decimal(1234567), b"1234567".to_vec());
    let mut s = SerialLog::new();
    print_usize(&mut s, 40960);
    print_hex(&mut s, 0xAF);
    print_hex(&mut s, 0x05);
    assert_eq!(s.output(), &b"40960af05".to_vec());
}

// ─── Firmware configuration ─────────────────────────────────────────

fn dir_entry(size: u32, sel: u16, name: &str) -> Vec<u8> {
    let mut e = Vec::new();
    e.extend_from_slice(&size.to_be_bytes());
    e.extend_from_slice(&sel.to_be_bytes());
    e.extend_from_slice(&[0, 0]);
    let mut n = name.as_bytes().to_vec();
    n.resize(56, 0);
    e.extend_from_slice(&n);
    e
}

fn fw_device() -> MemFwCfg {
    let mut dir = 2u32.to_be_bytes().to_vec();
    dir.extend(dir_entry(4, 0x20, "etc/boot"));
    dir.extend(dir_entry(6, 0x21, "opt/secret"));
    MemFwCfg::new(vec![
        (0x0000, b"QEMU".to_vec()),
        (0x0019, dir),
        (0x0021, b"s3cret".to_vec()),
    ])
}

#[test]
fn firmware_signature() {
    let mut d = fw_device();
    assert!(is_present(&mut d));
    let mut none = MemFwCfg::new(vec![(0x0000, b"QEMX".to_vec())]);
    assert!(!is_present(&mut none));
}

#[test]
fn firmware_files_by_name() {
    let mut d = fw_device();
    assert_eq!(find_file(&mut d, "opt/secret"), Some((0x21, 6)));
    assert_eq!(find_file(&mut d, "etc/boot"), Some((0x20, 4)));
    assert_eq!(find_file(&mut d, "opt"), None);
    let mut buf = [0u8; 8];
    read(&mut d, 0x21, &mut buf);
    assert_eq!(&buf, b"s3cret\0\0");
}

#[test]
fn firmware_name_fields() {
    let mut f = b"abc".to_vec();
    f.resize(56, 0);
    assert!(name_matches(&f, "abc"));
    assert!(!name_matches(&f, "ab"));
    let mut bad = vec![0xffu8, b'a'];
    bad.resize(56, 0);
    assert!(!name_matches(&bad, ""));
    assert!(!name_matches(&bad, "a"));
    let mut tail = b"opt/secret\0x".to_vec();
    tail.resize(56, 0);
    assert!(name_matches(&tail, "opt/secret"));
    assert!(!name_matches(&tail, "opt/secret\0x"));
    assert!(name_matches(&[0u8; 56], ""));
}

#[test]
fn find_file_reads_names_up_to_nul() {
    let mut dir = 1u32.to_be_bytes().to_vec();
    dir.extend_from_slice(&[0, 0, 0, 5, 0, 0x20, 0, 0]);
    let mut name = b"opt/secret\0x".to_vec();
    name.resize(56, 0);
    dir.extend(name);
    let mut d = MemFwCfg::new(vec![(0x0019, dir)]);
    assert_eq!(find_file(&mut d, "opt/secret"), Some((0x0020, 5)));
}

#[test]
fn tick_count_steps_by_one_and_wraps() {
    assert_eq!(count_after_tick(0), 1);
    assert_eq!(count_after_tick(41), 42);
    assert_eq!(count_after_tick(u64::MAX), 0);
}
