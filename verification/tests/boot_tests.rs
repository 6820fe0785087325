use unikernel::boot::{choose_secret, fw_cfg_secret, print_mac, secret_display, secret_read_len, SecretSource};
use unikernel::fw_cfg::MemFwCfg;
use unikernel::pci::{find, make_address, MemConfigSpace};
use unikernel::rtc::{month_readable, RtcRegs};
use unikernel::serial::SerialLog;
use unikernel::virtio::{bar_readable, cap_search_defined, encode_descriptor};
use unikernel::virtq::{
    features_accepted, fill_writes, negotiation_sequence, queue_enable_writes, queue_select_writes,
    vsock_bases, MmioWrite, VsockRings,
};
use unikernel::wasm_rt::{copy_defined, read_defined, response_defined};

#[test]
fn secrets_are_shown_without_trailing_breaks() {
    assert_eq!(secret_display(b"s3cret\r\n\0"), b"s3cret".to_vec());
    assert_eq!(secret_display(b"a\nb\n"), b"a\nb".to_vec());
    assert_eq!(secret_display(b""), b"".to_vec());
    assert_eq!(secret_display(&[0xff, b'\n']), b"(invalid utf8)".to_vec());
}

#[test]
fn firmware_secret_reads_at_most_256_bytes() {
    assert_eq!(secret_read_len(10), 10);
    assert_eq!(secret_read_len(256), 256);
    assert_eq!(secret_read_len(100000), 256);
    let mut dir = 1u32.to_be_bytes().to_vec();
    dir.extend_from_slice(&300u32.to_be_bytes());
    dir.extend_from_slice(&0x22u16.to_be_bytes());
    dir.extend_from_slice(&[0, 0]);
    let mut name = b"opt/secret".to_vec();
    name.resize(56, 0);
    dir.extend_from_slice(&name);
    let content: Vec<u8> = (0..300u32).map(|i| i as u8).collect();
    let mut fw = MemFwCfg::new(vec![(0, b"QEMU".to_vec()), (0x19, dir), (0x22, content.clone())]);
    assert_eq!(fw_cfg_secret(&mut fw), Some(content[..256].to_vec()));
    let mut absent = MemFwCfg::new(vec![]);
    assert_eq!(fw_cfg_secret(&mut absent), None);
    let mut no_file = MemFwCfg::new(vec![(0, b"QEMU".to_vec()), (0x19, vec![0, 0, 0, 0])]);
    assert_eq!(fw_cfg_secret(&mut no_file), None);
}

#[test]
fn mac_addresses_in_hex() {
    let mut s = SerialLog::new();
    print_mac(&mut s, [0x52, 0x54, 0x00, 0x12, 0x34, 0xab]);
    assert_eq!(s.output(), &b"52:54:00:12:34:ab".to_vec());
}

#[test]
fn month_register_check() {
    let r = RtcRegs { sec: 0, min: 0, hour: 0, day: 1, mon: 0x12, year: 0x24, reg_b: 2 };
    assert!(month_readable(&r));
    let r = RtcRegs { mon: 0x14, ..r };
    assert!(!month_readable(&r));
    let r = RtcRegs { mon: 13, reg_b: 6, ..r };
    assert!(month_readable(&r));
    let r = RtcRegs { mon: 0, ..r };
    assert!(!month_readable(&r));
}

#[test]
fn capability_walk_and_bar_checks() {
    let mut cs = MemConfigSpace::new();
    cs.set(make_address(0, 6, 0, 0), 0x1053_1AF4);
    cs.set(make_address(0, 6, 0, 0x04), 0x0010_0000);
    cs.set(make_address(0, 6, 0, 0x34), 0xFC);
    cs.set(make_address(0, 6, 0, 0xFC), 0x0110_0009);
    let dev = find(&cs, 0x1AF4, 0x1053).unwrap();
    assert!(!cap_search_defined(&cs, &dev, 1));
    cs.set(make_address(0, 6, 0, 0x34), 0);
    assert!(cap_search_defined(&cs, &dev, 1));
    assert!(bar_readable(&cs, &dev, 0));
    assert!(!bar_readable(&cs, &dev, 60));
}

#[test]
fn modern_bring_up_writes() {
    let w = negotiation_sequence();
    assert_eq!(w.len(), 8);
    assert_eq!(w[0], MmioWrite { offset: 20, width: 1, value: 0 });
    assert_eq!(w[6], MmioWrite { offset: 12, width: 4, value: 1 });
    assert_eq!(w[7], MmioWrite { offset: 20, width: 1, value: 11 });
    assert!(features_accepted(11));
    assert!(!features_accepted(3));
    assert_eq!(
        queue_select_writes(1, 8),
        vec![
            MmioWrite { offset: 22, width: 2, value: 1 },
            MmioWrite { offset: 24, width: 2, value: 8 },
            MmioWrite { offset: 26, width: 2, value: 0xFFFF },
        ]
    );
    let e = queue_enable_writes(0x10_0000, 8);
    assert_eq!(e[1], MmioWrite { offset: 40, width: 8, value: 0x10_0000 + 128 });
    assert_eq!(e[2], MmioWrite { offset: 48, width: 8, value: 0x10_0000 + 4096 });
    assert_eq!(e[3], MmioWrite { offset: 28, width: 2, value: 1 });
    assert_eq!(vsock_bases(0xFE00_0000, 0, 0xFE00_0000, 0x3000), Some((0xFE00_0000, 0xFE00_3000)));
    assert_eq!(vsock_bases(0, 0, 0xFE00_0000, 0x3000), None);
}

#[test]
fn vsock_rings() {
    let mut r = VsockRings::new(0xFE00_3000, 4, 0, 1);
    assert_eq!(r.rx_notify_addr(), 0xFE00_3000);
    assert_eq!(r.tx_notify_addr(), 0xFE00_3004);
    let setup = r.rx_setup(0x40_0000);
    assert_eq!(setup.len(), 17);
    assert_eq!((setup[2].offset, setup[2].bytes.clone()), (16, encode_descriptor(0x40_1000, 4096, 2, 0)));
    assert_eq!((setup[16].offset, setup[16].bytes.clone()), (128 + 2, vec![8, 0]));
    assert!(r.rx_pending(1));
    assert_eq!(r.rx_used_entry(), 4096 + 4);
    let rx = r.rx_take(3, 50);
    assert_eq!((rx.buffer_offset, rx.data_len), (3 * 4096, 6));
    assert_eq!((rx.writes[0].offset, rx.writes[0].bytes.clone()), (128 + 4, vec![3, 0]));
    assert_eq!((rx.writes[1].offset, rx.writes[1].bytes.clone()), (128 + 2, vec![9, 0]));
    assert_eq!(rx.notify_addr, 0xFE00_3000);
    assert_eq!(r.rx_take(0, 44).data_len, 0);
    let tx = r.tx_prepare(0x50_0000, 44);
    assert_eq!(tx.buffer_offset, 0);
    assert_eq!((tx.writes[0].offset, tx.writes[0].bytes.clone()), (0, encode_descriptor(0x50_0000, 44, 0, 0)));
    assert_eq!(tx.notify_addr, 0xFE00_3004);
    for _ in 0..7 {
        r.tx_prepare(0x50_0000, 44);
    }
    assert_eq!(r.tx_prepare(0x50_0000, 44).buffer_offset, 0);
    assert_eq!(fill_writes(8, 0, 2, 4096).len(), 5);
}

#[test]
fn host_function_bounds() {
    assert!(read_defined(10, 0, 10));
    assert!(read_defined(10, 10, 5));
    assert!(!read_defined(10, 11, 0));
    assert!(!read_defined(10, -1, 0));
    assert!(!read_defined(10, 3, -1));
    assert!(!read_defined(10, 3, -3));
    assert!(read_defined(10, 3, -4));
    assert!(copy_defined(5, 0, 10));
    assert!(copy_defined(5, -6, 10));
    assert!(!copy_defined(5, -5, 10));
    assert!(response_defined(0, 5));
    assert!(!response_defined(0, 0));
    assert!(!response_defined(-5, 5));
    assert!(response_defined(-5, 4));
}

#[test]
fn host_secret_comes_first_then_the_firmware() {
    let mut dir = 1u32.to_be_bytes().to_vec();
    dir.extend_from_slice(&4u32.to_be_bytes());
    dir.extend_from_slice(&0x22u16.to_be_bytes());
    dir.extend_from_slice(&[0, 0]);
    let mut name = b"opt/secret".to_vec();
    name.resize(56, 0);
    dir.extend_from_slice(&name);
    let mut fw = MemFwCfg::new(vec![(0, b"QEMU".to_vec()), (0x19, dir), (0x22, b"fw!!".to_vec())]);
    assert_eq!(
        choose_secret(Some(b"host".to_vec()), &mut fw),
        Some((SecretSource::Host, b"host".to_vec()))
    );
    assert_eq!(choose_secret(None, &mut fw), Some((SecretSource::Firmware, b"fw!!".to_vec())));
    let mut absent = MemFwCfg::new(vec![]);
    assert_eq!(choose_secret(None, &mut absent), None);
}
