//! What the kernel decides while it boots: the secret it reports (from
//! the host over vsock, else from the firmware's `opt/secret` file, of
//! which it reads at most 256 bytes), and how it shows the network
//! device's MAC address.

use vstd::prelude::*;
use vstd::string::StringSliceAdditionalSpecFns;
use vstd::utf8::valid_utf8;
use crate::fw_cfg::{FwCfgPort, file_lookup, find_file, is_present, item_bytes, present, read, FW_CFG_FILE_DIR};
use crate::serial::{SerialPort, hex_digit, print, print_hex, console_bytes};
use crate::text::{append_bytes, utf8_str, zeros};

verus! {

/// The most secret bytes read from the firmware.
pub const SECRET_MAX: usize = 256;

/// `s` without its trailing line feeds, carriage returns and NULs.
pub open spec fn trim_secret(s: Seq<u8>) -> Seq<u8>
    decreases s.len(),
{
    if s.len() > 0 && (s.last() == 10 || s.last() == 13 || s.last() == 0) {
        trim_secret(s.drop_last())
    } else {
        s
    }
}

/// How a secret is shown: its text without trailing line breaks and
/// NULs, or `(invalid utf8)` where it is not UTF-8.
pub open spec fn secret_text(bytes: Seq<u8>) -> Seq<u8> {
    if valid_utf8(bytes) {
        trim_secret(bytes)
    } else {
        "(invalid utf8)".spec_bytes()
    }
}

/// The secret as shown.
pub fn secret_display(bytes: &[u8]) -> (r: Vec<u8>)
    ensures
        r@ == secret_text(bytes@),
{
    let mut r: Vec<u8> = Vec::new();
    match utf8_str(bytes) {
        Some(_) => {
            let mut n = bytes.len();
            assert(bytes@.take(n as int) =~= bytes@);
            while n > 0 && (bytes[n - 1] == 10 || bytes[n - 1] == 13 || bytes[n - 1] == 0)
                invariant
                    n <= bytes@.len(),
                    trim_secret(bytes@) == trim_secret(bytes@.take(n as int)),
                decreases n,
            {
                assert(bytes@.take(n as int).drop_last() =~= bytes@.take(n - 1));
                n = n - 1;
            }
            let head = vstd::slice::slice_subrange(bytes, 0, n);
            append_bytes(&mut r, head);
            assert(r@ =~= bytes@.take(n as int));
        },
        None => append_bytes(&mut r, "(invalid utf8)".as_bytes()),
    }
    r
}

/// How many bytes of a firmware file of `size` bytes are read.
pub fn secret_read_len(size: u32) -> (n: usize)
    ensures
        n == if size < SECRET_MAX {
            size as int
        } else {
            SECRET_MAX as int
        },
{
    if (size as u64) < (SECRET_MAX as u64) {
        size as usize
    } else {
        SECRET_MAX
    }
}

/// The secret that the firmware offers: the first bytes (at most 256) of
/// its file `opt/secret`, where the firmware interface is present and
/// lists that file.
pub open spec fn firmware_secret<P: FwCfgPort>(port: P) -> Option<Seq<u8>> {
    if !present(port) {
        None
    } else {
        match file_lookup(port.item(FW_CFG_FILE_DIR), "opt/secret".spec_bytes()) {
            Some((sel, size)) => Some(
                item_bytes(port.item(sel), 0, if size < SECRET_MAX { size as nat } else { SECRET_MAX as nat }),
            ),
            None => None,
        }
    }
}

/// Reads the firmware's secret.
pub fn fw_cfg_secret<P: FwCfgPort>(port: &mut P) -> (r: Option<Vec<u8>>)
    ensures
        final(port).modeled() == old(port).modeled(),
        old(port).modeled() ==> match r {
            Some(v) => firmware_secret(*old(port)) == Some(v@),
            None => firmware_secret(*old(port)) is None,
        },
{
    if !is_present(port) {
        return None;
    }
    match find_file(port, "opt/secret") {
        Some((sel, size)) => {
            let len = secret_read_len(size);
            let mut buf = zeros(len);
            read(port, sel, buf.as_mut_slice());
            Some(buf)
        },
        None => None,
    }
}

/// Where the boot secret came from.
#[derive(PartialEq, Eq, Structural, Debug, Clone, Copy)]
pub enum SecretSource {
    /// The host, over vsock.
    Host,
    /// The firmware's `opt/secret` file.
    Firmware,
}

/// The boot secret: the host's, where the host gave one over vsock;
/// otherwise the firmware's, which is read only then.
pub fn choose_secret<P: FwCfgPort>(host: Option<Vec<u8>>, port: &mut P) -> (r: Option<(SecretSource, Vec<u8>)>)
    ensures
        match host {
            Some(h) => r matches Some((src, v)) && src == SecretSource::Host && v@ == h@
                && *final(port) == *old(port),
            None => match r {
                Some((src, v)) => src == SecretSource::Firmware && (old(port).modeled()
                    ==> firmware_secret(*old(port)) == Some(v@)),
                None => old(port).modeled() ==> firmware_secret(*old(port)) is None,
            },
        },
{
    match host {
        Some(h) => Some((SecretSource::Host, h)),
        None => match fw_cfg_secret(port) {
            Some(v) => Some((SecretSource::Firmware, v)),
            None => None,
        },
    }
}

/// The bytes that show a MAC address: six pairs of lower-case hex digits
/// separated by colons.
pub open spec fn mac_text(mac: [u8; 6]) -> Seq<u8> {
    seq![hex_digit((mac[0] / 16) as int), hex_digit((mac[0] % 16) as int), 58u8]
        + seq![hex_digit((mac[1] / 16) as int), hex_digit((mac[1] % 16) as int), 58u8]
        + seq![hex_digit((mac[2] / 16) as int), hex_digit((mac[2] % 16) as int), 58u8]
        + seq![hex_digit((mac[3] / 16) as int), hex_digit((mac[3] % 16) as int), 58u8]
        + seq![hex_digit((mac[4] / 16) as int), hex_digit((mac[4] % 16) as int), 58u8]
        + seq![hex_digit((mac[5] / 16) as int), hex_digit((mac[5] % 16) as int)]
}

/// Prints a MAC address.
pub fn print_mac<S: SerialPort>(port: &mut S, mac: [u8; 6])
    ensures
        final(port).modeled() == old(port).modeled(),
        old(port).modeled() ==> final(port).written() == old(port).written() + mac_text(mac),
{
    let mut i: usize = 0;
    while i < 6
        invariant
            i <= 6,
            port.modeled() == old(port).modeled(),
            old(port).modeled() ==> port.written() == old(port).written() + mac_prefix(mac, i as int),
        decreases 6 - i,
    {
        let ghost before = port.written();
        print_hex(port, mac[i]);
        if i < 5 {
            print(port, ":");
            proof {
                reveal_strlit(":");
                vstd::string::is_ascii_spec_bytes(":");
                assert(":".spec_bytes() =~= seq![58u8]);
                assert(console_bytes(seq![58u8]) =~= seq![58u8]) by {
                    assert(seq![58u8].drop_last() =~= Seq::<u8>::empty());
                    reveal_with_fuel(console_bytes, 2);
                }
            }
        }
        assert(port.modeled() ==> port.written() =~= old(port).written() + mac_prefix(mac, i + 1));
        i = i + 1;
    }
    assert(mac_prefix(mac, 6) =~= mac_text(mac)) by {
        reveal_with_fuel(mac_prefix, 7);
    }
}

/// What printing the first `k` bytes of a MAC address sends.
pub open spec fn mac_prefix(mac: [u8; 6], k: int) -> Seq<u8>
    decreases k,
{
    if k <= 0 {
        Seq::empty()
    } else {
        let pair = seq![hex_digit((mac[k - 1] / 16) as int), hex_digit((mac[k - 1] % 16) as int)];
        mac_prefix(mac, k - 1) + if k < 6 {
            pair.push(58u8)
        } else {
            pair
        }
    }
}

} // verus!
