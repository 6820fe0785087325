//! Console output on the COM1 UART: text goes out byte by byte, each line
//! feed preceded by a carriage return; numbers go out in decimal and
//! bytes in two lower-case hex digits.

use vstd::prelude::*;
use vstd::string::StringSliceAdditionalSpecFns;

verus! {

/// A byte-wide serial line; its state is what has gone out on it.
///
/// A line is `modeled()` when `written()` is what has gone out on it; of
/// a line that is not, the contracts promise nothing about it.
pub trait SerialPort {
    /// Whether `written()` describes the line. The default bodies stand
    /// for a line of which no record is kept (the hardware's): it counts
    /// as not modeled, and its contracts then hold of it whatever it does.
    closed spec fn modeled(&self) -> bool {
        false
    }

    /// What has gone out, where the line is modeled.
    closed spec fn written(&self) -> Seq<u8> {
        Seq::empty()
    }

    /// Sends one byte, once the transmitter is ready.
    fn write_byte(&mut self, byte: u8)
        ensures
            final(self).modeled() == old(self).modeled(),
            old(self).modeled() ==> final(self).written() == old(self).written().push(byte),
    ;
}

/// A serial line that keeps what goes out in memory.
pub struct SerialLog {
    out: Vec<u8>,
}

impl SerialLog {
    pub fn new() -> (s: SerialLog)
        ensures
            s.modeled(),
            s.written() == Seq::<u8>::empty(),
    {
        SerialLog { out: Vec::new() }
    }

    /// What has gone out.
    pub fn output(&self) -> (r: &Vec<u8>)
        ensures
            r@ == self.written(),
    {
        &self.out
    }
}

impl SerialPort for SerialLog {
    closed spec fn modeled(&self) -> bool {
        true
    }

    closed spec fn written(&self) -> Seq<u8> {
        self.out@
    }

    fn write_byte(&mut self, byte: u8) {
        self.out.push(byte);
    }
}

/// The bytes that printing `s` sends: each `\n` preceded by `\r`.
pub open spec fn console_bytes(s: Seq<u8>) -> Seq<u8>
    decreases s.len(),
{
    if s.len() == 0 {
        Seq::empty()
    } else {
        let rest = console_bytes(s.drop_last());
        if s.last() == 10 {
            rest.push(13).push(10)
        } else {
            rest.push(s.last())
        }
    }
}

fn print_bytes<S: SerialPort>(port: &mut S, s: &[u8])
    ensures
        final(port).modeled() == old(port).modeled(),
        old(port).modeled() ==> final(port).written() == old(port).written() + console_bytes(s@),
{
    let mut i: usize = 0;
    while i < s.len()
        invariant
            i <= s@.len(),
            port.modeled() == old(port).modeled(),
            old(port).modeled() ==> port.written() == old(port).written() + console_bytes(s@.take(i as int)),
        decreases s@.len() - i,
    {
        let b = s[i];
        if b == 10 {
            port.write_byte(13);
        }
        port.write_byte(b);
        assert(s@.take(i + 1).drop_last() =~= s@.take(i as int));
        assert(port.modeled() ==> port.written() =~= old(port).written() + console_bytes(s@.take(i + 1)));
        i = i + 1;
    }
    assert(s@.take(s@.len() as int) =~= s@);
}

/// Prints `s`.
pub fn print<S: SerialPort>(port: &mut S, s: &str)
    ensures
        final(port).modeled() == old(port).modeled(),
        old(port).modeled() ==> final(port).written() == old(port).written() + console_bytes(s.spec_bytes()),
{
    print_bytes(port, s.as_bytes());
}

/// The decimal digits of `n`, most significant first (`0` for zero).
pub open spec fn decimal(n: nat) -> Seq<u8>
    decreases n,
{
    if n < 10 {
        seq![(48 + n) as u8]
    } else {
        decimal(n / 10).push((48 + n % 10) as u8)
    }
}

/// The decimal digits of `n`.
pub fn usize_decimal(n: usize) -> (r: Vec<u8>)
    ensures
        r@ == decimal(n as nat),
{
    let mut digits: Vec<u8> = Vec::new();
    let mut m = n;
    if m == 0 {
        digits.push(48u8);
        assert(digits@ =~= decimal(0));
        return digits;
    }
    while m > 0
        invariant
            m > 0 ==> decimal(n as nat) == decimal(m as nat) + digits@,
            m == 0 ==> decimal(n as nat) == digits@,
            n > 0,
        decreases m,
    {
        let d = (48 + m % 10) as u8;
        proof {
            if m >= 10 {
                assert(decimal(m as nat) == decimal((m / 10) as nat).push(d));
                assert(decimal((m / 10) as nat) + seq![d] + digits@ =~= decimal((m / 10) as nat) + (
                seq![d] + digits@));
            } else {
                assert(decimal(m as nat) == seq![d]);
            }
        }
        let ghost prev = digits@;
        digits.insert(0, d);
        assert(digits@ =~= seq![d] + prev);
        m = m / 10;
    }
    digits
}

/// Prints `n` in decimal.
pub fn print_usize<S: SerialPort>(port: &mut S, n: usize)
    ensures
        final(port).modeled() == old(port).modeled(),
        old(port).modeled() ==> final(port).written() == old(port).written() + decimal(n as nat),
{
    let digits = usize_decimal(n);
    let mut i: usize = 0;
    while i < digits.len()
        invariant
            i <= digits@.len(),
            port.modeled() == old(port).modeled(),
            old(port).modeled() ==> port.written() == old(port).written() + digits@.take(i as int),
        decreases digits@.len() - i,
    {
        port.write_byte(digits[i]);
        assert(port.modeled() ==> port.written() =~= old(port).written() + digits@.take(i + 1));
        i = i + 1;
    }
    assert(digits@.take(digits@.len() as int) =~= digits@);
}

/// The lower-case hex digit of `v` (0 to 15).
pub open spec fn hex_digit(v: int) -> u8 {
    if v < 10 {
        (48 + v) as u8
    } else {
        (87 + v) as u8
    }
}

/// Prints `b` as two lower-case hex digits.
pub fn print_hex<S: SerialPort>(port: &mut S, b: u8)
    ensures
        final(port).modeled() == old(port).modeled(),
        old(port).modeled() ==> final(port).written() == old(port).written() + seq![hex_digit((b / 16) as int), hex_digit((b % 16) as int)],
{
    let table: [u8; 16] = [48, 49, 50, 51, 52, 53, 54, 55, 56, 57, 97, 98, 99, 100, 101, 102];
    let hi = b >> 4;
    let lo = b & 0xF;
    assert(hi == b / 16 && lo == b % 16) by (bit_vector)
        requires
            hi == b >> 4u8,
            lo == b & 0xFu8,
    ;
    port.write_byte(table[hi as usize]);
    port.write_byte(table[lo as usize]);
    assert(port.modeled() ==> port.written() =~= old(port).written() + seq![hex_digit((b / 16) as int), hex_digit((b % 16) as int)]);
}

} // verus!
