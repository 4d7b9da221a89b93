//! Bitbang helpers for single-wire I/O, most significant bit first.
use vstd::prelude::*;
use super::{BitbangSpiMaster, BusEvent};

verus! {

/// Bit `i` of `byte`.
pub open spec fn bit_of(byte: u8, i: u8) -> bool {
    (byte >> i) & 1u8 != 0
}

/// The bus events of writing the first `n` bits of `byte`, most
/// significant first: each bit is clock low with the bit on MOSI, then
/// clock high.
pub open spec fn write_bits_events(byte: u8, n: nat) -> Seq<BusEvent>
    decreases n,
{
    if n == 0 {
        Seq::empty()
    } else {
        write_bits_events(byte, (n - 1) as nat) + seq![
            BusEvent::Sck(false),
            BusEvent::Mosi(bit_of(byte, (8 - n) as u8)),
            BusEvent::Sck(true),
        ]
    }
}

/// The bus events of `n` clock cycles: clock low, then clock high.
pub open spec fn clock_events(n: nat) -> Seq<BusEvent>
    decreases n,
{
    if n == 0 {
        Seq::empty()
    } else {
        clock_events((n - 1) as nat) + seq![BusEvent::Sck(false), BusEvent::Sck(true)]
    }
}

/// The bus events of writing `bytes` one after the other.
pub open spec fn write_bytes_events(bytes: Seq<u8>) -> Seq<BusEvent>
    decreases bytes.len(),
{
    if bytes.len() == 0 {
        Seq::empty()
    } else {
        write_bytes_events(bytes.drop_last()) + write_bits_events(bytes.last(), 8)
    }
}

/// Write a byte in single-wire mode (MSB first)
pub fn write_byte<M: BitbangSpiMaster + ?Sized>(master: &mut M, byte: u8)
    ensures
        final(master).bus_log() == old(master).bus_log() + write_bits_events(byte, 8),
{
    let ghost start = master.bus_log();
    let mut i: u8 = 8;
    while i > 0
        invariant
            i <= 8,
            master.bus_log() == start + write_bits_events(byte, (8 - i) as nat),
        decreases i,
    {
        i -= 1;
        let bit = (byte >> i) & 1 != 0;
        let ghost before = master.bus_log();
        master.set_sck_set_mosi(false, bit);
        master.half_period_delay();
        master.set_sck(true);
        master.half_period_delay();
        proof {
            assert(write_bits_events(byte, (8 - i) as nat) == write_bits_events(byte, (8 - i - 1) as nat)
                + seq![BusEvent::Sck(false), BusEvent::Mosi(bit_of(byte, i)), BusEvent::Sck(true)]);
            assert(master.bus_log() =~= start + write_bits_events(byte, (8 - i) as nat));
        }
    }
}

/// Read a byte in single-wire mode (MSB first)
///
/// The byte is made of the MISO levels sampled at the eight rising clock
/// edges, first sample in the most significant bit.
pub fn read_byte<M: BitbangSpiMaster + ?Sized>(master: &mut M) -> (r: u8)
    ensures
        final(master).bus_log() == old(master).bus_log() + clock_events(8),
{
    let ghost start = master.bus_log();
    let mut byte = 0u8;
    let mut k: u8 = 0;
    while k < 8
        invariant
            k <= 8,
            master.bus_log() == start + clock_events(k as nat),
        decreases 8 - k,
    {
        master.set_sck(false);
        master.half_period_delay();
        byte = byte << 1u8;
        if master.set_sck_get_miso(true) {
            byte = byte | 1;
        }
        master.half_period_delay();
        k += 1;
        proof {
            assert(master.bus_log() =~= start + clock_events(k as nat));
        }
    }
    byte
}

/// Run clock for a number of cycles (for dummy cycles)
pub fn run_clock<M: BitbangSpiMaster + ?Sized>(master: &mut M, cycles: usize)
    ensures
        final(master).bus_log() == old(master).bus_log() + clock_events(cycles as nat),
{
    let ghost start = master.bus_log();
    let mut k: usize = 0;
    while k < cycles
        invariant
            k <= cycles,
            master.bus_log() == start + clock_events(k as nat),
        decreases cycles - k,
    {
        master.set_sck(false);
        master.half_period_delay();
        master.set_sck(true);
        master.half_period_delay();
        k += 1;
        proof {
            assert(master.bus_log() =~= start + clock_events(k as nat));
        }
    }
}

/// Write multiple bytes in single-wire mode
pub fn write_bytes<M: BitbangSpiMaster + ?Sized>(master: &mut M, bytes: &[u8])
    ensures
        final(master).bus_log() == old(master).bus_log() + write_bytes_events(bytes@),
{
    let ghost start = master.bus_log();
    let mut k: usize = 0;
    while k < bytes.len()
        invariant
            k <= bytes@.len(),
            master.bus_log() == start + write_bytes_events(bytes@.take(k as int)),
        decreases bytes@.len() - k,
    {
        write_byte(master, bytes[k]);
        proof {
            let s = bytes@.take(k + 1);
            assert(s.drop_last() =~= bytes@.take(k as int));
            assert(master.bus_log() =~= start + write_bytes_events(s));
        }
        k += 1;
    }
    assert(bytes@.take(k as int) =~= bytes@);
}

/// Read multiple bytes in single-wire mode
pub fn read_bytes<M: BitbangSpiMaster + ?Sized>(master: &mut M, buf: &mut [u8])
    ensures
        final(buf)@.len() == old(buf)@.len(),
        final(master).bus_log() == old(master).bus_log() + clock_events(8 * old(buf)@.len()),
{
    let ghost start = master.bus_log();
    let mut k: usize = 0;
    while k < buf.len()
        invariant
            k <= buf@.len(),
            buf@.len() == old(buf)@.len(),
            master.bus_log() == start + clock_events(8 * k as nat),
        decreases buf@.len() - k,
    {
        let b = read_byte(master);
        buf[k] = b;
        proof {
            lemma_clock_events_add(8 * k as nat, 8);
            assert(master.bus_log() =~= start + clock_events(8 * (k + 1) as nat));
        }
        k += 1;
    }
}

/// `a + b` clock cycles are `a` cycles followed by `b` cycles.
pub proof fn lemma_clock_events_add(a: nat, b: nat)
    ensures
        clock_events(a + b) == clock_events(a) + clock_events(b),
    decreases b,
{
    if b == 0 {
        assert(clock_events(a) + clock_events(0) =~= clock_events(a));
    } else {
        lemma_clock_events_add(a, (b - 1) as nat);
        assert(clock_events(a + b) == clock_events((a + b - 1) as nat) + seq![BusEvent::Sck(false), BusEvent::Sck(true)]);
        assert(clock_events(a) + clock_events(b) =~= clock_events(a) + clock_events((b - 1) as nat)
            + seq![BusEvent::Sck(false), BusEvent::Sck(true)]);
    }
}

} // verus!
