//! Bitbang helpers for dual I/O: two bits per clock, most significant first.
use vstd::prelude::*;
use super::{BitbangDualIo, BusEvent};

verus! {

/// The bus events of writing the first `n` bit pairs of `byte`, most
/// significant pair first: clock low with the pair on IO0/IO1, then clock high.
pub open spec fn dual_write_events(byte: u8, n: nat) -> Seq<BusEvent>
    decreases n,
{
    if n == 0 {
        Seq::empty()
    } else {
        dual_write_events(byte, (n - 1) as nat) + seq![
            BusEvent::DualOut(false, (byte >> ((8 - 2 * n) as u8)) & 3u8),
            BusEvent::Sck(true),
        ]
    }
}

/// The byte made of 2-bit samples, first sample most significant.
pub open spec fn dual_value(samples: Seq<u8>) -> u8
    decreases samples.len(),
{
    if samples.len() == 0 {
        0
    } else {
        ((dual_value(samples.drop_last()) << 2u8) | (samples.last() & 3u8)) as u8
    }
}

/// The bus events of reading with the given 2-bit samples: clock low, then
/// clock high while the sample is read.
pub open spec fn dual_read_events(samples: Seq<u8>) -> Seq<BusEvent>
    decreases samples.len(),
{
    if samples.len() == 0 {
        Seq::empty()
    } else {
        dual_read_events(samples.drop_last()) + seq![BusEvent::Sck(false), BusEvent::DualIn(true, samples.last())]
    }
}

/// Write a byte in dual mode (4 clocks, 2 bits per clock, MSB first)
pub fn write_byte<M: BitbangDualIo + ?Sized>(master: &mut M, byte: u8)
    ensures
        final(master).bus_log() == old(master).bus_log() + dual_write_events(byte, 4),
{
    let ghost start = master.bus_log();
    let mut n: u8 = 0;
    while n < 4
        invariant
            n <= 4,
            master.bus_log() == start + dual_write_events(byte, n as nat),
        decreases 4 - n,
    {
        let shift: u8 = 6 - 2 * n;
        let bits = (byte >> shift) & 0x3;
        master.set_sck_set_dual_io(false, bits);
        master.half_period_delay();
        master.set_sck(true);
        master.half_period_delay();
        n += 1;
        proof {
            assert(master.bus_log() =~= start + dual_write_events(byte, n as nat));
        }
    }
}

/// Read a byte in dual mode (4 clocks, 2 bits per clock, MSB first)
pub fn read_byte<M: BitbangDualIo + ?Sized>(master: &mut M) -> (r: u8)
    ensures
        final(master).bus_log().len() == old(master).bus_log().len() + 8,
        final(master).bus_log().subrange(0, old(master).bus_log().len() as int) == old(master).bus_log(),
        dual_byte_events(
            final(master).bus_log().subrange(old(master).bus_log().len() as int, final(master).bus_log().len() as int),
            r,
        ),
{
    let ghost start = master.bus_log();
    let ghost mut samples: Seq<u8> = Seq::empty();
    let mut byte = 0u8;
    let mut k: u8 = 0;
    while k < 4
        invariant
            k <= 4,
            samples.len() == k,
            byte == dual_value(samples),
            master.bus_log() == start + dual_read_events(samples),
        decreases 4 - k,
    {
        master.set_sck(false);
        master.half_period_delay();
        let v = master.set_sck_get_dual_io(true);
        byte = (byte << 2u8) | (v & 0x3);
        master.half_period_delay();
        proof {
            let old_samples = samples;
            samples = samples.push(v);
            assert(samples.drop_last() =~= old_samples);
            assert(master.bus_log() =~= start + dual_read_events(samples));
        }
        k += 1;
    }
    proof {
        reveal_with_fuel(dual_read_events, 5);
        assert(master.bus_log().subrange(start.len() as int, master.bus_log().len() as int) =~= dual_read_events(samples));
        assert(master.bus_log().subrange(0, start.len() as int) =~= start);
    }
    byte
}

/// Write multiple bytes in dual mode
pub fn write_bytes<M: BitbangDualIo + ?Sized>(master: &mut M, bytes: &[u8])
    ensures
        final(master).bus_log() == old(master).bus_log() + dual_write_bytes_events(bytes@),
{
    let ghost start = master.bus_log();
    let mut k: usize = 0;
    while k < bytes.len()
        invariant
            k <= bytes@.len(),
            master.bus_log() == start + dual_write_bytes_events(bytes@.take(k as int)),
        decreases bytes@.len() - k,
    {
        write_byte(master, bytes[k]);
        proof {
            let s = bytes@.take(k + 1);
            assert(s.drop_last() =~= bytes@.take(k as int));
            assert(master.bus_log() =~= start + dual_write_bytes_events(s));
        }
        k += 1;
    }
    assert(bytes@.take(k as int) =~= bytes@);
}

/// The bus events of writing `bytes` in dual mode one after the other.
pub open spec fn dual_write_bytes_events(bytes: Seq<u8>) -> Seq<BusEvent>
    decreases bytes.len(),
{
    if bytes.len() == 0 {
        Seq::empty()
    } else {
        dual_write_bytes_events(bytes.drop_last()) + dual_write_events(bytes.last(), 4)
    }
}

/// `events` are the bus events of reading `byte` in dual mode.
pub open spec fn dual_byte_events(events: Seq<BusEvent>, byte: u8) -> bool {
    exists|samples: Seq<u8>| samples.len() == 4 && #[trigger] dual_value(samples) == byte && events == dual_read_events(samples)
}

/// The `k`-th group of 8 events of `events`.
pub open spec fn dual_chunk(events: Seq<BusEvent>, k: int) -> Seq<BusEvent> {
    events.subrange(8 * k, 8 * k + 8)
}

/// `events` are the bus events of reading `bytes` in dual mode, one byte
/// after the other.
pub open spec fn dual_bytes_events(events: Seq<BusEvent>, bytes: Seq<u8>) -> bool {
    &&& events.len() == 8 * bytes.len()
    &&& forall|k: int| 0 <= k < bytes.len() ==> #[trigger] dual_byte_events(dual_chunk(events, k), bytes[k])
}

/// Read multiple bytes in dual mode
pub fn read_bytes<M: BitbangDualIo + ?Sized>(master: &mut M, buf: &mut [u8])
    ensures
        final(buf)@.len() == old(buf)@.len(),
        final(master).bus_log().len() >= old(master).bus_log().len(),
        final(master).bus_log().subrange(0, old(master).bus_log().len() as int) == old(master).bus_log(),
        dual_bytes_events(
            final(master).bus_log().subrange(old(master).bus_log().len() as int, final(master).bus_log().len() as int),
            final(buf)@,
        ),
{
    let ghost start = master.bus_log();
    let mut k: usize = 0;
    while k < buf.len()
        invariant
            k <= buf@.len(),
            buf@.len() == old(buf)@.len(),
            master.bus_log().len() == start.len() + 8 * k,
            master.bus_log().subrange(0, start.len() as int) == start,
            dual_bytes_events(
                master.bus_log().subrange(start.len() as int, master.bus_log().len() as int),
                buf@.take(k as int),
            ),
        decreases buf@.len() - k,
    {
        let ghost log0 = master.bus_log();
        let b = read_byte(master);
        let ghost log1 = master.bus_log();
        let ghost buf0 = buf@;
        buf[k] = b;
        proof {
            let d0 = log0.subrange(start.len() as int, log0.len() as int);
            let d1 = log1.subrange(start.len() as int, log1.len() as int);
            assert(dual_byte_events(log1.subrange(log0.len() as int, log1.len() as int), b));
            assert(d1 =~= d0 + log1.subrange(log0.len() as int, log1.len() as int));
            assert(log1.subrange(0, start.len() as int) =~= start);
            assert(buf@.take(k + 1) =~= buf0.take(k as int).push(b));
            assert forall|j: int| 0 <= j < k + 1 implies #[trigger] dual_byte_events(dual_chunk(d1, j), buf@.take(k + 1)[j]) by {
                if j < k {
                    assert(dual_chunk(d1, j) =~= dual_chunk(d0, j));
                    assert(dual_byte_events(dual_chunk(d0, j), buf0.take(k as int)[j]));
                } else {
                    assert(dual_chunk(d1, j) =~= log1.subrange(log0.len() as int, log1.len() as int));
                }
            }
        }
        k += 1;
    }
    assert(buf@.take(k as int) =~= buf@);
}

} // verus!
