//! Bitbang helpers for quad I/O: four bits per clock, high nibble first.
use vstd::prelude::*;
use super::{BitbangQuadIo, BusEvent};

verus! {

/// The bus events of writing `byte` in quad mode: clock low with the high
/// nibble on IO0..IO3, clock high, then the same with the low nibble.
pub open spec fn quad_write_events(byte: u8) -> Seq<BusEvent> {
    seq![
        BusEvent::QuadOut(false, (byte >> 4u8) & 0xFu8),
        BusEvent::Sck(true),
        BusEvent::QuadOut(false, byte & 0xFu8),
        BusEvent::Sck(true),
    ]
}

/// The byte made of two 4-bit samples, first sample in the high nibble.
pub open spec fn quad_value(high: u8, low: u8) -> u8 {
    ((((0u8 << 4u8) | (high & 0xFu8)) << 4u8) | (low & 0xFu8)) as u8
}

/// The bus events of reading the samples `high` then `low`.
pub open spec fn quad_read_events(high: u8, low: u8) -> Seq<BusEvent> {
    seq![BusEvent::Sck(false), BusEvent::QuadIn(true, high), BusEvent::Sck(false), BusEvent::QuadIn(true, low)]
}

/// The bus events of writing `bytes` in quad mode one after the other.
pub open spec fn quad_write_bytes_events(bytes: Seq<u8>) -> Seq<BusEvent>
    decreases bytes.len(),
{
    if bytes.len() == 0 {
        Seq::empty()
    } else {
        quad_write_bytes_events(bytes.drop_last()) + quad_write_events(bytes.last())
    }
}

/// Write a byte in quad mode (2 clocks, 4 bits per clock, MSB first)
pub fn write_byte<M: BitbangQuadIo + ?Sized>(master: &mut M, byte: u8)
    ensures
        final(master).bus_log() == old(master).bus_log() + quad_write_events(byte),
{
    let ghost start = master.bus_log();
    let high = (byte >> 4u8) & 0xF;
    let low = byte & 0xF;
    master.set_sck_set_quad_io(false, high);
    master.half_period_delay();
    master.set_sck(true);
    master.half_period_delay();
    master.set_sck_set_quad_io(false, low);
    master.half_period_delay();
    master.set_sck(true);
    master.half_period_delay();
    assert(master.bus_log() =~= start + quad_write_events(byte));
}

/// Read a byte in quad mode (2 clocks, 4 bits per clock, MSB first)
pub fn read_byte<M: BitbangQuadIo + ?Sized>(master: &mut M) -> (r: u8)
    ensures
        final(master).bus_log().len() == old(master).bus_log().len() + 4,
        final(master).bus_log().subrange(0, old(master).bus_log().len() as int) == old(master).bus_log(),
        quad_byte_events(
            final(master).bus_log().subrange(old(master).bus_log().len() as int, final(master).bus_log().len() as int),
            r,
        ),
{
    let ghost start = master.bus_log();
    let mut byte = 0u8;
    master.set_sck(false);
    master.half_period_delay();
    byte = byte << 4u8;
    let high = master.set_sck_get_quad_io(true);
    byte = byte | (high & 0xF);
    master.half_period_delay();
    master.set_sck(false);
    master.half_period_delay();
    byte = byte << 4u8;
    let low = master.set_sck_get_quad_io(true);
    byte = byte | (low & 0xF);
    master.half_period_delay();
    assert(master.bus_log().subrange(start.len() as int, master.bus_log().len() as int) =~= quad_read_events(high, low));
    assert(master.bus_log().subrange(0, start.len() as int) =~= start);
    assert(quad_value(high, low) == byte);
    byte
}

/// Write multiple bytes in quad mode
pub fn write_bytes<M: BitbangQuadIo + ?Sized>(master: &mut M, bytes: &[u8])
    ensures
        final(master).bus_log() == old(master).bus_log() + quad_write_bytes_events(bytes@),
{
    let ghost start = master.bus_log();
    let mut k: usize = 0;
    while k < bytes.len()
        invariant
            k <= bytes@.len(),
            master.bus_log() == start + quad_write_bytes_events(bytes@.take(k as int)),
        decreases bytes@.len() - k,
    {
        write_byte(master, bytes[k]);
        proof {
            let s = bytes@.take(k + 1);
            assert(s.drop_last() =~= bytes@.take(k as int));
            assert(master.bus_log() =~= start + quad_write_bytes_events(s));
        }
        k += 1;
    }
    assert(bytes@.take(k as int) =~= bytes@);
}

/// `events` are the bus events of reading `byte` in quad mode.
pub open spec fn quad_byte_events(events: Seq<BusEvent>, byte: u8) -> bool {
    exists|high: u8, low: u8| #[trigger] quad_value(high, low) == byte && events == quad_read_events(high, low)
}

/// The `k`-th group of 4 events of `events`.
pub open spec fn quad_chunk(events: Seq<BusEvent>, k: int) -> Seq<BusEvent> {
    events.subrange(4 * k, 4 * k + 4)
}

/// `events` are the bus events of reading `bytes` in quad mode, one byte
/// after the other.
pub open spec fn quad_bytes_events(events: Seq<BusEvent>, bytes: Seq<u8>) -> bool {
    &&& events.len() == 4 * bytes.len()
    &&& forall|k: int| 0 <= k < bytes.len() ==> #[trigger] quad_byte_events(quad_chunk(events, k), bytes[k])
}

/// Read multiple bytes in quad mode
pub fn read_bytes<M: BitbangQuadIo + ?Sized>(master: &mut M, buf: &mut [u8])
    ensures
        final(buf)@.len() == old(buf)@.len(),
        final(master).bus_log().len() >= old(master).bus_log().len(),
        final(master).bus_log().subrange(0, old(master).bus_log().len() as int) == old(master).bus_log(),
        quad_bytes_events(
            final(master).bus_log().subrange(old(master).bus_log().len() as int, final(master).bus_log().len() as int),
            final(buf)@,
        ),
{
    let ghost start = master.bus_log();
    let mut k: usize = 0;
    while k < buf.len()
        invariant
            k <= buf@.len(),
            buf@.len() == old(buf)@.len(),
            master.bus_log().len() == start.len() + 4 * k,
            master.bus_log().subrange(0, start.len() as int) == start,
            quad_bytes_events(
                master.bus_log().subrange(start.len() as int, master.bus_log().len() as int),
                buf@.take(k as int),
            ),
        decreases buf@.len() - k,
    {
        let ghost log0 = master.bus_log();
        let b = read_byte(master);
        let ghost log1 = master.bus_log();
        let ghost buf0 = buf@;
        buf[k] = b;
        proof {
            let d0 = log0.subrange(start.len() as int, log0.len() as int);
            let d1 = log1.subrange(start.len() as int, log1.len() as int);
            assert(quad_byte_events(log1.subrange(log0.len() as int, log1.len() as int), b));
            assert(d1 =~= d0 + log1.subrange(log0.len() as int, log1.len() as int));
            assert(log1.subrange(0, start.len() as int) =~= start);
            assert(buf@.take(k + 1) =~= buf0.take(k as int).push(b));
            assert forall|j: int| 0 <= j < k + 1 implies #[trigger] quad_byte_events(quad_chunk(d1, j), buf@.take(k + 1)[j]) by {
                if j < k {
                    assert(quad_chunk(d1, j) =~= quad_chunk(d0, j));
                    assert(quad_byte_events(quad_chunk(d0, j), buf0.take(k as int)[j]));
                } else {
                    assert(quad_chunk(d1, j) =~= log1.subrange(log0.len() as int, log1.len() as int));
                }
            }
        }
        k += 1;
    }
    assert(buf@.take(k as int) =~= buf@);
}

} // verus!
