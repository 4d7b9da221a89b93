//! The WCH CH341A USB-to-SPI bridge: how a connected device is described,
//! and how an SPI transfer is framed into its USB packets and read back.
use vstd::prelude::*;
use crate::layout::fmap::decimal;
use crate::layout::toml::{format_decimal, format_message, push_str};

verus! {

/// Information about a connected CH341A device
#[derive(Debug, Clone, Copy, PartialEq, Eq)]
pub struct Ch341aDeviceInfo {
    /// USB bus number
    pub bus: u8,
    /// USB device address
    pub address: u8,
}

impl Ch341aDeviceInfo {
    /// How the device is shown: `CH341A at bus <bus> address <address>`.
    pub open spec fn text(self) -> Seq<char> {
        "CH341A at bus "@ + decimal(self.bus as nat) + " address "@ + decimal(self.address as nat)
    }

    /// The device as text.
    pub fn to_string(&self) -> (r: String)
        ensures
            r@ == self.text(),
    {
        let bus = format_decimal(self.bus as u32);
        let mut s = format_message("CH341A at bus ", bus.as_str());
        push_str(&mut s, " address ");
        let address = format_decimal(self.address as u32);
        push_str(&mut s, address.as_str());
        s
    }
}

/// Length of a CH341A USB packet.
pub const CH341_PACKET_LENGTH: usize = 32;
/// SPI stream command: the rest of the packet is clocked out and read back.
pub const CH341A_CMD_SPI_STREAM: u8 = 0xA8;
/// UIO stream command: pin-level operations follow.
pub const CH341A_CMD_UIO_STREAM: u8 = 0xAB;
/// UIO stream: set the output pins.
pub const CH341A_CMD_UIO_STM_OUT: u8 = 0x80;
/// UIO stream: end of the stream.
pub const CH341A_CMD_UIO_STM_END: u8 = 0x20;
/// Pin levels with chip select asserted (low).
pub const UIO_CS_ASSERT: u8 = 0x36;
/// Pin levels with chip select deasserted (high).
pub const UIO_CS_DEASSERT: u8 = 0x37;

/// The byte with its bit order reversed: bit `i` of the result is bit
/// `7 - i` of `b` (the CH341A shifts LSB first).
pub open spec fn spec_reverse_bits(b: u8) -> u8 {
    (((b >> 7u8) & 1) | (((b >> 6u8) & 1) << 1u8) | (((b >> 5u8) & 1) << 2u8) | (((b >> 4u8) & 1) << 3u8)
        | (((b >> 3u8) & 1) << 4u8) | (((b >> 2u8) & 1) << 5u8) | (((b >> 1u8) & 1) << 6u8) | ((b & 1) << 7u8)) as u8
}

/// Reversing the bit order puts every bit in its mirrored place.
pub proof fn lemma_reverse_bits(b: u8)
    ensures
        forall|i: u8| i < 8 ==> #[trigger] ((spec_reverse_bits(b) >> i) & 1) == (b >> (7 - i) as u8) & 1,
        spec_reverse_bits(spec_reverse_bits(b)) == b,
{
    assert(forall|i: u8| i < 8 ==> #[trigger] ((spec_reverse_bits(b) >> i) & 1) == (b >> (7 - i) as u8) & 1)
        by (bit_vector);
    assert(spec_reverse_bits(spec_reverse_bits(b)) == b) by (bit_vector);
}

/// Reverse the bit order of a byte.
pub fn reverse_byte(b: u8) -> (r: u8)
    ensures
        r == spec_reverse_bits(b),
{
    ((b >> 7u8) & 1) | (((b >> 6u8) & 1) << 1u8) | (((b >> 5u8) & 1) << 2u8) | (((b >> 4u8) & 1) << 3u8)
        | (((b >> 3u8) & 1) << 4u8) | (((b >> 2u8) & 1) << 5u8) | (((b >> 1u8) & 1) << 6u8) | ((b & 1) << 7u8)
}

/// The byte stream clocked out for a transfer: the write bytes bit-reversed,
/// then one 0xFF slot per byte to read.
pub open spec fn spec_spi_stream(write_data: Seq<u8>, read_len: int) -> Seq<u8> {
    write_data.map_values(|b: u8| spec_reverse_bits(b)) + Seq::new(read_len as nat, |i: int| 0xFFu8)
}

/// The stream split into SPI_STREAM packets: the command byte, then at
/// most 31 bytes of the stream each.
pub open spec fn spec_stream_packets(stream: Seq<u8>) -> Seq<u8>
    decreases stream.len(),
{
    if stream.len() == 0 {
        seq![]
    } else if stream.len() <= 31 {
        seq![CH341A_CMD_SPI_STREAM] + stream
    } else {
        seq![CH341A_CMD_SPI_STREAM] + stream.take(31) + spec_stream_packets(stream.skip(31))
    }
}

/// The USB data sent for a transfer: the chip select packet, then the
/// SPI_STREAM packets of the stream.
pub open spec fn spec_spi_stream_out(cs: Seq<u8>, write_data: Seq<u8>, read_len: int) -> Seq<u8> {
    cs + spec_stream_packets(spec_spi_stream(write_data, read_len))
}

/// The packets of a stream, packet after packet.
proof fn lemma_stream_packets_step(stream: Seq<u8>, done: int)
    requires
        0 <= done < stream.len(),
    ensures
        spec_stream_packets(stream.skip(done)) == seq![CH341A_CMD_SPI_STREAM]
            + stream.subrange(done, if done + 31 < stream.len() { done + 31 } else { stream.len() as int })
            + if done + 31 < stream.len() { spec_stream_packets(stream.skip(done + 31)) } else { seq![] },
{
    let rest = stream.skip(done);
    if rest.len() <= 31 {
        assert(rest =~= stream.subrange(done, stream.len() as int));
        assert(seq![CH341A_CMD_SPI_STREAM] + rest + Seq::<u8>::empty() =~= seq![CH341A_CMD_SPI_STREAM] + rest);
    } else {
        assert(rest.take(31) =~= stream.subrange(done, done + 31));
        assert(rest.skip(31) =~= stream.skip(done + 31));
    }
}

/// Frame a transfer into the USB data sent: the chip select packet `cs`,
/// then SPI_STREAM packets carrying the bit-reversed write bytes followed by
/// 0xFF for each byte to read, at most 31 stream bytes per packet.
pub fn spi_stream_out(cs: &[u8; 32], write_data: &[u8], read_len: usize) -> (r: Vec<u8>)
    requires
        write_data@.len() + read_len <= usize::MAX / 2,
    ensures
        r@ == spec_spi_stream_out(cs@, write_data@, read_len as int),
{
    let ghost stream = spec_spi_stream(write_data@, read_len as int);
    let mut out: Vec<u8> = Vec::new();
    let mut i: usize = 0;
    while i < 32
        invariant
            i <= 32,
            out@ =~= cs@.take(i as int),
        decreases 32 - i,
    {
        out.push(cs[i]);
        i = i + 1;
    }
    let wlen = write_data.len();
    let total = wlen + read_len;
    let mut done: usize = 0;
    assert(stream.len() == total);
    assert(out@ =~= cs@);
    assert(stream.skip(0) =~= stream);
    while done < total
        invariant
            wlen == write_data@.len(),
            total == wlen + read_len,
            total <= usize::MAX / 2,
            stream == spec_spi_stream(write_data@, read_len as int),
            stream.len() == total,
            done <= total,
            out@ + spec_stream_packets(stream.skip(done as int)) == spec_spi_stream_out(cs@, write_data@, read_len as int),
        decreases total - done,
    {
        proof {
            lemma_stream_packets_step(stream, done as int);
        }
        let ghost before = out@;
        let end = if total - done < 31 { total } else { done + 31 };
        out.push(CH341A_CMD_SPI_STREAM);
        let mut k = done;
        while k < end
            invariant
                wlen == write_data@.len(),
                total == wlen + read_len,
                stream == spec_spi_stream(write_data@, read_len as int),
                stream.len() == total,
                done <= k <= end <= total,
                out@ =~= before + seq![CH341A_CMD_SPI_STREAM] + stream.subrange(done as int, k as int),
            decreases end - k,
        {
            let b = if k < wlen { reverse_byte(write_data[k]) } else { 0xFFu8 };
            assert(b == stream[k as int]);
            out.push(b);
            k = k + 1;
        }
        if end < total {
            assert(end == done + 31);
        } else {
            assert(stream.skip(end as int) =~= Seq::<u8>::empty());
        }
        done = end;
    }
    assert(stream.skip(done as int) =~= Seq::<u8>::empty());
    assert(out@ + Seq::<u8>::empty() =~= out@);
    out
}

/// Extract the answer of a transfer from the bytes read back: the bytes
/// after the write phase, bit-reversed.
pub fn spi_stream_answer(rbuf: &[u8], write_len: usize, read_len: usize) -> (r: Vec<u8>)
    requires
        write_len + read_len <= rbuf@.len(),
    ensures
        r@ == rbuf@.subrange(write_len as int, write_len + read_len).map_values(|b: u8| spec_reverse_bits(b)),
{
    let mut out: Vec<u8> = Vec::new();
    let n = rbuf.len();
    let mut i: usize = 0;
    while i < read_len
        invariant
            n == rbuf@.len(),
            write_len + read_len <= rbuf@.len(),
            i <= read_len,
            out@ =~= rbuf@.subrange(write_len as int, write_len + i).map_values(|b: u8| spec_reverse_bits(b)),
        decreases read_len - i,
    {
        out.push(reverse_byte(rbuf[write_len + i]));
        i = i + 1;
    }
    out
}

/// The chip select packet: a UIO stream that deasserts chip select, holds
/// it for the delay (4/3 steps per microsecond of stored delay, at least 2
/// steps when there is none, at most 28), asserts it and ends; the rest of
/// the packet is zero.
pub open spec fn spec_cs_packet(stored_delay_us: u32) -> Seq<u8> {
    let delay: int = if stored_delay_us > 0 { stored_delay_us as int * 4 / 3 } else { 2 };
    let steps: int = if delay < 28 { delay } else { 28 };
    seq![CH341A_CMD_UIO_STREAM, CH341A_CMD_UIO_STM_OUT | UIO_CS_DEASSERT]
        + Seq::new(steps as nat, |i: int| CH341A_CMD_UIO_STM_OUT | UIO_CS_DEASSERT)
        + seq![CH341A_CMD_UIO_STM_OUT | UIO_CS_ASSERT, CH341A_CMD_UIO_STM_END]
        + Seq::new((28 - steps) as nat, |i: int| 0u8)
}

/// Build the chip select packet that starts every transfer.
pub fn cs_packet(stored_delay_us: u32) -> (r: [u8; 32])
    ensures
        r@ == spec_cs_packet(stored_delay_us),
{
    let delay: u64 = if stored_delay_us > 0 { stored_delay_us as u64 * 4 / 3 } else { 2 };
    let steps: usize = if delay < 28 { delay as usize } else { 28 };
    let mut packet = [0u8; 32];
    packet[0] = CH341A_CMD_UIO_STREAM;
    packet[1] = CH341A_CMD_UIO_STM_OUT | UIO_CS_DEASSERT;
    let mut i: usize = 0;
    while i < steps
        invariant
            steps <= 28,
            i <= steps,
            packet@.len() == 32,
            packet@[0] == CH341A_CMD_UIO_STREAM,
            packet@[1] == CH341A_CMD_UIO_STM_OUT | UIO_CS_DEASSERT,
            forall|k: int| 2 <= k < 2 + i ==> packet@[k] == CH341A_CMD_UIO_STM_OUT | UIO_CS_DEASSERT,
            forall|k: int| 2 + i <= k < 32 ==> packet@[k] == 0,
        decreases steps - i,
    {
        packet[2 + i] = CH341A_CMD_UIO_STM_OUT | UIO_CS_DEASSERT;
        i = i + 1;
    }
    packet[2 + steps] = CH341A_CMD_UIO_STM_OUT | UIO_CS_ASSERT;
    packet[3 + steps] = CH341A_CMD_UIO_STM_END;
    assert(packet@ =~= spec_cs_packet(stored_delay_us));
    packet
}

} // verus!
