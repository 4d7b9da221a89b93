//! Address widths for SPI commands.
use vstd::prelude::*;

verus! {

/// Address width for SPI commands.
#[derive(Clone, Copy, Debug, Default, PartialEq, Eq, Hash, Structural)]
pub enum AddressWidth {
    /// No address phase.
    #[default]
    NoAddress,
    /// 3-byte (24-bit) address, up to 16 MiB.
    ThreeByte,
    /// 4-byte (32-bit) address, up to 4 GiB.
    FourByte,
}

/// The big-endian bytes of `address` that go on the wire for `width`.
pub open spec fn address_bytes(width: AddressWidth, address: u32) -> Seq<u8> {
    match width {
        AddressWidth::NoAddress => seq![],
        AddressWidth::ThreeByte => seq![
            (address >> 16u32) as u8,
            (address >> 8u32) as u8,
            address as u8,
        ],
        AddressWidth::FourByte => seq![
            (address >> 24u32) as u8,
            (address >> 16u32) as u8,
            (address >> 8u32) as u8,
            address as u8,
        ],
    }
}

/// The address that a device decodes from big-endian address bytes.
pub open spec fn decode_address(bytes: Seq<u8>) -> int
    decreases bytes.len(),
{
    if bytes.len() == 0 {
        0
    } else {
        decode_address(bytes.drop_last()) * 256 + bytes.last()
    }
}

impl AddressWidth {
    /// Number of address bytes.
    pub open spec fn spec_bytes(self) -> nat {
        match self {
            AddressWidth::NoAddress => 0,
            AddressWidth::ThreeByte => 3,
            AddressWidth::FourByte => 4,
        }
    }

    /// Largest addressable size in bytes.
    pub open spec fn spec_max_size(self) -> u32 {
        match self {
            AddressWidth::NoAddress => 0,
            AddressWidth::ThreeByte => 0x0100_0000,
            AddressWidth::FourByte => 0xFFFF_FFFF,
        }
    }

    /// Returns the number of address bytes.
    pub fn bytes(&self) -> (r: u8)
        ensures
            r == self.spec_bytes(),
    {
        match self {
            AddressWidth::NoAddress => 0,
            AddressWidth::ThreeByte => 3,
            AddressWidth::FourByte => 4,
        }
    }

    /// Returns the maximum addressable size in bytes.
    pub fn max_size(&self) -> (r: u32)
        ensures
            r == self.spec_max_size(),
    {
        match self {
            AddressWidth::NoAddress => 0,
            AddressWidth::ThreeByte => 16 * 1024 * 1024,
            AddressWidth::FourByte => u32::MAX,
        }
    }

    /// Encode an address into the first bytes of `buf`, most significant first.
    pub fn encode(&self, address: u32, buf: &mut [u8])
        requires
            old(buf)@.len() >= self.spec_bytes(),
        ensures
            final(buf)@.len() == old(buf)@.len(),
            final(buf)@.subrange(0, self.spec_bytes() as int) == address_bytes(*self, address),
            final(buf)@.subrange(self.spec_bytes() as int, old(buf)@.len() as int)
                == old(buf)@.subrange(self.spec_bytes() as int, old(buf)@.len() as int),
    {
        match self {
            AddressWidth::NoAddress => {},
            AddressWidth::ThreeByte => {
                buf[0] = (address >> 16) as u8;
                buf[1] = (address >> 8) as u8;
                buf[2] = address as u8;
            },
            AddressWidth::FourByte => {
                buf[0] = (address >> 24) as u8;
                buf[1] = (address >> 16) as u8;
                buf[2] = (address >> 8) as u8;
                buf[3] = address as u8;
            },
        }
        assert(final(buf)@.subrange(0, self.spec_bytes() as int) =~= address_bytes(*self, address));
        assert(final(buf)@.subrange(self.spec_bytes() as int, old(buf)@.len() as int)
            =~= old(buf)@.subrange(self.spec_bytes() as int, old(buf)@.len() as int));
    }
}

/// Encoding an address and decoding the bytes gives back the address,
/// reduced to what the width can carry (24 bits for three-byte addressing).
pub proof fn lemma_address_roundtrip(width: AddressWidth, address: u32)
    ensures
        width == AddressWidth::ThreeByte ==> decode_address(address_bytes(width, address))
            == address as int % 0x0100_0000,
        width == AddressWidth::FourByte ==> decode_address(address_bytes(width, address))
            == address as int,
        width == AddressWidth::NoAddress ==> decode_address(address_bytes(width, address)) == 0,
{
    let b = address_bytes(width, address);
    reveal_with_fuel(decode_address, 5);
    if width == AddressWidth::ThreeByte {
        assert(b.drop_last().drop_last().drop_last() =~= Seq::<u8>::empty());
        assert(b.drop_last().drop_last() =~= seq![(address >> 16u32) as u8]);
        assert(b.drop_last() =~= seq![(address >> 16u32) as u8, (address >> 8u32) as u8]);
        assert((((address >> 16u32) as u8) as int * 256 + ((address >> 8u32) as u8) as int) * 256
            + (address as u8) as int == address as int % 0x0100_0000) by (bit_vector);
    } else if width == AddressWidth::FourByte {
        assert(b.drop_last().drop_last().drop_last().drop_last() =~= Seq::<u8>::empty());
        assert(b.drop_last().drop_last().drop_last() =~= seq![(address >> 24u32) as u8]);
        assert(b.drop_last().drop_last() =~= seq![(address >> 24u32) as u8, (address >> 16u32) as u8]);
        assert(b.drop_last() =~= seq![(address >> 24u32) as u8, (address >> 16u32) as u8, (address >> 8u32) as u8]);
        assert(((((address >> 24u32) as u8) as int * 256 + ((address >> 16u32) as u8) as int) * 256
            + ((address >> 8u32) as u8) as int) * 256 + (address as u8) as int == address as int)
            by (bit_vector);
    }
}

} // verus!
