//! Bitbang SPI masters: traits for programmers that drive the SPI lines
//! from software (GPIO), with single, dual and quad I/O helpers.
//!
//! Hardware SPI programmers implement `SpiMaster::execute()` directly; these
//! traits are for the ones that toggle clock and data lines themselves.
//! Each implementation keeps a log of what it did on the bus, which the
//! helpers' contracts describe.
use vstd::prelude::*;
use crate::programmer::features::SpiFeatures;

pub mod dual;
pub mod quad;
pub mod single;

verus! {

/// One action on the SPI bus lines.
#[derive(Debug, Clone, Copy, PartialEq, Eq, Structural)]
pub enum BusEvent {
    /// Chip select set (`true`: asserted, CS low)
    Cs(bool),
    /// Clock line set high or low
    Sck(bool),
    /// MOSI/IO0 line set
    Mosi(bool),
    /// Clock set and two bits driven on IO0/IO1
    DualOut(bool, u8),
    /// Clock set and two bits read from IO0/IO1
    DualIn(bool, u8),
    /// Clock set and four bits driven on IO0..IO3
    QuadOut(bool, u8),
    /// Clock set and four bits read from IO0..IO3
    QuadIn(bool, u8),
    /// IO lines released to input
    Idle,
}

/// Trait for low-level bitbang SPI operations
pub trait BitbangSpiMaster {
    /// What the master has done on the bus so far, in order.
    spec fn bus_log(&self) -> Seq<BusEvent>;

    /// Set chip select (CS is active low, so `active=true` means CS=0)
    fn set_cs(&mut self, active: bool)
        ensures
            final(self).bus_log() == old(self).bus_log().push(BusEvent::Cs(active)),
    ;

    /// Set clock line value
    fn set_sck(&mut self, high: bool)
        ensures
            final(self).bus_log() == old(self).bus_log().push(BusEvent::Sck(high)),
    ;

    /// Set MOSI/IO0 line value (for single-bit output)
    fn set_mosi(&mut self, high: bool)
        ensures
            final(self).bus_log() == old(self).bus_log().push(BusEvent::Mosi(high)),
    ;

    /// Get MISO/IO1 line value (for single-bit input)
    fn get_miso(&self) -> bool;

    /// Delay for half a clock period
    fn half_period_delay(&self);

    /// Set SCK and MOSI (by default: SCK, then MOSI)
    fn set_sck_set_mosi(&mut self, sck: bool, mosi: bool)
        ensures
            final(self).bus_log() == old(self).bus_log().push(BusEvent::Sck(sck)).push(BusEvent::Mosi(mosi)),
    {
        self.set_sck(sck);
        self.set_mosi(mosi);
    }

    /// Set SCK and get MISO (by default: SCK, then read MISO)
    fn set_sck_get_miso(&mut self, sck: bool) -> (r: bool)
        ensures
            final(self).bus_log() == old(self).bus_log().push(BusEvent::Sck(sck)),
    {
        self.set_sck(sck);
        self.get_miso()
    }

    /// Request exclusive bus access
    fn request_bus(&mut self)
        ensures
            final(self).bus_log() == old(self).bus_log(),
    {
    }

    /// Release bus access
    fn release_bus(&mut self)
        ensures
            final(self).bus_log() == old(self).bus_log(),
    {
    }
}

/// Extended trait for dual I/O bitbanging operations
pub trait BitbangDualIo: BitbangSpiMaster {
    /// Set SCK and write 2 bits to IO0/IO1 (bit 0 to IO0, bit 1 to IO1)
    fn set_sck_set_dual_io(&mut self, sck: bool, io: u8)
        ensures
            final(self).bus_log() == old(self).bus_log().push(BusEvent::DualOut(sck, io)),
    ;

    /// Set SCK and read 2 bits from IO0/IO1 (bit 0 from IO0, bit 1 from IO1)
    fn set_sck_get_dual_io(&mut self, sck: bool) -> (r: u8)
        ensures
            final(self).bus_log() == old(self).bus_log().push(BusEvent::DualIn(sck, r)),
    ;

    /// Set IO lines to idle/input state
    fn set_idle_io(&mut self)
        ensures
            final(self).bus_log() == old(self).bus_log().push(BusEvent::Idle),
    ;
}

/// Extended trait for quad I/O bitbanging operations
pub trait BitbangQuadIo: BitbangDualIo {
    /// Set SCK and write 4 bits to IO0..IO3 (bit 0 to IO0, and so on)
    fn set_sck_set_quad_io(&mut self, sck: bool, io: u8)
        ensures
            final(self).bus_log() == old(self).bus_log().push(BusEvent::QuadOut(sck, io)),
    ;

    /// Set SCK and read 4 bits from IO0..IO3 (bit 0 from IO0, and so on)
    fn set_sck_get_quad_io(&mut self, sck: bool) -> (r: u8)
        ensures
            final(self).bus_log() == old(self).bus_log().push(BusEvent::QuadIn(sck, r)),
    ;
}

/// Get the SPI features of a single-wire bitbang master
pub fn features_for_single() -> (r: SpiFeatures)
    ensures
        r.bits == SpiFeatures::FOUR_BYTE_ADDR,
{
    SpiFeatures::from_bits_retain(SpiFeatures::FOUR_BYTE_ADDR)
}

/// Get features for dual I/O capable master
pub fn features_for_dual() -> (r: SpiFeatures)
    ensures
        r.bits == SpiFeatures::FOUR_BYTE_ADDR | SpiFeatures::DUAL,
{
    SpiFeatures::from_bits_retain(SpiFeatures::FOUR_BYTE_ADDR | SpiFeatures::DUAL)
}

/// Get features for quad I/O capable master
pub fn features_for_quad() -> (r: SpiFeatures)
    ensures
        r.bits == SpiFeatures::FOUR_BYTE_ADDR | SpiFeatures::DUAL | SpiFeatures::QUAD | SpiFeatures::QPI,
{
    SpiFeatures::from_bits_retain(SpiFeatures::FOUR_BYTE_ADDR | SpiFeatures::DUAL | SpiFeatures::QUAD | SpiFeatures::QPI)
}

} // verus!
