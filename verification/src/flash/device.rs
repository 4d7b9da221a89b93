//! The flash device interface: address-based read, program and erase over
//! a chip, whatever drives it (SPI commands or an opaque programmer).
use vstd::prelude::*;
use crate::chip::types::{EraseBlock, WriteGranularity};
use crate::error::Error;

verus! {

/// `old` with the bytes of `addr..addr + len` erased (all bits set).
pub open spec fn erased_range(old: Seq<u8>, addr: int, len: int) -> Seq<u8> {
    Seq::new(old.len(), |i: int| if addr <= i < addr + len { 0xFFu8 } else { old[i] })
}

/// `old` with `data` programmed at `addr`: programming only clears bits,
/// so each byte keeps the bits set both before and in the data.
pub open spec fn programmed(old: Seq<u8>, addr: int, data: Seq<u8>) -> Seq<u8> {
    Seq::new(old.len(), |i: int| if addr <= i < addr + data.len() { old[i] & data[i - addr] } else { old[i] })
}

/// Programming `data` into a range just erased leaves exactly `data`
/// there and every other byte as it was.
pub proof fn lemma_program_after_erase(old: Seq<u8>, addr: int, data: Seq<u8>)
    requires
        0 <= addr,
        addr + data.len() <= old.len(),
    ensures
        programmed(erased_range(old, addr, data.len() as int), addr, data)
            == old.subrange(0, addr) + data + old.subrange(addr + data.len(), old.len() as int),
{
    let e = erased_range(old, addr, data.len() as int);
    let p = programmed(e, addr, data);
    let want = old.subrange(0, addr) + data + old.subrange(addr + data.len(), old.len() as int);
    assert forall|i: int| 0 <= i < old.len() implies #[trigger] p[i] == want[i] by {
        if addr <= i < addr + data.len() {
            let x = data[i - addr];
            assert((0xFFu8 & x) == x) by (bit_vector);
        }
    }
    assert(p =~= want);
}

/// A request made of a flash device.
pub ghost enum DeviceOp {
    /// Read `len` bytes at `addr`.
    Read { addr: u32, len: nat },
    /// Program `data` at `addr`.
    Write { addr: u32, data: Seq<u8> },
    /// Erase `len` bytes at `addr`.
    Erase { addr: u32, len: u32 },
}

/// One call of a flash device: the request and what the device answered.
pub ghost struct DeviceCall {
    /// The request.
    pub op: DeviceOp,
    /// What the device answered.
    pub result: Result<(), Error>,
}

/// A call after `before` answered the error `e`.
pub open spec fn device_answered(before: Seq<DeviceCall>, after: Seq<DeviceCall>, e: Error) -> bool {
    exists|j: int| before.len() <= j < after.len() && #[trigger] after[j].result == Err::<(), Error>(e)
}

/// An error answered by a call stays answered as more calls follow.
pub proof fn lemma_device_answered(c0: Seq<DeviceCall>, c1: Seq<DeviceCall>, c2: Seq<DeviceCall>, e: Error)
    requires
        c0.is_prefix_of(c1),
        c1.is_prefix_of(c2),
        device_answered(c0, c1, e) || device_answered(c1, c2, e),
    ensures
        device_answered(c0, c2, e),
{
    if device_answered(c0, c1, e) {
        let j = choose|j: int| c0.len() <= j < c1.len() && #[trigger] c1[j].result == Err::<(), Error>(e);
        assert(c2.subrange(0, c1.len() as int)[j] == c2[j]);
    } else {
        let j = choose|j: int| c1.len() <= j < c2.len() && #[trigger] c2[j].result == Err::<(), Error>(e);
        assert(c0.len() <= j);
    }
}

/// Unified trait for flash devices
///
/// Abstracts over SPI-based flash chips (raw SPI access and chip metadata
/// from JEDEC probing) and opaque programmers (the hardware runs the
/// protocol; only address-based access). All operations use 32-bit
/// addresses. The contract describes the chip's contents: reads return
/// them, erases set bytes to 0xFF and writes program bytes by clearing bits.
pub trait FlashDevice {
    /// The current contents of the whole chip.
    spec fn contents(&self) -> Seq<u8>;

    /// The reads, writes and erases made of the device so far, oldest
    /// first, each with what the device answered.
    spec fn calls(&self) -> Seq<DeviceCall>;

    /// The erase blocks the device offers.
    spec fn spec_erase_blocks(&self) -> Seq<EraseBlock>;

    /// The write granularity of the device.
    spec fn spec_write_granularity(&self) -> WriteGranularity;

    /// Get the total flash size in bytes
    fn size(&self) -> (r: u32)
        ensures
            r == self.contents().len(),
    ;

    /// Get the minimum erase block size in bytes
    fn erase_granularity(&self) -> u32;

    /// Get the write granularity for smart write decisions
    fn write_granularity(&self) -> (r: WriteGranularity)
        ensures
            r == self.spec_write_granularity(),
    ;

    /// Get available erase block sizes, from smallest to largest
    fn erase_blocks(&self) -> (r: &[EraseBlock])
        ensures
            r@ == self.spec_erase_blocks(),
    ;

    /// Read flash contents into the provided buffer
    fn read(&mut self, addr: u32, buf: &mut [u8]) -> (r: Result<(), Error>)
        ensures
            final(buf)@.len() == old(buf)@.len(),
            final(self).contents() == old(self).contents(),
            final(self).spec_erase_blocks() == old(self).spec_erase_blocks(),
            final(self).spec_write_granularity() == old(self).spec_write_granularity(),
            final(self).calls() == old(self).calls().push(
                DeviceCall { op: DeviceOp::Read { addr, len: old(buf)@.len() }, result: r },
            ),
            r is Ok ==> addr + old(buf)@.len() <= old(self).contents().len()
                && final(buf)@ == old(self).contents().subrange(addr as int, addr + old(buf)@.len()),
    ;

    /// Write data to flash (the target region should be erased first)
    fn write(&mut self, addr: u32, data: &[u8]) -> (r: Result<(), Error>)
        ensures
            final(self).contents().len() == old(self).contents().len(),
            final(self).spec_erase_blocks() == old(self).spec_erase_blocks(),
            final(self).spec_write_granularity() == old(self).spec_write_granularity(),
            final(self).calls() == old(self).calls().push(
                DeviceCall { op: DeviceOp::Write { addr, data: data@ }, result: r },
            ),
            r is Ok ==> addr + data@.len() <= old(self).contents().len()
                && final(self).contents() == programmed(old(self).contents(), addr as int, data@),
    ;

    /// Erase a region of flash
    fn erase(&mut self, addr: u32, len: u32) -> (r: Result<(), Error>)
        ensures
            final(self).contents().len() == old(self).contents().len(),
            final(self).spec_erase_blocks() == old(self).spec_erase_blocks(),
            final(self).spec_write_granularity() == old(self).spec_write_granularity(),
            final(self).calls() == old(self).calls().push(
                DeviceCall { op: DeviceOp::Erase { addr, len }, result: r },
            ),
            r is Ok ==> addr + len <= old(self).contents().len()
                && final(self).contents() == erased_range(old(self).contents(), addr as int, len as int),
    ;

    /// Check if a range is valid for this device
    fn is_valid_range(&self, addr: u32, len: usize) -> (r: bool)
        ensures
            r == (addr + len <= self.contents().len()),
    {
        let size = self.size();
        match (addr as u64).checked_add(len as u64) {
            Some(end) => end <= size as u64,
            None => false,
        }
    }
}

/// Whole-chip operations on any flash device.
pub trait FlashDeviceExt: FlashDevice {
    /// Read the entire flash contents
    fn read_all(&mut self) -> (r: Result<Vec<u8>, Error>)
        ensures
            final(self).contents() == old(self).contents(),
            r matches Ok(v) ==> v@ == old(self).contents(),
    {
        let size = self.size() as usize;
        let mut buf: Vec<u8> = vec![0u8; size];
        self.read(0, buf.as_mut_slice())?;
        assert(old(self).contents().subrange(0, size as int) =~= old(self).contents());
        Ok(buf)
    }

    /// Erase the entire flash chip
    fn erase_all(&mut self) -> (r: Result<(), Error>)
        ensures
            final(self).contents().len() == old(self).contents().len(),
            r is Ok ==> forall|i: int| 0 <= i < old(self).contents().len() ==> #[trigger] final(self).contents()[i] == 0xFF,
    {
        let size = self.size();
        self.erase(0, size)
    }
}

impl<D: FlashDevice + ?Sized> FlashDeviceExt for D {
}

} // verus!
