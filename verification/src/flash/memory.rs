//! A flash chip emulated in memory, following the flash device contract
//! exactly: reads return the contents, programming clears bits and erasing
//! sets whole ranges to 0xFF.
use vstd::prelude::*;
use crate::chip::types::{EraseBlock, WriteGranularity};
use crate::error::Error;
use super::device::{erased_range, programmed, DeviceCall, DeviceOp, FlashDevice};

verus! {

/// A flash chip held in memory.
pub struct MemoryFlash {
    data: Vec<u8>,
    blocks: Vec<EraseBlock>,
    granularity: WriteGranularity,
    erase_unit: u32,
    log: Ghost<Seq<DeviceCall>>,
}

impl MemoryFlash {
    #[verifier::type_invariant]
    spec fn fits(self) -> bool {
        self.data@.len() <= u32::MAX
    }

    /// The bytes of the chip.
    pub closed spec fn bytes(self) -> Seq<u8> {
        self.data@
    }

    /// The erase blocks of the chip.
    pub closed spec fn blocks(self) -> Seq<EraseBlock> {
        self.blocks@
    }

    /// The write granularity of the chip.
    pub closed spec fn granularity(self) -> WriteGranularity {
        self.granularity
    }

    /// The erase granularity the chip reports.
    pub closed spec fn erase_unit(self) -> u32 {
        self.erase_unit
    }

    /// The calls made of the chip so far.
    pub closed spec fn log(self) -> Seq<DeviceCall> {
        self.log@
    }

    /// A chip holding `data`, erased in `blocks` (the smallest, `erase_unit`
    /// bytes, is the erase granularity) and programmed with `granularity`.
    pub fn new(data: Vec<u8>, blocks: Vec<EraseBlock>, erase_unit: u32, granularity: WriteGranularity) -> (r: MemoryFlash)
        requires
            data@.len() <= u32::MAX,
        ensures
            r.bytes() == data@,
            r.blocks() == blocks@,
            r.granularity() == granularity,
            r.erase_unit() == erase_unit,
            r.log() == Seq::<DeviceCall>::empty(),
    {
        MemoryFlash { data, blocks, granularity, erase_unit, log: Ghost(Seq::empty()) }
    }

    /// The current bytes of the chip.
    pub fn data(&self) -> (r: &[u8])
        ensures
            r@ == self.bytes(),
    {
        self.data.as_slice()
    }

    fn read_bytes(&mut self, addr: u32, buf: &mut [u8]) -> (r: Result<(), Error>)
        ensures
            r is Ok <==> addr + old(buf)@.len() <= old(self).bytes().len(),
            r is Err ==> r == Err::<(), Error>(Error::AddressOutOfBounds) && final(buf)@ == old(buf)@,
            final(buf)@.len() == old(buf)@.len(),
            r is Ok ==> final(buf)@ == old(self).bytes().subrange(addr as int, addr + old(buf)@.len()),
            final(self).bytes() == old(self).bytes(),
            final(self).blocks() == old(self).blocks(),
            final(self).granularity() == old(self).granularity(),
            final(self).erase_unit() == old(self).erase_unit(),
            final(self).log() == old(self).log(),
    {
        let n = buf.len();
        if !self.is_valid_range(addr, n) {
            return Err(Error::AddressOutOfBounds);
        }
        proof {
            use_type_invariant(&*self);
        }
        let start = addr as usize;
        let mut i: usize = 0;
        while i < n
            invariant
                n == old(buf)@.len(),
                self.data@.len() <= u32::MAX,
                buf@.len() == n,
                start + n <= self.data@.len(),
                i <= n,
                forall|k: int| 0 <= k < i ==> #[trigger] buf@[k] == self.data@[start + k],
            decreases n - i,
        {
            buf[i] = self.data[start + i];
            i += 1;
        }
        assert(buf@ =~= self.data@.subrange(addr as int, addr + n));
        Ok(())
    }

    fn program(&mut self, addr: u32, data: &[u8]) -> (r: Result<(), Error>)
        ensures
            r is Ok <==> addr + data@.len() <= old(self).bytes().len(),
            r is Err ==> r == Err::<(), Error>(Error::AddressOutOfBounds) && final(self).bytes() == old(self).bytes(),
            r is Ok ==> final(self).bytes() == programmed(old(self).bytes(), addr as int, data@),
            final(self).bytes().len() == old(self).bytes().len(),
            final(self).blocks() == old(self).blocks(),
            final(self).granularity() == old(self).granularity(),
            final(self).erase_unit() == old(self).erase_unit(),
            final(self).log() == old(self).log(),
    {
        let n = data.len();
        if !self.is_valid_range(addr, n) {
            return Err(Error::AddressOutOfBounds);
        }
        proof {
            use_type_invariant(&*self);
        }
        let ghost before = self.data@;
        let mut bytes: Vec<u8> = Vec::new();
        std::mem::swap(&mut bytes, &mut self.data);
        let start = addr as usize;
        let mut i: usize = 0;
        while i < n
            invariant
                n == data@.len(),
                start == addr,
                start + n <= before.len(),
                before.len() <= u32::MAX,
                bytes@.len() == before.len(),
                i <= n,
                forall|k: int| 0 <= k < before.len() ==> #[trigger] bytes@[k]
                    == if start <= k < start + i { before[k] & data@[k - start] } else { before[k] },
            decreases n - i,
        {
            let b = bytes[start + i] & data[i];
            bytes.set(start + i, b);
            i += 1;
        }
        self.data = bytes;
        assert(self.data@ =~= programmed(before, addr as int, data@));
        Ok(())
    }

    fn erase_bytes(&mut self, addr: u32, len: u32) -> (r: Result<(), Error>)
        ensures
            r is Ok <==> addr + len <= old(self).bytes().len(),
            r is Err ==> r == Err::<(), Error>(Error::AddressOutOfBounds) && final(self).bytes() == old(self).bytes(),
            r is Ok ==> final(self).bytes() == erased_range(old(self).bytes(), addr as int, len as int),
            final(self).bytes().len() == old(self).bytes().len(),
            final(self).blocks() == old(self).blocks(),
            final(self).granularity() == old(self).granularity(),
            final(self).erase_unit() == old(self).erase_unit(),
            final(self).log() == old(self).log(),
    {
        if !self.is_valid_range(addr, len as usize) {
            return Err(Error::AddressOutOfBounds);
        }
        proof {
            use_type_invariant(&*self);
        }
        let ghost before = self.data@;
        let mut bytes: Vec<u8> = Vec::new();
        std::mem::swap(&mut bytes, &mut self.data);
        let start = addr as usize;
        let n = len as usize;
        let mut i: usize = 0;
        while i < n
            invariant
                n == len,
                start == addr,
                start + n <= before.len(),
                before.len() <= u32::MAX,
                bytes@.len() == before.len(),
                i <= n,
                forall|k: int| 0 <= k < before.len() ==> #[trigger] bytes@[k]
                    == if start <= k < start + i { 0xFFu8 } else { before[k] },
            decreases n - i,
        {
            bytes.set(start + i, 0xFF);
            i += 1;
        }
        self.data = bytes;
        assert(self.data@ =~= erased_range(before, addr as int, len as int));
        Ok(())
    }
}

impl FlashDevice for MemoryFlash {
    open spec fn contents(&self) -> Seq<u8> {
        self.bytes()
    }

    open spec fn calls(&self) -> Seq<DeviceCall> {
        self.log()
    }

    open spec fn spec_erase_blocks(&self) -> Seq<EraseBlock> {
        self.blocks()
    }

    open spec fn spec_write_granularity(&self) -> WriteGranularity {
        self.granularity()
    }

    fn size(&self) -> (r: u32) {
        proof {
            use_type_invariant(self);
        }
        self.data.len() as u32
    }

    fn erase_granularity(&self) -> (r: u32)
        ensures
            r == self.erase_unit(),
    {
        self.erase_unit
    }

    fn write_granularity(&self) -> (r: WriteGranularity) {
        self.granularity
    }

    fn erase_blocks(&self) -> (r: &[EraseBlock]) {
        self.blocks.as_slice()
    }

    fn read(&mut self, addr: u32, buf: &mut [u8]) -> (r: Result<(), Error>)
        ensures
            r is Ok <==> addr + old(buf)@.len() <= old(self).bytes().len(),
            r is Err ==> r == Err::<(), Error>(Error::AddressOutOfBounds) && final(buf)@ == old(buf)@,
    {
        let ghost len = buf@.len();
        let r = self.read_bytes(addr, buf);
        proof {
            use_type_invariant(&*self);
        }
        self.log = Ghost(self.log@.push(DeviceCall { op: DeviceOp::Read { addr, len }, result: r }));
        r
    }

    fn write(&mut self, addr: u32, data: &[u8]) -> (r: Result<(), Error>)
        ensures
            r is Ok <==> addr + data@.len() <= old(self).bytes().len(),
            r is Err ==> r == Err::<(), Error>(Error::AddressOutOfBounds) && final(self).bytes() == old(self).bytes(),
            final(self).erase_unit() == old(self).erase_unit(),
    {
        let r = self.program(addr, data);
        proof {
            use_type_invariant(&*self);
        }
        self.log = Ghost(self.log@.push(DeviceCall { op: DeviceOp::Write { addr, data: data@ }, result: r }));
        r
    }

    fn erase(&mut self, addr: u32, len: u32) -> (r: Result<(), Error>)
        ensures
            r is Ok <==> addr + len <= old(self).bytes().len(),
            r is Err ==> r == Err::<(), Error>(Error::AddressOutOfBounds) && final(self).bytes() == old(self).bytes(),
            final(self).erase_unit() == old(self).erase_unit(),
    {
        let r = self.erase_bytes(addr, len);
        proof {
            use_type_invariant(&*self);
        }
        self.log = Ghost(self.log@.push(DeviceCall { op: DeviceOp::Erase { addr, len }, result: r }));
        r
    }
}

} // verus!
