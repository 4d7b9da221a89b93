//! SPI25 protocol: the common SPI flash command sequences defined by
//! JEDEC, including dual and quad I/O reads.
//!
//! Every function drives a [`SpiMaster`]; what the chip answers is up to the
//! programmer, so the contracts state what holds whatever came back.
use vstd::prelude::*;
use crate::chip::features::Features;
use crate::error::Error;
use crate::programmer::features::SpiFeatures;
use crate::programmer::traits::{SpiMaster, Transaction};
use crate::spi::address::AddressWidth;
use crate::spi::command::SpiCommand;
use crate::spi::io_mode::IoMode;
use crate::spi::opcodes;

verus! {

/// Poll interval for status register write completion (microseconds)
pub const WRSR_POLL_US: u32 = 10_000;
/// Timeout for status register write completion (microseconds)
pub const WRSR_TIMEOUT_US: u32 = 500_000;
/// Poll interval for page program completion (microseconds)
pub const PAGE_PROGRAM_POLL_US: u32 = 10;
/// Timeout for page program completion (microseconds)
pub const PAGE_PROGRAM_TIMEOUT_US: u32 = 10_000;
/// Poll interval for chip erase completion (microseconds)
pub const CHIP_ERASE_POLL_US: u32 = 1_000_000;
/// Timeout for chip erase completion (microseconds)
pub const CHIP_ERASE_TIMEOUT_US: u32 = 200_000_000;
/// Poll interval for block erase completion (microseconds)
pub const BLOCK_ERASE_POLL_US: u32 = 10_000;
/// Timeout for block erase completion (microseconds)
pub const BLOCK_ERASE_TIMEOUT_US: u32 = 10_000_000;

/// Addressing behavior for an addressed SPI command.
#[derive(Debug, Clone, Copy, PartialEq, Eq, Structural)]
pub enum CommandAddressing {
    /// Send a 24-bit address directly in the command.
    ThreeByte,
    /// Send a 32-bit address directly in the command.
    FourByte,
    /// Select the high address byte through the chip's extended address
    /// register, then send the low 24 bits in the command.
    ExtendedAddressRegister(Features),
}

impl CommandAddressing {
    /// Address bytes on the wire: four for `FourByte`, else three.
    pub open spec fn spec_address_width(self) -> AddressWidth {
        match self {
            CommandAddressing::FourByte => AddressWidth::FourByte,
            _ => AddressWidth::ThreeByte,
        }
    }

    /// Address width of the commands sent.
    pub fn address_width(self) -> (r: AddressWidth)
        ensures
            r == self.spec_address_width(),
    {
        match self {
            CommandAddressing::FourByte => AddressWidth::FourByte,
            _ => AddressWidth::ThreeByte,
        }
    }

    /// The largest chunk at `addr` of at most `requested` bytes: with an
    /// extended address register a chunk stops at the end of the 16 MiB bank.
    pub open spec fn spec_max_chunk_len(self, addr: u32, requested: int) -> int {
        match self {
            CommandAddressing::ExtendedAddressRegister(_) => {
                let to_bank_end = 0x0100_0000 - (addr as int % 0x0100_0000);
                if requested < to_bank_end { requested } else { to_bank_end }
            },
            _ => requested,
        }
    }

    /// Length of the next chunk of a transfer.
    pub fn max_chunk_len(self, addr: u32, requested: usize) -> (r: usize)
        ensures
            r == self.spec_max_chunk_len(addr, requested as int),
    {
        match self {
            CommandAddressing::ExtendedAddressRegister(_) => {
                let low = addr & 0x00FF_FFFF;
                assert(low == addr as int % 0x0100_0000) by (bit_vector)
                    requires low == addr & 0x00FF_FFFF;
                let to_bank_end = (0x0100_0000u32 - low) as usize;
                if requested < to_bank_end { requested } else { to_bank_end }
            },
            _ => requested,
        }
    }
}

/// The JEDEC ID in the three bytes answered to RDID: manufacturer, then
/// device ID most significant byte first.
pub open spec fn spec_jedec_id_from_bytes(b0: u8, b1: u8, b2: u8) -> (u8, u16) {
    (b0, ((b1 as u16) << 8u16) | (b2 as u16))
}

/// The RDID reply `r0 r1 r2` names manufacturer `r0` and device
/// `r1 * 256 + r2`: the first device byte is the high byte.
pub proof fn lemma_jedec_id_bytes(b0: u8, b1: u8, b2: u8)
    ensures
        spec_jedec_id_from_bytes(b0, b1, b2).0 == b0,
        spec_jedec_id_from_bytes(b0, b1, b2).1 == b1 * 256 + b2,
{
    assert((((b1 as u16) << 8u16) | (b2 as u16)) == b1 * 256 + b2) by (bit_vector);
}

/// Decode the three RDID bytes.
pub fn jedec_id_from_bytes(b0: u8, b1: u8, b2: u8) -> (r: (u8, u16))
    ensures
        r == spec_jedec_id_from_bytes(b0, b1, b2),
        r.0 == b0,
        r.1 == b1 * 256 + b2,
{
    proof {
        lemma_jedec_id_bytes(b0, b1, b2);
    }
    (b0, ((b1 as u16) << 8u16) | (b2 as u16))
}

/// The transactions that `after` holds beyond `before`.
pub open spec fn new_transactions(before: Seq<Transaction>, after: Seq<Transaction>) -> Seq<Transaction> {
    after.subrange(before.len() as int, after.len() as int)
}

/// `after` is `before` followed by more transactions.
pub open spec fn extends(before: Seq<Transaction>, after: Seq<Transaction>) -> bool {
    before.is_prefix_of(after)
}

/// The command asks for `opcode`, `address` sent with `width`, in `io_mode`
/// with `dummy` cycles, writes `write` and reads `read_len` bytes.
pub open spec fn is_request(
    c: SpiCommand,
    opcode: u8,
    address: Option<u32>,
    width: AddressWidth,
    io_mode: IoMode,
    dummy: u8,
    write: Seq<u8>,
    read_len: nat,
) -> bool {
    &&& c.opcode == opcode
    &&& c.address == address
    &&& c.address_width == width
    &&& c.io_mode == io_mode
    &&& c.dummy_cycles == dummy
    &&& c.write_data@ == write
    &&& c.read_buf@.len() == read_len
}

/// A single-I/O request without dummy cycles.
pub open spec fn is_plain_request(
    c: SpiCommand,
    opcode: u8,
    address: Option<u32>,
    width: AddressWidth,
    write: Seq<u8>,
    read_len: nat,
) -> bool {
    is_request(c, opcode, address, width, IoMode::Single, 0, write, read_len)
}

/// A bare opcode, with no address, data or answer.
pub open spec fn is_simple(c: SpiCommand, opcode: u8) -> bool {
    is_plain_request(c, opcode, None, AddressWidth::NoAddress, seq![], 0)
}

/// A status register 1 read of one byte.
pub open spec fn is_status_poll(t: Transaction) -> bool {
    is_plain_request(t.command, opcodes::RDSR, None, AddressWidth::NoAddress, seq![], 1)
        && t.reply.len() == 1
}

/// The answer of a status poll shows no write in progress.
pub open spec fn is_ready(t: Transaction) -> bool {
    t.reply[0] & opcodes::SR1_WIP == 0
}

/// Status polls as `wait_ready` sends them: each a status read, at most
/// `max_polls` of them, all but the last answered busy; success only when
/// the last one answered ready.
pub open spec fn polled(ts: Seq<Transaction>, max_polls: u32, ok: bool) -> bool {
    &&& ts.len() <= max_polls
    &&& forall|j: int| 0 <= j < ts.len() ==> is_status_poll(#[trigger] ts[j])
    &&& forall|j: int| 0 <= j < ts.len() - 1 ==> !is_ready(#[trigger] ts[j])
    &&& ok ==> ts.len() >= 1 && is_ready(ts.last())
}

/// All bytes read back by the transactions, in order.
pub open spec fn replies(ts: Seq<Transaction>) -> Seq<u8>
    decreases ts.len(),
{
    if ts.len() == 0 {
        seq![]
    } else {
        replies(ts.drop_last()) + ts.last().reply
    }
}

/// Transactions carried out one after another add up.
pub proof fn lemma_new_chain(a: Seq<Transaction>, b: Seq<Transaction>, c: Seq<Transaction>)
    requires
        extends(a, b),
        extends(b, c),
    ensures
        extends(a, c),
        new_transactions(a, c) == new_transactions(a, b) + new_transactions(b, c),
{
    assert(c.subrange(0, a.len() as int) =~= b.subrange(0, a.len() as int));
    assert(new_transactions(a, c) =~= new_transactions(a, b) + new_transactions(b, c));
}

/// One transaction with `cmd` was carried out after `before`.
pub open spec fn sent_one(before: Seq<Transaction>, after: Seq<Transaction>, cmd: SpiCommand) -> bool {
    &&& after.len() == before.len() + 1
    &&& extends(before, after)
    &&& after.last().command == cmd
    &&& after.last().reply.len() == cmd.read_buf@.len()
}

/// The bare opcodes `ops` were sent after `before`, in order, each in one
/// transaction; all of them when `ok`, else the sequence stopped early at
/// a failed transaction.
pub open spec fn sent_simples(before: Seq<Transaction>, after: Seq<Transaction>, ops: Seq<u8>, ok: bool) -> bool {
    let ts = new_transactions(before, after);
    &&& extends(before, after)
    &&& 1 <= ts.len() <= ops.len()
    &&& forall|j: int| #![trigger ts[j]] 0 <= j < ts.len() ==> is_simple(ts[j].command, ops[j]) && ts[j].reply.len() == 0
    &&& ok ==> ts.len() == ops.len()
}

/// One read of `len` bytes with a bare `opcode` was sent after `before`.
pub open spec fn sent_register_read(before: Seq<Transaction>, after: Seq<Transaction>, opcode: u8, len: nat) -> bool {
    &&& after.len() == before.len() + 1
    &&& extends(before, after)
    &&& is_plain_request(after.last().command, opcode, None, AddressWidth::NoAddress, seq![], len)
    &&& after.last().reply.len() == len
}

/// A transaction after `before` answered the error `e`.
pub open spec fn answered(before: Seq<Transaction>, after: Seq<Transaction>, e: Error) -> bool {
    exists|j: int| before.len() <= j < after.len() && #[trigger] after[j].result == Err::<(), Error>(e)
}

/// An error answered by a transaction stays answered as more follow.
pub proof fn lemma_answered(t0: Seq<Transaction>, t1: Seq<Transaction>, t2: Seq<Transaction>, e: Error)
    requires
        extends(t0, t1),
        extends(t1, t2),
        answered(t0, t1, e) || answered(t1, t2, e),
    ensures
        answered(t0, t2, e),
{
    if answered(t0, t1, e) {
        let j = choose|j: int| t0.len() <= j < t1.len() && #[trigger] t1[j].result == Err::<(), Error>(e);
        assert(t2.subrange(0, t1.len() as int)[j] == t2[j]);
        assert(t2[j] == t1[j]);
    } else {
        let j = choose|j: int| t1.len() <= j < t2.len() && #[trigger] t2[j].result == Err::<(), Error>(e);
        assert(t2[j].result == Err::<(), Error>(e));
    }
}

/// Execute a command that reads `len` bytes and return them.
fn execute_read<M: SpiMaster + ?Sized>(master: &mut M, cmd: SpiCommand) -> (r: Result<Vec<u8>, Error>)
    ensures
        final(master).spec_max_read_len() == old(master).spec_max_read_len(),
        sent_one(old(master).transactions(), final(master).transactions(), cmd),
        r matches Ok(v) ==> v@ == final(master).transactions().last().reply,
        r is Ok <==> final(master).transactions().last().result is Ok,
        r matches Err(e) ==> final(master).transactions().last().result == Err::<(), Error>(e)
            && answered(old(master).transactions(), final(master).transactions(), e),
{
    let mut cmd = cmd;
    let ghost c0 = cmd;
    match master.execute(&mut cmd) {
        Ok(()) => {
            assert(master.transactions().subrange(0, old(master).transactions().len() as int) =~= old(master).transactions());
            Ok(cmd.read_buf)
        },
        Err(e) => {
            assert(master.transactions().subrange(0, old(master).transactions().len() as int) =~= old(master).transactions());
            assert(master.transactions()[master.transactions().len() - 1].result == Err::<(), Error>(e));
            Err(e)
        },
    }
}

/// Execute a command whose answer is not read.
fn execute<M: SpiMaster + ?Sized>(master: &mut M, cmd: SpiCommand) -> (r: Result<(), Error>)
    ensures
        sent_one(old(master).transactions(), final(master).transactions(), cmd),
        final(master).transactions().last().result == r,
        r matches Err(e) ==> answered(old(master).transactions(), final(master).transactions(), e),
        final(master).spec_max_read_len() == old(master).spec_max_read_len(),
{
    let mut cmd = cmd;
    let r = master.execute(&mut cmd);
    assert(master.transactions().subrange(0, old(master).transactions().len() as int) =~= old(master).transactions());
    assert(master.transactions()[master.transactions().len() - 1].result == r);
    r
}

/// A zeroed buffer of `n` bytes.
fn zeroed(n: usize) -> (v: Vec<u8>)
    ensures
        v@.len() == n,
        forall|i: int| 0 <= i < n ==> v@[i] == 0,
{
    let mut v: Vec<u8> = Vec::new();
    let mut i: usize = 0;
    while i < n
        invariant
            i <= n,
            v@.len() == i,
            forall|k: int| 0 <= k < i ==> v@[k] == 0,
        decreases n - i,
    {
        v.push(0);
        i = i + 1;
    }
    v
}

/// Read the JEDEC ID from a flash chip: (manufacturer_id, device_id).
pub fn read_jedec_id<M: SpiMaster + ?Sized>(master: &mut M) -> (r: Result<(u8, u16), Error>)
    ensures
        final(master).spec_max_read_len() == old(master).spec_max_read_len(),
        sent_register_read(old(master).transactions(), final(master).transactions(), opcodes::RDID, 3),
        r matches Ok(id) ==> id == spec_jedec_id_from_bytes(
            final(master).transactions().last().reply[0],
            final(master).transactions().last().reply[1],
            final(master).transactions().last().reply[2],
        ),
        r matches Err(e) ==> answered(old(master).transactions(), final(master).transactions(), e),
        r is Ok <==> final(master).transactions().last().result is Ok,
{
    let v = execute_read(master, SpiCommand::read_reg(opcodes::RDID, zeroed(3)))?;
    Ok(jedec_id_from_bytes(v[0], v[1], v[2]))
}

/// Read one status register byte with `opcode`.
fn read_status<M: SpiMaster + ?Sized>(master: &mut M, opcode: u8) -> (r: Result<u8, Error>)
    ensures
        sent_register_read(old(master).transactions(), final(master).transactions(), opcode, 1),
        r matches Ok(b) ==> b == final(master).transactions().last().reply[0],
        r matches Err(e) ==> answered(old(master).transactions(), final(master).transactions(), e),
        r is Ok <==> final(master).transactions().last().result is Ok,
{
    let v = execute_read(master, SpiCommand::read_reg(opcode, zeroed(1)))?;
    Ok(v[0])
}

/// Read the status register 1
pub fn read_status1<M: SpiMaster + ?Sized>(master: &mut M) -> (r: Result<u8, Error>)
    ensures
        sent_register_read(old(master).transactions(), final(master).transactions(), opcodes::RDSR, 1),
        r matches Ok(b) ==> b == final(master).transactions().last().reply[0],
        r matches Err(e) ==> answered(old(master).transactions(), final(master).transactions(), e),
        r is Ok <==> final(master).transactions().last().result is Ok,
{
    read_status(master, opcodes::RDSR)
}

/// Read the status register 2
pub fn read_status2<M: SpiMaster + ?Sized>(master: &mut M) -> (r: Result<u8, Error>)
    ensures
        sent_register_read(old(master).transactions(), final(master).transactions(), opcodes::RDSR2, 1),
        r matches Ok(b) ==> b == final(master).transactions().last().reply[0],
        r matches Err(e) ==> answered(old(master).transactions(), final(master).transactions(), e),
        r is Ok <==> final(master).transactions().last().result is Ok,
{
    read_status(master, opcodes::RDSR2)
}

/// Read the status register 3
pub fn read_status3<M: SpiMaster + ?Sized>(master: &mut M) -> (r: Result<u8, Error>)
    ensures
        sent_register_read(old(master).transactions(), final(master).transactions(), opcodes::RDSR3, 1),
        r matches Ok(b) ==> b == final(master).transactions().last().reply[0],
        r matches Err(e) ==> answered(old(master).transactions(), final(master).transactions(), e),
        r is Ok <==> final(master).transactions().last().result is Ok,
{
    read_status(master, opcodes::RDSR3)
}

/// Send the Write Enable command (WREN, 0x06)
pub fn write_enable<M: SpiMaster + ?Sized>(master: &mut M) -> (r: Result<(), Error>)
    ensures
        final(master).spec_max_read_len() == old(master).spec_max_read_len(),
        sent_simples(old(master).transactions(), final(master).transactions(), seq![opcodes::WREN], true),
        r matches Err(e) ==> answered(old(master).transactions(), final(master).transactions(), e),
        r is Ok <==> final(master).transactions().last().result is Ok,
{
    execute(master, SpiCommand::simple(opcodes::WREN))
}

/// Send the Enable Write Status Register command (EWSR, 0x50), used on
/// legacy SST25 chips instead of WREN before a WRSR command.
pub fn write_enable_ewsr<M: SpiMaster + ?Sized>(master: &mut M) -> (r: Result<(), Error>)
    ensures
        sent_simples(old(master).transactions(), final(master).transactions(), seq![opcodes::EWSR], true),
        r matches Err(e) ==> answered(old(master).transactions(), final(master).transactions(), e),
        r is Ok <==> final(master).transactions().last().result is Ok,
{
    execute(master, SpiCommand::simple(opcodes::EWSR))
}

/// Send the Write Disable command (WRDI, 0x04)
pub fn write_disable<M: SpiMaster + ?Sized>(master: &mut M) -> (r: Result<(), Error>)
    ensures
        sent_simples(old(master).transactions(), final(master).transactions(), seq![opcodes::WRDI], true),
        r matches Err(e) ==> answered(old(master).transactions(), final(master).transactions(), e),
        r is Ok <==> final(master).transactions().last().result is Ok,
{
    execute(master, SpiCommand::simple(opcodes::WRDI))
}

/// Number of status polls for a timeout: `timeout_us / poll_delay_us`, or
/// `timeout_us` when the delay is 0.
pub open spec fn spec_max_polls(poll_delay_us: u32, timeout_us: u32) -> u32 {
    if poll_delay_us == 0 { timeout_us } else { timeout_us / poll_delay_us }
}

/// Wait for the WIP (Write In Progress) bit to clear, polling the status
/// register every `poll_delay_us` microseconds up to
/// `spec_max_polls(poll_delay_us, timeout_us)` times; `Err(Timeout)` when
/// it never clears.
pub fn wait_ready<M: SpiMaster + ?Sized>(master: &mut M, poll_delay_us: u32, timeout_us: u32) -> (r: Result<(), Error>)
    ensures
        spec_max_polls(poll_delay_us, timeout_us) == 0 ==> r == Err::<(), Error>(Error::Timeout),
        extends(old(master).transactions(), final(master).transactions()),
        polled(new_transactions(old(master).transactions(), final(master).transactions()),
            spec_max_polls(poll_delay_us, timeout_us), r is Ok),
        spec_max_polls(poll_delay_us, timeout_us) > 0 ==> new_transactions(old(master).transactions(),
            final(master).transactions()).len() >= 1,
        r matches Err(e) ==> answered(old(master).transactions(), final(master).transactions(), e) || e == Error::Timeout,
{
    let ghost t0 = master.transactions();
    let max_polls = match timeout_us.checked_div(poll_delay_us) {
        Some(n) => n,
        None => timeout_us,
    };
    assert(max_polls == spec_max_polls(poll_delay_us, timeout_us));
    let mut i: u32 = 0;
    assert(new_transactions(t0, master.transactions()) =~= seq![]);
    while i < max_polls
        invariant
            i <= max_polls,
            max_polls == spec_max_polls(poll_delay_us, timeout_us),
            t0 == old(master).transactions(),
            extends(t0, master.transactions()),
            new_transactions(t0, master.transactions()).len() == i,
            forall|j: int| 0 <= j < i ==> is_status_poll(#[trigger] new_transactions(t0, master.transactions())[j])
                && !is_ready(new_transactions(t0, master.transactions())[j]),
        decreases max_polls - i,
    {
        let ghost t1 = master.transactions();
        let res = read_status1(master);
        proof {
            lemma_new_chain(t0, t1, master.transactions());
            assert(new_transactions(t1, master.transactions())[0] == master.transactions().last());
            assert(new_transactions(t0, master.transactions()).last() == master.transactions().last());
            assert(new_transactions(t0, master.transactions()).len() == i + 1);
            assert forall|j: int| 0 <= j < i implies #[trigger] new_transactions(t0, master.transactions())[j]
                == new_transactions(t0, t1)[j] by {}
            assert(is_status_poll(new_transactions(t0, master.transactions())[i as int]));
            if res is Err {
                lemma_answered(t0, t1, master.transactions(), res->Err_0);
            }
        }
        let status = res?;
        if status & opcodes::SR1_WIP == 0 {
            return Ok(());
        }
        if poll_delay_us > 0 {
            master.delay_us(poll_delay_us);
        }
        i = i + 1;
    }
    Err(Error::Timeout)
}

/// Write a status register value with `opcode` after `enable` (WREN or
/// EWSR), then wait for completion.
fn write_status_with<M: SpiMaster + ?Sized>(master: &mut M, enable: u8, opcode: u8, data: &[u8]) -> (r: Result<(), Error>)
    ensures
        status_written(old(master).transactions(), final(master).transactions(), enable, opcode, data@, r is Ok),
        r matches Err(e) ==> answered(old(master).transactions(), final(master).transactions(), e) || e == Error::Timeout,
{
    let ghost t0 = master.transactions();
    execute(master, SpiCommand::simple(enable))?;
    let ghost t1 = master.transactions();
    let r2 = execute(master, SpiCommand::write_reg(opcode, data));
    let ghost t2 = master.transactions();
    proof {
        lemma_new_chain(t0, t1, t2);
        assert(new_transactions(t0, t1)[0] == t1.last());
        assert(new_transactions(t1, t2)[0] == t2.last());
        if r2 is Err {
            lemma_answered(t0, t1, t2, r2->Err_0);
        }
    }
    r2?;
    let r = wait_ready(master, WRSR_POLL_US, WRSR_TIMEOUT_US);
    proof {
        lemma_new_chain(t0, t2, master.transactions());
        if r is Err && r->Err_0 != Error::Timeout {
            lemma_answered(t0, t2, master.transactions(), r->Err_0);
        }
        assert(new_transactions(t0, master.transactions()).skip(2) =~= new_transactions(t2, master.transactions()));
    }
    r
}

/// A status register write as `write_status_with` sends it: `enable`, then
/// `opcode` with `data`, then status polls until ready; a failed
/// transaction ends the sequence early.
pub open spec fn status_written(before: Seq<Transaction>, after: Seq<Transaction>, enable: u8, opcode: u8, data: Seq<u8>, ok: bool) -> bool {
    &&& extends(before, after)
    &&& status_write_sent(new_transactions(before, after), enable, opcode, data, ok)
}

/// The transactions `ts` of a status register write (see `status_written`).
pub open spec fn status_write_sent(ts: Seq<Transaction>, enable: u8, opcode: u8, data: Seq<u8>, ok: bool) -> bool {
    &&& ts.len() >= 1
    &&& is_simple(ts[0].command, enable)
    &&& ts.len() >= 2 ==> is_plain_request(ts[1].command, opcode, None, AddressWidth::NoAddress, data, 0)
    &&& ts.len() >= 2 ==> polled(ts.skip(2), spec_max_polls(WRSR_POLL_US, WRSR_TIMEOUT_US), ok)
    &&& ok ==> ts.len() >= 3
}

/// Write the status register 1 (WREN before WRSR)
pub fn write_status1<M: SpiMaster + ?Sized>(master: &mut M, value: u8) -> (r: Result<(), Error>)
    ensures
        status_written(old(master).transactions(), final(master).transactions(), opcodes::WREN, opcodes::WRSR, seq![value], r is Ok),
        r matches Err(e) ==> answered(old(master).transactions(), final(master).transactions(), e) || e == Error::Timeout,
{
    let data = [value];
    assert(data@ =~= seq![value]);
    write_status_with(master, opcodes::WREN, opcodes::WRSR, &data)
}

/// Write the status register 1, using EWSR (0x50) instead of WREN
pub fn write_status1_ewsr<M: SpiMaster + ?Sized>(master: &mut M, value: u8) -> (r: Result<(), Error>)
    ensures
        status_written(old(master).transactions(), final(master).transactions(), opcodes::EWSR, opcodes::WRSR, seq![value], r is Ok),
        r matches Err(e) ==> answered(old(master).transactions(), final(master).transactions(), e) || e == Error::Timeout,
{
    let data = [value];
    assert(data@ =~= seq![value]);
    write_status_with(master, opcodes::EWSR, opcodes::WRSR, &data)
}

/// Write status registers 1 and 2 together
pub fn write_status12<M: SpiMaster + ?Sized>(master: &mut M, sr1: u8, sr2: u8) -> (r: Result<(), Error>)
    ensures
        status_written(old(master).transactions(), final(master).transactions(), opcodes::WREN, opcodes::WRSR, seq![sr1, sr2], r is Ok),
        r matches Err(e) ==> answered(old(master).transactions(), final(master).transactions(), e) || e == Error::Timeout,
{
    let data = [sr1, sr2];
    assert(data@ =~= seq![sr1, sr2]);
    write_status_with(master, opcodes::WREN, opcodes::WRSR, &data)
}

/// Write status registers 1 and 2 together, using EWSR (0x50) instead of WREN
pub fn write_status12_ewsr<M: SpiMaster + ?Sized>(master: &mut M, sr1: u8, sr2: u8) -> (r: Result<(), Error>)
    ensures
        status_written(old(master).transactions(), final(master).transactions(), opcodes::EWSR, opcodes::WRSR, seq![sr1, sr2], r is Ok),
        r matches Err(e) ==> answered(old(master).transactions(), final(master).transactions(), e) || e == Error::Timeout,
{
    let data = [sr1, sr2];
    assert(data@ =~= seq![sr1, sr2]);
    write_status_with(master, opcodes::EWSR, opcodes::WRSR, &data)
}

/// Write SR2 directly using opcode 0x31
fn write_status2_direct<M: SpiMaster + ?Sized>(master: &mut M, value: u8) -> (r: Result<(), Error>)
    ensures
        status_written(old(master).transactions(), final(master).transactions(), opcodes::WREN, opcodes::WRSR2, seq![value], r is Ok),
        r matches Err(e) ==> answered(old(master).transactions(), final(master).transactions(), e) || e == Error::Timeout,
{
    let data = [value];
    assert(data@ =~= seq![value]);
    write_status_with(master, opcodes::WREN, opcodes::WRSR2, &data)
}

/// Copy `src` into `dst` from `offset` on.
fn copy_into(dst: &mut [u8], offset: usize, src: &Vec<u8>)
    requires
        offset + src@.len() <= old(dst)@.len(),
    ensures
        final(dst)@.len() == old(dst)@.len(),
        final(dst)@.subrange(offset as int, offset + src@.len()) == src@,
        forall|i: int| 0 <= i < offset ==> final(dst)@[i] == old(dst)@[i],
{
    let n = dst.len();
    let mut k: usize = 0;
    while k < src.len()
        invariant
            n == dst@.len(),
            offset + src@.len() <= dst@.len(),
            dst@.len() == old(dst)@.len(),
            k <= src@.len(),
            forall|i: int| 0 <= i < k ==> dst@[offset + i] == src@[i],
            forall|i: int| 0 <= i < offset ==> dst@[i] == old(dst)@[i],
        decreases src@.len() - k,
    {
        dst[offset + k] = src[k];
        k = k + 1;
    }
    assert(dst@.subrange(offset as int, offset + src@.len()) =~= src@);
}

/// The reads of a chunked transfer: every transaction that reads asks for
/// `opcode` at `addr` plus the bytes read before it, with the addressing's
/// width, `io_mode` and `dummy` cycles; without an extended address
/// register every transaction reads. (With one, the bank selects between
/// the reads read nothing.)
pub open spec fn chunked_read(
    ts: Seq<Transaction>,
    opcode: u8,
    addr: u32,
    addressing: CommandAddressing,
    io_mode: IoMode,
    dummy: u8,
) -> bool {
    &&& forall|j: int| #![trigger ts[j]] 0 <= j < ts.len() && ts[j].reply.len() > 0 ==> is_request(
        ts[j].command,
        opcode,
        Some((addr + replies(ts.take(j)).len()) as u32),
        addressing.spec_address_width(),
        io_mode,
        dummy,
        seq![],
        ts[j].reply.len(),
    )
    &&& !(addressing is ExtendedAddressRegister) ==> forall|j: int| #![trigger ts[j]] 0 <= j < ts.len() ==> ts[j].reply.len() > 0
}

/// The bytes read by transactions one after another add up.
pub proof fn lemma_replies_concat(a: Seq<Transaction>, b: Seq<Transaction>)
    ensures
        replies(a + b) == replies(a) + replies(b),
    decreases b.len(),
{
    if b.len() == 0 {
        assert(a + b =~= a);
        assert(replies(a) + replies(b) =~= replies(a));
    } else {
        assert((a + b).drop_last() =~= a + b.drop_last());
        lemma_replies_concat(a, b.drop_last());
        assert(replies(a + b) =~= replies(a) + replies(b));
    }
}

/// Transactions that read nothing add nothing to the bytes read.
proof fn lemma_replies_empty(s: Seq<Transaction>, e: Seq<Transaction>)
    requires
        forall|k: int| 0 <= k < e.len() ==> #[trigger] e[k].reply.len() == 0,
    ensures
        replies(s + e) == replies(s),
    decreases e.len(),
{
    if e.len() > 0 {
        let e2 = e.drop_last();
        assert((s + e).drop_last() =~= s + e2);
        assert((s + e).last() == e.last());
        assert(e.last().reply =~= seq![]);
        lemma_replies_empty(s, e2);
    } else {
        assert(s + e =~= s);
    }
}

/// One more chunk, after transactions that read nothing, keeps the reads
/// of a chunked transfer in order.
proof fn lemma_chunk_step(
    ts: Seq<Transaction>,
    e: Seq<Transaction>,
    x: Transaction,
    opcode: u8,
    addr: u32,
    addressing: CommandAddressing,
    io_mode: IoMode,
    dummy: u8,
)
    requires
        chunked_read(ts, opcode, addr, addressing, io_mode, dummy),
        forall|k: int| 0 <= k < e.len() ==> #[trigger] e[k].reply.len() == 0,
        !(addressing is ExtendedAddressRegister) ==> e.len() == 0,
        x.reply.len() > 0,
        is_request(x.command, opcode, Some((addr + replies(ts).len()) as u32), addressing.spec_address_width(),
            io_mode, dummy, seq![], x.reply.len()),
    ensures
        chunked_read(ts + e + seq![x], opcode, addr, addressing, io_mode, dummy),
        replies(ts + e + seq![x]) == replies(ts) + x.reply,
{
    let t2 = ts + e + seq![x];
    lemma_replies_empty(ts, e);
    assert(t2.drop_last() =~= ts + e);
    assert(t2.last() == x);
    assert forall|j: int| #![trigger t2[j]] 0 <= j < t2.len() && t2[j].reply.len() > 0 implies is_request(
        t2[j].command,
        opcode,
        Some((addr + replies(t2.take(j)).len()) as u32),
        addressing.spec_address_width(),
        io_mode,
        dummy,
        seq![],
        t2[j].reply.len(),
    ) by {
        if j < ts.len() {
            assert(t2[j] == ts[j]);
            assert(t2.take(j) =~= ts.take(j));
        } else if j < ts.len() + e.len() {
            assert(t2[j] == e[j - ts.len()]);
        } else {
            assert(t2.take(j) =~= ts + e);
        }
    }
    if !(addressing is ExtendedAddressRegister) {
        assert forall|j: int| #![trigger t2[j]] 0 <= j < t2.len() implies t2[j].reply.len() > 0 by {
            if j < ts.len() {
                assert(t2[j] == ts[j]);
            }
        }
    }
}

/// A read of `len` bytes refused before any command is sent for it: the
/// programmer reads nothing per command, or the addressing needs the
/// extended address register.
pub open spec fn read_refused(max_read_len: usize, len: nat, addressing: CommandAddressing) -> bool {
    (len > 0 && max_read_len == 0) || addressing is ExtendedAddressRegister
}

/// Chunked read of `buf.len()` bytes at `addr`: one command per chunk of at
/// most `max_read_len()` bytes (and not across a 16 MiB bank with an
/// extended address register). `Err(ChipNotSupported)` when the programmer
/// reads nothing per command.
#[verifier::rlimit(40)]
fn read_multi_io<M: SpiMaster + ?Sized>(
    master: &mut M,
    opcode: u8,
    addr: u32,
    buf: &mut [u8],
    addressing: CommandAddressing,
    io_mode: IoMode,
    dummy_cycles: u8,
) -> (r: Result<(), Error>)
    requires
        addr + old(buf)@.len() <= 0x1_0000_0000,
    ensures
        final(master).spec_max_read_len() == old(master).spec_max_read_len(),
        final(buf)@.len() == old(buf)@.len(),
        extends(old(master).transactions(), final(master).transactions()),
        chunked_read(new_transactions(old(master).transactions(), final(master).transactions()), opcode, addr,
            addressing, io_mode, dummy_cycles),
        r is Ok ==> final(buf)@ == replies(new_transactions(old(master).transactions(), final(master).transactions())),
        r matches Err(e) ==> answered(old(master).transactions(), final(master).transactions(), e)
            || (e == Error::ChipNotSupported && read_refused(final(master).spec_max_read_len(), old(buf)@.len(), addressing)),
{
    let ghost t0 = master.transactions();
    let max_len = master.max_read_len();
    let n = buf.len();
    if n > 0 && max_len == 0 {
        return Err(Error::ChipNotSupported);
    }
    let mut offset: usize = 0;
    assert(new_transactions(t0, master.transactions()) =~= seq![]);
    assert(buf@.subrange(0, 0) =~= seq![]);
    while offset < n
        invariant
            n == buf@.len(),
            n == old(buf)@.len(),
            addr + n <= 0x1_0000_0000,
            offset <= n,
            n > 0 ==> max_len > 0,
            t0 == old(master).transactions(),
            extends(t0, master.transactions()),
            replies(new_transactions(t0, master.transactions())).len() == offset,
            buf@.subrange(0, offset as int) == replies(new_transactions(t0, master.transactions())),
            chunked_read(new_transactions(t0, master.transactions()), opcode, addr, addressing, io_mode, dummy_cycles),
            master.spec_max_read_len() == old(master).spec_max_read_len(),
        decreases n - offset,
    {
        let ghost ta = master.transactions();
        let current_addr = addr + offset as u32;
        let want = if max_len < n - offset { max_len } else { n - offset };
        let chunk_len = addressing.max_chunk_len(current_addr, want);
        if let CommandAddressing::ExtendedAddressRegister(features) = addressing {
            let rs = set_extended_address(master, features, (current_addr >> 24u32) as u8);
            proof {
                lemma_new_chain(t0, ta, master.transactions());
                let e = new_transactions(ta, master.transactions());
                lemma_replies_empty(new_transactions(t0, ta), e);
                assert forall|j: int| #![trigger new_transactions(t0, master.transactions())[j]]
                    0 <= j < new_transactions(t0, master.transactions()).len()
                    && new_transactions(t0, master.transactions())[j].reply.len() > 0 implies is_request(
                    new_transactions(t0, master.transactions())[j].command,
                    opcode,
                    Some((addr + replies(new_transactions(t0, master.transactions()).take(j)).len()) as u32),
                    addressing.spec_address_width(),
                    io_mode,
                    dummy_cycles,
                    seq![],
                    new_transactions(t0, master.transactions())[j].reply.len(),
                ) by {
                    let tsa = new_transactions(t0, ta);
                    if j < tsa.len() {
                        assert(new_transactions(t0, master.transactions())[j] == tsa[j]);
                        assert(new_transactions(t0, master.transactions()).take(j) =~= tsa.take(j));
                    } else {
                        assert(new_transactions(t0, master.transactions())[j] == e[j - tsa.len()]);
                    }
                }
            }
            proof {
                if rs is Err && rs->Err_0 != Error::ChipNotSupported {
                    lemma_answered(t0, ta, master.transactions(), rs->Err_0);
                }
            }
            rs?;
        }
        let ghost tb = master.transactions();
        let cmd = SpiCommand {
            opcode,
            address: Some(current_addr),
            address_width: addressing.address_width(),
            io_mode,
            dummy_cycles,
            write_data: Vec::new(),
            read_buf: zeroed(chunk_len),
        };
        let res = execute_read(master, cmd);
        proof {
            lemma_new_chain(ta, tb, master.transactions());
            lemma_new_chain(t0, ta, master.transactions());
            let e = new_transactions(ta, tb);
            let x = master.transactions().last();
            assert(new_transactions(tb, master.transactions()) =~= seq![x]);
            lemma_chunk_step(new_transactions(t0, ta), e, x, opcode, addr, addressing, io_mode, dummy_cycles);
            assert(new_transactions(t0, master.transactions()) =~= new_transactions(t0, ta) + e + seq![x]);
            if res is Err {
                lemma_answered(t0, tb, master.transactions(), res->Err_0);
            }
        }
        let data = res?;
        copy_into(buf, offset, &data);
        assert(buf@.subrange(0, (offset + chunk_len) as int) =~= replies(new_transactions(t0, master.transactions())));
        offset = offset + chunk_len;
    }
    assert(buf@ =~= buf@.subrange(0, n as int));
    Ok(())
}

/// Read data from flash with an explicitly selected opcode, I/O mode, and addressing mode.
pub fn read_io_with_addressing<M: SpiMaster + ?Sized>(
    master: &mut M,
    opcode: u8,
    addr: u32,
    buf: &mut [u8],
    addressing: CommandAddressing,
    io_mode: IoMode,
    dummy_cycles: u8,
) -> (r: Result<(), Error>)
    requires
        addr + old(buf)@.len() <= 0x1_0000_0000,
    ensures
        final(master).spec_max_read_len() == old(master).spec_max_read_len(),
        final(buf)@.len() == old(buf)@.len(),
        extends(old(master).transactions(), final(master).transactions()),
        chunked_read(new_transactions(old(master).transactions(), final(master).transactions()), opcode, addr,
            addressing, io_mode, dummy_cycles),
        r is Ok ==> final(buf)@ == replies(new_transactions(old(master).transactions(), final(master).transactions())),
        r matches Err(e) ==> answered(old(master).transactions(), final(master).transactions(), e)
            || (e == Error::ChipNotSupported && read_refused(final(master).spec_max_read_len(), old(buf)@.len(), addressing)),
{
    read_multi_io(master, opcode, addr, buf, addressing, io_mode, dummy_cycles)
}

/// Read data from flash with an explicitly selected opcode and addressing mode.
pub fn read_with_addressing<M: SpiMaster + ?Sized>(
    master: &mut M,
    opcode: u8,
    addr: u32,
    buf: &mut [u8],
    addressing: CommandAddressing,
) -> (r: Result<(), Error>)
    requires
        addr + old(buf)@.len() <= 0x1_0000_0000,
    ensures
        final(master).spec_max_read_len() == old(master).spec_max_read_len(),
        final(buf)@.len() == old(buf)@.len(),
        extends(old(master).transactions(), final(master).transactions()),
        chunked_read(new_transactions(old(master).transactions(), final(master).transactions()), opcode, addr,
            addressing, IoMode::Single, 0),
        r is Ok ==> final(buf)@ == replies(new_transactions(old(master).transactions(), final(master).transactions())),
        r matches Err(e) ==> answered(old(master).transactions(), final(master).transactions(), e)
            || (e == Error::ChipNotSupported && read_refused(final(master).spec_max_read_len(), old(buf)@.len(), addressing)),
{
    read_io_with_addressing(master, opcode, addr, buf, addressing, IoMode::Single, 0)
}

/// Read data from flash using 3-byte addressing
pub fn read_3b<M: SpiMaster + ?Sized>(master: &mut M, addr: u32, buf: &mut [u8]) -> (r: Result<(), Error>)
    requires
        addr + old(buf)@.len() <= 0x1_0000_0000,
    ensures
        final(master).spec_max_read_len() == old(master).spec_max_read_len(),
        final(buf)@.len() == old(buf)@.len(),
        extends(old(master).transactions(), final(master).transactions()),
        chunked_read(new_transactions(old(master).transactions(), final(master).transactions()), opcodes::READ, addr,
            CommandAddressing::ThreeByte, IoMode::Single, 0),
        r is Ok ==> final(buf)@ == replies(new_transactions(old(master).transactions(), final(master).transactions())),
        r matches Err(e) ==> answered(old(master).transactions(), final(master).transactions(), e)
            || (e == Error::ChipNotSupported && read_refused(final(master).spec_max_read_len(), old(buf)@.len(), CommandAddressing::ThreeByte)),
{
    read_with_addressing(master, opcodes::READ, addr, buf, CommandAddressing::ThreeByte)
}

/// Read data from flash using native 4-byte addressing opcode
pub fn read_4b<M: SpiMaster + ?Sized>(master: &mut M, addr: u32, buf: &mut [u8]) -> (r: Result<(), Error>)
    requires
        addr + old(buf)@.len() <= 0x1_0000_0000,
    ensures
        final(master).spec_max_read_len() == old(master).spec_max_read_len(),
        final(buf)@.len() == old(buf)@.len(),
        extends(old(master).transactions(), final(master).transactions()),
        chunked_read(new_transactions(old(master).transactions(), final(master).transactions()), opcodes::READ_4B, addr,
            CommandAddressing::FourByte, IoMode::Single, 0),
        r is Ok ==> final(buf)@ == replies(new_transactions(old(master).transactions(), final(master).transactions())),
        r matches Err(e) ==> answered(old(master).transactions(), final(master).transactions(), e)
            || (e == Error::ChipNotSupported && read_refused(final(master).spec_max_read_len(), old(buf)@.len(), CommandAddressing::FourByte)),
{
    read_with_addressing(master, opcodes::READ_4B, addr, buf, CommandAddressing::FourByte)
}

/// The number of status polls after a page program.
pub open spec fn page_program_polls() -> u32 {
    spec_max_polls(PAGE_PROGRAM_POLL_US, PAGE_PROGRAM_TIMEOUT_US)
}

/// The extended address register cannot be written for this addressing.
pub open spec fn addressing_unsupported(addressing: CommandAddressing) -> bool {
    addressing matches CommandAddressing::ExtendedAddressRegister(f)
        && spec_extended_address_write_opcode(f) is Err
}

/// Transactions that write `high` into the extended address register:
/// WREN, then the register write.
pub open spec fn sent_bank_select(ts: Seq<Transaction>, f: Features, high: u8) -> bool {
    match spec_extended_address_write_opcode(f) {
        Ok(op) => ts.len() >= 2 && is_simple(ts[0].command, opcodes::WREN)
            && is_plain_request(ts[1].command, op, None, AddressWidth::NoAddress, seq![high], 0)
            && ts[0].reply.len() == 0 && ts[1].reply.len() == 0,
        Err(_) => false,
    }
}

/// A completed addressed operation: with an extended address register the
/// bank select first, then WREN, then `opcode` at `addr` with `write`, then
/// status polls (at most `max`) until ready.
pub open spec fn addressed_op(
    ts: Seq<Transaction>,
    addressing: CommandAddressing,
    addr: u32,
    opcode: u8,
    write: Seq<u8>,
    max: u32,
) -> bool {
    let k: int = if addressing is ExtendedAddressRegister { 2 } else { 0 };
    &&& ts.len() >= k + 3
    &&& match addressing {
        CommandAddressing::ExtendedAddressRegister(f) => sent_bank_select(ts, f, (addr >> 24u32) as u8),
        _ => true,
    }
    &&& is_simple(ts[k].command, opcodes::WREN)
    &&& is_plain_request(ts[k + 1].command, opcode, Some(addr), addressing.spec_address_width(), write, 0)
    &&& polled(ts.skip(k + 2), max, true)
}

/// The data of every transaction sent with an address, in order.
pub open spec fn addressed_data(ts: Seq<Transaction>) -> Seq<u8>
    decreases ts.len(),
{
    if ts.len() == 0 {
        seq![]
    } else {
        addressed_data(ts.drop_last()) + if ts.last().command.address is Some {
            ts.last().command.write_data@
        } else {
            seq![]
        }
    }
}

/// The addressed data of transactions one after another adds up.
pub proof fn lemma_addressed_data_concat(a: Seq<Transaction>, b: Seq<Transaction>)
    ensures
        addressed_data(a + b) == addressed_data(a) + addressed_data(b),
    decreases b.len(),
{
    if b.len() == 0 {
        assert(a + b =~= a);
        assert(addressed_data(a) + addressed_data(b) =~= addressed_data(a));
    } else {
        assert((a + b).drop_last() =~= a + b.drop_last());
        lemma_addressed_data_concat(a, b.drop_last());
        assert(addressed_data(a + b) =~= addressed_data(a) + addressed_data(b));
    }
}

/// Transactions without an address carry no addressed data.
pub proof fn lemma_addressed_data_none(ts: Seq<Transaction>)
    requires
        forall|j: int| 0 <= j < ts.len() ==> (#[trigger] ts[j]).command.address is None,
    ensures
        addressed_data(ts) == Seq::<u8>::empty(),
    decreases ts.len(),
{
    if ts.len() > 0 {
        lemma_addressed_data_none(ts.drop_last());
        assert(addressed_data(ts) =~= Seq::<u8>::empty());
    }
}

/// Page programs one after another: every transaction sent with an address
/// programs `opcode` at `addr` plus the bytes programmed before it, with the
/// addressing's width, right after a WREN.
#[verifier::opaque]
pub open spec fn chunked_program(ts: Seq<Transaction>, opcode: u8, addr: u32, addressing: CommandAddressing) -> bool {
    forall|j: int| #![trigger ts[j]] 0 <= j < ts.len() && ts[j].command.address is Some ==> {
        &&& is_plain_request(ts[j].command, opcode, Some((addr + addressed_data(ts.take(j)).len()) as u32),
            addressing.spec_address_width(), ts[j].command.write_data@, 0)
        &&& j >= 1
        &&& is_simple(ts[j - 1].command, opcodes::WREN)
    }
}

/// The addressed data of a completed addressed operation is its data, and
/// nothing before its command carries an address.
proof fn lemma_op_data(c: Seq<Transaction>, addressing: CommandAddressing, at: u32, opcode: u8, data: Seq<u8>, max: u32)
    requires
        addressed_op(c, addressing, at, opcode, data, max),
    ensures
        addressed_data(c) == data,
        addressed_data(c.take(if addressing is ExtendedAddressRegister { 3int } else { 1int })) == Seq::<u8>::empty(),
{
    let k: int = if addressing is ExtendedAddressRegister { 2 } else { 0 };
    assert forall|j: int| 0 <= j < c.take(k + 1).len() implies (#[trigger] c.take(k + 1)[j]).command.address is None by {
        assert(c.take(k + 1)[j] == c[j]);
    }
    lemma_addressed_data_none(c.take(k + 1));
    assert forall|j: int| 0 <= j < c.skip(k + 2).len() implies (#[trigger] c.skip(k + 2)[j]).command.address is None by {
        assert(is_status_poll(c.skip(k + 2)[j]));
    }
    lemma_addressed_data_none(c.skip(k + 2));
    let x = c[k + 1];
    let one = seq![x];
    assert(one.drop_last() =~= Seq::<Transaction>::empty());
    assert(addressed_data(Seq::<Transaction>::empty()) == Seq::<u8>::empty());
    assert(addressed_data(one) =~= data);
    lemma_addressed_data_concat(one, c.skip(k + 2));
    assert(one + c.skip(k + 2) =~= c.skip(k + 1));
    lemma_addressed_data_concat(c.take(k + 1), c.skip(k + 1));
    assert(c.take(k + 1) + c.skip(k + 1) =~= c);
}

/// No transactions are a run of page programs.
pub proof fn lemma_program_none(opcode: u8, addr: u32, addressing: CommandAddressing)
    ensures
        chunked_program(Seq::<Transaction>::empty(), opcode, addr, addressing),
{
    reveal(chunked_program);
}

/// Transactions without an address keep a run of page programs as it is.
pub proof fn lemma_program_unaddressed(
    ts: Seq<Transaction>,
    e: Seq<Transaction>,
    opcode: u8,
    addr: u32,
    addressing: CommandAddressing,
)
    requires
        chunked_program(ts, opcode, addr, addressing),
        forall|j: int| 0 <= j < e.len() ==> (#[trigger] e[j]).command.address is None,
    ensures
        chunked_program(ts + e, opcode, addr, addressing),
        addressed_data(ts + e) == addressed_data(ts),
{
    reveal(chunked_program);
    lemma_addressed_data_none(e);
    lemma_addressed_data_concat(ts, e);
    assert(addressed_data(ts) + addressed_data(e) =~= addressed_data(ts));
    let t2 = ts + e;
    assert forall|j: int| #![trigger t2[j]] 0 <= j < t2.len() && t2[j].command.address is Some implies {
        &&& is_plain_request(t2[j].command, opcode, Some((addr + addressed_data(t2.take(j)).len()) as u32),
            addressing.spec_address_width(), t2[j].command.write_data@, 0)
        &&& j >= 1
        &&& is_simple(t2[j - 1].command, opcodes::WREN)
    } by {
        if j < ts.len() {
            assert(t2[j] == ts[j]);
            assert(t2.take(j) =~= ts.take(j));
            assert(t2[j - 1] == ts[j - 1]);
        } else {
            assert(t2[j] == e[j - ts.len()]);
        }
    }
}

/// Every transaction sent with an address stays within one page of
/// `page_size` bytes.
#[verifier::opaque]
pub open spec fn page_bounded(ts: Seq<Transaction>, page_size: int) -> bool {
    forall|j: int| #![trigger ts[j]] 0 <= j < ts.len() && ts[j].command.address is Some
        ==> ts[j].command.address->0 as int % page_size + ts[j].command.write_data@.len() <= page_size
}

/// Appending transactions keeps page bounds when each addressed one in
/// them is within its page.
pub proof fn lemma_page_bounded_append(ts: Seq<Transaction>, c: Seq<Transaction>, page_size: int)
    requires
        page_bounded(ts, page_size),
        forall|j: int| #![trigger c[j]] 0 <= j < c.len() && c[j].command.address is Some
            ==> c[j].command.address->0 as int % page_size + c[j].command.write_data@.len() <= page_size,
    ensures
        page_bounded(ts + c, page_size),
{
    reveal(page_bounded);
    let t2 = ts + c;
    assert forall|j: int| #![trigger t2[j]] 0 <= j < t2.len() && t2[j].command.address is Some implies
        t2[j].command.address->0 as int % page_size + t2[j].command.write_data@.len() <= page_size by {
        if j < ts.len() {
            assert(t2[j] == ts[j]);
        } else {
            assert(t2[j] == c[j - ts.len()]);
        }
    }
}

/// The only addressed transaction of a completed addressed operation is its
/// command.
pub proof fn lemma_op_addressed(c: Seq<Transaction>, addressing: CommandAddressing, at: u32, opcode: u8, data: Seq<u8>, max: u32)
    requires
        addressed_op(c, addressing, at, opcode, data, max),
    ensures
        forall|j: int| #![trigger c[j]] 0 <= j < c.len() && c[j].command.address is Some
            ==> c[j].command.address == Some(at) && c[j].command.write_data@ == data,
{
    let k: int = if addressing is ExtendedAddressRegister { 2 } else { 0 };
    assert forall|j: int| #![trigger c[j]] 0 <= j < c.len() && c[j].command.address is Some
        implies c[j].command.address == Some(at) && c[j].command.write_data@ == data by {
        if j > k + 1 {
            assert(is_status_poll(c.skip(k + 2)[j - k - 2]));
        }
    }
}

/// One more completed page program extends a run of page programs.
#[verifier::spinoff_prover]
#[verifier::rlimit(60)]
pub proof fn lemma_program_step(
    ts: Seq<Transaction>,
    c: Seq<Transaction>,
    opcode: u8,
    addr: u32,
    addressing: CommandAddressing,
    at: u32,
    data: Seq<u8>,
    max: u32,
)
    requires
        chunked_program(ts, opcode, addr, addressing),
        addressed_op(c, addressing, at, opcode, data, max),
        at == addr + addressed_data(ts).len(),
    ensures
        chunked_program(ts + c, opcode, addr, addressing),
        addressed_data(ts + c) == addressed_data(ts) + data,
{
    reveal(chunked_program);
    let k: int = if addressing is ExtendedAddressRegister { 2 } else { 0 };
    let t2 = ts + c;
    lemma_op_data(c, addressing, at, opcode, data, max);
    lemma_addressed_data_concat(ts, c);
    lemma_addressed_data_concat(ts, c.take(k + 1));
    assert(t2.take(ts.len() + k + 1) =~= ts + c.take(k + 1));
    assert forall|j: int| #![trigger t2[j]] 0 <= j < t2.len() && t2[j].command.address is Some implies {
        &&& is_plain_request(t2[j].command, opcode, Some((addr + addressed_data(t2.take(j)).len()) as u32),
            addressing.spec_address_width(), t2[j].command.write_data@, 0)
        &&& j >= 1
        &&& is_simple(t2[j - 1].command, opcodes::WREN)
    } by {
        if j < ts.len() {
            assert(t2[j] == ts[j]);
            assert(t2.take(j) =~= ts.take(j));
            assert(t2[j - 1] == ts[j - 1]);
        } else {
            let i = j - ts.len();
            assert(t2[j] == c[i]);
            if i < k + 1 {
                assert(c[i] == c.take(k + 1)[i]);
            } else if i > k + 1 {
                assert(is_status_poll(c.skip(k + 2)[i - k - 2]));
            }
            assert(i == k + 1);
            assert(t2[j - 1] == c[k]);
        }
    }
}

/// Program a single page with an explicitly selected opcode and addressing
/// mode; the data must not cross a page boundary.
pub fn program_page_with_addressing<M: SpiMaster + ?Sized>(
    master: &mut M,
    opcode: u8,
    addr: u32,
    data: &[u8],
    addressing: CommandAddressing,
) -> (r: Result<(), Error>)
    ensures
        extends(old(master).transactions(), final(master).transactions()),
        addressing_unsupported(addressing) ==> r == Err::<(), Error>(Error::ChipNotSupported)
            && final(master).transactions() == old(master).transactions(),
        r is Ok ==> addressed_op(new_transactions(old(master).transactions(), final(master).transactions()),
            addressing, addr, opcode, data@, page_program_polls()),
{
    let ghost t0 = master.transactions();
    if let CommandAddressing::ExtendedAddressRegister(features) = addressing {
        set_extended_address(master, features, (addr >> 24u32) as u8)?;
    }
    let ghost t1 = master.transactions();
    write_enable(master)?;
    let ghost t2 = master.transactions();
    let cmd = SpiCommand {
        opcode,
        address: Some(addr),
        address_width: addressing.address_width(),
        io_mode: IoMode::Single,
        dummy_cycles: 0,
        write_data: vstd::slice::slice_to_vec(data),
        read_buf: Vec::new(),
    };
    execute(master, cmd)?;
    let ghost t3 = master.transactions();
    let r = wait_ready(master, PAGE_PROGRAM_POLL_US, PAGE_PROGRAM_TIMEOUT_US);
    proof {
        lemma_addressed_op(t0, t1, t2, t3, master.transactions(), addressing, addr, opcode, data@, page_program_polls(), r is Ok);
    }
    r
}

/// The transactions of the steps of an addressed operation add up to it.
proof fn lemma_addressed_op(
    t0: Seq<Transaction>,
    t1: Seq<Transaction>,
    t2: Seq<Transaction>,
    t3: Seq<Transaction>,
    t4: Seq<Transaction>,
    addressing: CommandAddressing,
    addr: u32,
    opcode: u8,
    write: Seq<u8>,
    max: u32,
    ok: bool,
)
    requires
        extends(t0, t1),
        match addressing {
            CommandAddressing::ExtendedAddressRegister(f) => sent_bank_select(new_transactions(t0, t1), f, (addr >> 24u32) as u8)
                && new_transactions(t0, t1).len() == 2,
            _ => t1 == t0,
        },
        sent_simples(t1, t2, seq![opcodes::WREN], true),
        t3.len() == t2.len() + 1,
        extends(t2, t3),
        is_plain_request(t3.last().command, opcode, Some(addr), addressing.spec_address_width(), write, 0),
        extends(t3, t4),
        polled(new_transactions(t3, t4), max, ok),
    ensures
        extends(t0, t4),
        ok ==> addressed_op(new_transactions(t0, t4), addressing, addr, opcode, write, max),
{
    lemma_new_chain(t0, t1, t2);
    lemma_new_chain(t0, t2, t3);
    lemma_new_chain(t0, t3, t4);
    let k = t1.len() - t0.len();
    let ts = new_transactions(t0, t4);
    assert forall|j: int| 0 <= j < k implies #[trigger] ts[j] == new_transactions(t0, t1)[j] by {}
    assert(ts[k] == new_transactions(t1, t2)[0]);
    assert(ts[k + 1] == t3.last());
    assert(ts.skip(k + 2) =~= new_transactions(t3, t4));
}

/// Program a single page (up to page_size bytes) using 3-byte addressing
pub fn program_page_3b<M: SpiMaster + ?Sized>(master: &mut M, addr: u32, data: &[u8]) -> (r: Result<(), Error>)
    ensures
        extends(old(master).transactions(), final(master).transactions()),
        r is Ok ==> addressed_op(new_transactions(old(master).transactions(), final(master).transactions()),
            CommandAddressing::ThreeByte, addr, opcodes::PP, data@, page_program_polls()),
{
    program_page_with_addressing(master, opcodes::PP, addr, data, CommandAddressing::ThreeByte)
}

/// Program a single page using native 4-byte addressing opcode
pub fn program_page_4b<M: SpiMaster + ?Sized>(master: &mut M, addr: u32, data: &[u8]) -> (r: Result<(), Error>)
    ensures
        extends(old(master).transactions(), final(master).transactions()),
        r is Ok ==> addressed_op(new_transactions(old(master).transactions(), final(master).transactions()),
            CommandAddressing::FourByte, addr, opcodes::PP_4B, data@, page_program_polls()),
{
    program_page_with_addressing(master, opcodes::PP_4B, addr, data, CommandAddressing::FourByte)
}

/// One byte programmed with WREN + PP + address.
fn program_byte<M: SpiMaster + ?Sized>(master: &mut M, addr: u32, data: &[u8]) -> (r: Result<(), Error>)
    ensures
        extends(old(master).transactions(), final(master).transactions()),
        r is Ok ==> addressed_op(new_transactions(old(master).transactions(), final(master).transactions()),
            CommandAddressing::ThreeByte, addr, opcodes::PP, data@, page_program_polls()),
{
    let ghost t0 = master.transactions();
    write_enable(master)?;
    let ghost t2 = master.transactions();
    execute(master, SpiCommand::write_3b(opcodes::PP, addr, data))?;
    let ghost t3 = master.transactions();
    let r = wait_ready(master, PAGE_PROGRAM_POLL_US, PAGE_PROGRAM_TIMEOUT_US);
    proof {
        lemma_addressed_op(t0, t0, t2, t3, master.transactions(), CommandAddressing::ThreeByte, addr, opcodes::PP,
            data@, page_program_polls(), r is Ok);
    }
    r
}

/// The data written by the transactions, in order.
pub open spec fn written(ts: Seq<Transaction>) -> Seq<u8>
    decreases ts.len(),
{
    if ts.len() == 0 {
        seq![]
    } else {
        written(ts.drop_last()) + ts.last().command.write_data@
    }
}

/// The written data of transactions one after another adds up.
pub proof fn lemma_written_concat(a: Seq<Transaction>, b: Seq<Transaction>)
    ensures
        written(a + b) == written(a) + written(b),
    decreases b.len(),
{
    if b.len() == 0 {
        assert(a + b =~= a);
        assert(written(a) + written(b) =~= written(a));
    } else {
        assert((a + b).drop_last() =~= a + b.drop_last());
        lemma_written_concat(a, b.drop_last());
        assert(written(a + b) =~= written(a) + written(b));
    }
}

/// An AAI write: every transaction that writes data is a byte program (PP)
/// or an AAI word, and one sent with an address is at `addr` plus the
/// bytes written before it, with a three-byte address.
#[verifier::opaque]
pub open spec fn aai_writes(ts: Seq<Transaction>, addr: u32) -> bool {
    forall|j: int| #![trigger ts[j]] 0 <= j < ts.len() && ts[j].command.write_data@.len() > 0 ==> {
        &&& ts[j].command.opcode == opcodes::PP || ts[j].command.opcode == opcodes::AAI_WP
        &&& ts[j].command.address is Some ==> ts[j].command.address == Some((addr + written(ts.take(j)).len()) as u32)
            && ts[j].command.address_width == AddressWidth::ThreeByte
    }
}

/// Transactions that write nothing, or one program at the right address,
/// extend an AAI write.
proof fn lemma_aai_step(ts: Seq<Transaction>, c: Seq<Transaction>, addr: u32)
    requires
        aai_writes(ts, addr),
        forall|j: int| #![trigger c[j]] 0 <= j < c.len() && c[j].command.write_data@.len() > 0 ==> {
            &&& c[j].command.opcode == opcodes::PP || c[j].command.opcode == opcodes::AAI_WP
            &&& written(c.take(j)).len() == 0
            &&& c[j].command.address is Some ==> c[j].command.address == Some((addr + written(ts).len()) as u32)
                && c[j].command.address_width == AddressWidth::ThreeByte
        },
    ensures
        aai_writes(ts + c, addr),
        written(ts + c) == written(ts) + written(c),
{
    reveal(aai_writes);
    lemma_written_concat(ts, c);
    let t2 = ts + c;
    assert forall|j: int| #![trigger t2[j]] 0 <= j < t2.len() && t2[j].command.write_data@.len() > 0 implies {
        &&& t2[j].command.opcode == opcodes::PP || t2[j].command.opcode == opcodes::AAI_WP
        &&& t2[j].command.address is Some ==> t2[j].command.address == Some((addr + written(t2.take(j)).len()) as u32)
            && t2[j].command.address_width == AddressWidth::ThreeByte
    } by {
        if j < ts.len() {
            assert(t2[j] == ts[j]);
            assert(t2.take(j) =~= ts.take(j));
        } else {
            let i = j - ts.len();
            assert(t2[j] == c[i]);
            assert(t2.take(j) =~= ts + c.take(i));
            lemma_written_concat(ts, c.take(i));
        }
    }
}

/// Transactions that write nothing.
pub open spec fn writes_nothing(c: Seq<Transaction>) -> bool {
    forall|j: int| 0 <= j < c.len() ==> (#[trigger] c[j]).command.write_data@.len() == 0
}

/// Transactions that write nothing add nothing to what was written.
proof fn lemma_writes_nothing(c: Seq<Transaction>)
    requires
        writes_nothing(c),
    ensures
        written(c) == Seq::<u8>::empty(),
        forall|j: int| 0 <= j <= c.len() ==> #[trigger] written(c.take(j)) == Seq::<u8>::empty(),
    decreases c.len(),
{
    if c.len() > 0 {
        lemma_writes_nothing(c.drop_last());
        assert(written(c) =~= Seq::<u8>::empty());
        assert forall|j: int| 0 <= j <= c.len() implies #[trigger] written(c.take(j)) == Seq::<u8>::empty() by {
            if j < c.len() {
                assert(c.take(j) =~= c.drop_last().take(j));
            } else {
                assert(c.take(j) =~= c);
            }
        }
    } else {
        assert forall|j: int| 0 <= j <= c.len() implies #[trigger] written(c.take(j)) == Seq::<u8>::empty() by {
            assert(c.take(j) =~= c);
        }
    }
}

/// A completed byte program writes its byte at its address.
proof fn lemma_byte_program(c: Seq<Transaction>, at: u32, data: Seq<u8>)
    requires
        addressed_op(c, CommandAddressing::ThreeByte, at, opcodes::PP, data, page_program_polls()),
    ensures
        written(c) == data,
        forall|j: int| #![trigger c[j]] 0 <= j < c.len() && c[j].command.write_data@.len() > 0 ==> {
            &&& c[j].command.opcode == opcodes::PP
            &&& written(c.take(j)).len() == 0
            &&& c[j].command.address == Some(at)
            &&& c[j].command.address_width == AddressWidth::ThreeByte
        },
{
    assert forall|j: int| 0 <= j < c.skip(2).len() implies (#[trigger] c.skip(2)[j]).command.write_data@.len() == 0 by {
        assert(is_status_poll(c.skip(2)[j]));
    }
    lemma_writes_nothing(c.skip(2));
    assert(c.take(1).drop_last() =~= Seq::<Transaction>::empty());
    assert(written(Seq::<Transaction>::empty()) == Seq::<u8>::empty());
    assert(written(c.take(1)) =~= Seq::<u8>::empty());
    assert(c.take(2).drop_last() =~= c.take(1));
    assert(written(c.take(2)) =~= data);
    lemma_written_concat(c.take(2), c.skip(2));
    assert(c.take(2) + c.skip(2) =~= c);
    assert forall|j: int| #![trigger c[j]] 0 <= j < c.len() && c[j].command.write_data@.len() > 0 implies {
        &&& c[j].command.opcode == opcodes::PP
        &&& written(c.take(j)).len() == 0
        &&& c[j].command.address == Some(at)
        &&& c[j].command.address_width == AddressWidth::ThreeByte
    } by {
        if j >= 2 {
            assert(c[j] == c.skip(2)[j - 2]);
        }
        assert(j == 1);
    }
}

/// AAI (Auto Address Increment) word program for SST25 chips.
///
/// A leading byte at an odd address and a trailing byte of odd-length data
/// are programmed singly with PP; the words between are streamed with
/// AAI_WP (the first with WREN and the address, the rest with data only),
/// and AAI mode is left with WRDI. Empty data sends nothing.
pub fn aai_word_program<M: SpiMaster + ?Sized>(master: &mut M, addr: u32, data: &[u8]) -> (r: Result<(), Error>)
    requires
        addr + data@.len() <= u32::MAX,
    ensures
        data@.len() == 0 ==> r == Ok::<(), Error>(()) && final(master).transactions() == old(master).transactions(),
        extends(old(master).transactions(), final(master).transactions()),
        r is Ok ==> aai_writes(new_transactions(old(master).transactions(), final(master).transactions()), addr)
            && written(new_transactions(old(master).transactions(), final(master).transactions())) == data@,
{
    let ghost t0 = master.transactions();
    let n = data.len();
    proof {
        assert(t0.subrange(0, t0.len() as int) =~= t0);
        assert(new_transactions(t0, t0) =~= Seq::<Transaction>::empty());
        reveal(aai_writes);
        assert(data@.take(0) =~= written(Seq::<Transaction>::empty()));
    }
    if n == 0 {
        assert(data@ =~= data@.take(0));
        return Ok(());
    }
    let mut pos: usize = 0;
    let mut current_addr = addr;
    if current_addr % 2 != 0 {
        let ghost ta = master.transactions();
        let res = program_byte(master, current_addr, vstd::slice::slice_subrange(data, 0, 1));
        proof {
            lemma_new_chain(t0, ta, master.transactions());
            if res is Ok {
                let c = new_transactions(ta, master.transactions());
                lemma_byte_program(c, current_addr, data@.subrange(0, 1));
                lemma_aai_step(new_transactions(t0, ta), c, addr);
                assert(data@.take(0) + data@.subrange(0, 1) =~= data@.take(1));
            }
        }
        res?;
        pos = 1;
        current_addr = current_addr + 1;
    }
    if pos + 1 < n {
        let ghost ta = master.transactions();
        let r1 = write_enable(master);
        proof {
            lemma_new_chain(t0, ta, master.transactions());
            let c = new_transactions(ta, master.transactions());
            lemma_writes_nothing(c);
            lemma_aai_step(new_transactions(t0, ta), c, addr);
        }
        r1?;
        let ghost tb = master.transactions();
        let r2 = execute(master, SpiCommand::write_3b(opcodes::AAI_WP, current_addr, vstd::slice::slice_subrange(data, pos, pos + 2)));
        proof {
            lemma_new_chain(t0, tb, master.transactions());
            let c = new_transactions(tb, master.transactions());
            assert(c[0] == master.transactions().last());
            assert(c.take(0) =~= Seq::<Transaction>::empty());
            assert(written(Seq::<Transaction>::empty()) == Seq::<u8>::empty());
            assert(c.drop_last() =~= Seq::<Transaction>::empty());
            lemma_aai_step(new_transactions(t0, tb), c, addr);
            assert(data@.take(pos as int) + data@.subrange(pos as int, pos + 2) =~= data@.take(pos + 2));
        }
        r2?;
        let ghost tc = master.transactions();
        let r3 = wait_ready(master, PAGE_PROGRAM_POLL_US, PAGE_PROGRAM_TIMEOUT_US);
        proof {
            lemma_new_chain(t0, tc, master.transactions());
            let c = new_transactions(tc, master.transactions());
            assert forall|j: int| 0 <= j < c.len() implies (#[trigger] c[j]).command.write_data@.len() == 0 by {
                assert(is_status_poll(c[j]));
            }
            lemma_writes_nothing(c);
            lemma_aai_step(new_transactions(t0, tc), c, addr);
        }
        match r3 {
            Ok(()) => {},
            Err(e) => {
                let ghost td = master.transactions();
                let _ = write_disable(master);
                proof {
                    lemma_new_chain(t0, td, master.transactions());
                }
                return Err(e);
            },
        }
        pos = pos + 2;
        current_addr = current_addr + 2;
        while n - pos > 1
            invariant
                n == data@.len(),
                addr + n <= u32::MAX,
                pos <= n,
                current_addr == addr + pos,
                t0 == old(master).transactions(),
                extends(t0, master.transactions()),
                aai_writes(new_transactions(t0, master.transactions()), addr),
                written(new_transactions(t0, master.transactions())) == data@.take(pos as int),
            decreases n - pos,
        {
            let ghost tb = master.transactions();
            let r2 = execute(master, SpiCommand::write_reg(opcodes::AAI_WP, vstd::slice::slice_subrange(data, pos, pos + 2)));
            proof {
                lemma_new_chain(t0, tb, master.transactions());
                let c = new_transactions(tb, master.transactions());
                assert(c[0] == master.transactions().last());
                assert(c.take(0) =~= Seq::<Transaction>::empty());
                assert(written(Seq::<Transaction>::empty()) == Seq::<u8>::empty());
                assert(c.drop_last() =~= Seq::<Transaction>::empty());
                lemma_aai_step(new_transactions(t0, tb), c, addr);
                assert(data@.take(pos as int) + data@.subrange(pos as int, pos + 2) =~= data@.take(pos + 2));
            }
            r2?;
            let ghost tc = master.transactions();
            let r3 = wait_ready(master, PAGE_PROGRAM_POLL_US, PAGE_PROGRAM_TIMEOUT_US);
            proof {
                lemma_new_chain(t0, tc, master.transactions());
                let c = new_transactions(tc, master.transactions());
                assert forall|j: int| 0 <= j < c.len() implies (#[trigger] c[j]).command.write_data@.len() == 0 by {
                    assert(is_status_poll(c[j]));
                }
                lemma_writes_nothing(c);
                lemma_aai_step(new_transactions(t0, tc), c, addr);
            }
            match r3 {
                Ok(()) => {},
                Err(e) => {
                    let ghost td = master.transactions();
                    let _ = write_disable(master);
                    proof {
                        lemma_new_chain(t0, td, master.transactions());
                    }
                    return Err(e);
                },
            }
            pos = pos + 2;
            current_addr = current_addr + 2;
        }
        let ghost td = master.transactions();
        let r4 = write_disable(master);
        proof {
            lemma_new_chain(t0, td, master.transactions());
            let c = new_transactions(td, master.transactions());
            lemma_writes_nothing(c);
            lemma_aai_step(new_transactions(t0, td), c, addr);
        }
        r4?;
    }
    if pos < n {
        let ghost ta = master.transactions();
        let res = program_byte(master, current_addr, vstd::slice::slice_subrange(data, pos, pos + 1));
        proof {
            lemma_new_chain(t0, ta, master.transactions());
            if res is Ok {
                let c = new_transactions(ta, master.transactions());
                lemma_byte_program(c, current_addr, data@.subrange(pos as int, pos + 1));
                lemma_aai_step(new_transactions(t0, ta), c, addr);
                assert(data@.take(pos as int) + data@.subrange(pos as int, pos + 1) =~= data@.take(pos + 1));
            }
        }
        res?;
        pos = pos + 1;
    }
    assert(data@.take(n as int) =~= data@);
    Ok(())
}

/// Global block-protection unlock for SST26 chips (WREN + ULBPR, 0x98)
pub fn sst26_global_unprotect<M: SpiMaster + ?Sized>(master: &mut M) -> (r: Result<(), Error>)
    ensures
        sent_simples(old(master).transactions(), final(master).transactions(), seq![opcodes::WREN, opcodes::ULBPR], r is Ok),
{
    let ghost t0 = master.transactions();
    write_enable(master)?;
    let ghost t1 = master.transactions();
    let r = execute(master, SpiCommand::simple(opcodes::ULBPR));
    proof {
        lemma_new_chain(t0, t1, master.transactions());
        assert(new_transactions(t1, master.transactions())[0] == master.transactions().last());
    }
    r
}

/// Erase a sector/block at the given address, then poll for completion.
pub fn erase_block<M: SpiMaster + ?Sized>(
    master: &mut M,
    opcode: u8,
    addr: u32,
    addressing: CommandAddressing,
    poll_delay_us: u32,
    timeout_us: u32,
) -> (r: Result<(), Error>)
    ensures
        extends(old(master).transactions(), final(master).transactions()),
        addressing_unsupported(addressing) ==> r == Err::<(), Error>(Error::ChipNotSupported)
            && final(master).transactions() == old(master).transactions(),
        r is Ok ==> addressed_op(new_transactions(old(master).transactions(), final(master).transactions()),
            addressing, addr, opcode, seq![], spec_max_polls(poll_delay_us, timeout_us)),
{
    let ghost t0 = master.transactions();
    if let CommandAddressing::ExtendedAddressRegister(features) = addressing {
        set_extended_address(master, features, (addr >> 24u32) as u8)?;
    }
    let ghost t1 = master.transactions();
    write_enable(master)?;
    let ghost t2 = master.transactions();
    let cmd = SpiCommand {
        opcode,
        address: Some(addr),
        address_width: addressing.address_width(),
        io_mode: IoMode::Single,
        dummy_cycles: 0,
        write_data: Vec::new(),
        read_buf: Vec::new(),
    };
    execute(master, cmd)?;
    let ghost t3 = master.transactions();
    let r = wait_ready(master, poll_delay_us, timeout_us);
    proof {
        lemma_addressed_op(t0, t1, t2, t3, master.transactions(), addressing, addr, opcode, seq![],
            spec_max_polls(poll_delay_us, timeout_us), r is Ok);
    }
    r
}

/// Erase the entire chip (polls every 1 s, times out after 200 s)
pub fn chip_erase<M: SpiMaster + ?Sized>(master: &mut M) -> (r: Result<(), Error>)
    ensures
        extends(old(master).transactions(), final(master).transactions()),
        new_transactions(old(master).transactions(), final(master).transactions()).len() >= 1,
        is_simple(new_transactions(old(master).transactions(), final(master).transactions())[0].command, opcodes::WREN),
        r is Ok ==> chip_erased(new_transactions(old(master).transactions(), final(master).transactions())),
{
    let ghost t0 = master.transactions();
    write_enable(master)?;
    let ghost t1 = master.transactions();
    let r1 = execute(master, SpiCommand::simple(opcodes::CE_C7));
    let ghost t2 = master.transactions();
    proof {
        lemma_new_chain(t0, t1, t2);
        assert(new_transactions(t0, t2)[0] == new_transactions(t0, t1)[0]);
    }
    r1?;
    let r = wait_ready(master, CHIP_ERASE_POLL_US, CHIP_ERASE_TIMEOUT_US);
    proof {
        lemma_new_chain(t0, t2, master.transactions());
        let ts = new_transactions(t0, master.transactions());
        assert(ts[0] == new_transactions(t0, t1)[0]);
        assert(ts[1] == t2.last());
        assert(ts.skip(2) =~= new_transactions(t2, master.transactions()));
    }
    r
}

/// A completed chip erase: WREN, CE (0xC7), then status polls until ready.
pub open spec fn chip_erased(ts: Seq<Transaction>) -> bool {
    &&& ts.len() >= 3
    &&& is_simple(ts[0].command, opcodes::WREN)
    &&& is_simple(ts[1].command, opcodes::CE_C7)
    &&& polled(ts.skip(2), spec_max_polls(CHIP_ERASE_POLL_US, CHIP_ERASE_TIMEOUT_US), true)
}

/// Enter 4-byte address mode with the plain B7h instruction.
pub fn enter_4byte_mode<M: SpiMaster + ?Sized>(master: &mut M) -> (r: Result<(), Error>)
    ensures
        sent_simples(old(master).transactions(), final(master).transactions(), seq![opcodes::EN4B], true),
        r matches Err(e) ==> answered(old(master).transactions(), final(master).transactions(), e),
        r is Ok <==> final(master).transactions().last().result is Ok,
        final(master).spec_max_read_len() == old(master).spec_max_read_len(),
{
    execute(master, SpiCommand::simple(opcodes::EN4B))
}

/// Exit 4-byte address mode with the plain E9h instruction.
pub fn exit_4byte_mode<M: SpiMaster + ?Sized>(master: &mut M) -> (r: Result<(), Error>)
    ensures
        sent_simples(old(master).transactions(), final(master).transactions(), seq![opcodes::EX4B], true),
        r matches Err(e) ==> answered(old(master).transactions(), final(master).transactions(), e),
        r is Ok <==> final(master).transactions().last().result is Ok,
        final(master).spec_max_read_len() == old(master).spec_max_read_len(),
{
    execute(master, SpiCommand::simple(opcodes::EX4B))
}

/// The opcode that writes the extended address register: 0xC5 for the
/// C5/C8 register (or the legacy flag), 0x17 for the 17/16 register, else
/// the chip has none.
pub open spec fn spec_extended_address_write_opcode(features: Features) -> Result<u8, Error> {
    if features.has(Features::EXT_ADDR_REG_C5C8) || features.has(Features::EXT_ADDR_REG) {
        Ok(opcodes::WREAR)
    } else if features.has(Features::EXT_ADDR_REG_1716) {
        Ok(opcodes::WREAR_ALT)
    } else {
        Err(Error::ChipNotSupported)
    }
}

/// The opcode that writes the chip's extended address register.
pub fn extended_address_write_opcode(features: Features) -> (r: Result<u8, Error>)
    ensures
        r == spec_extended_address_write_opcode(features),
{
    if features.contains(Features::EXT_ADDR_REG_C5C8) || features.contains(Features::EXT_ADDR_REG) {
        Ok(opcodes::WREAR)
    } else if features.contains(Features::EXT_ADDR_REG_1716) {
        Ok(opcodes::WREAR_ALT)
    } else {
        Err(Error::ChipNotSupported)
    }
}

/// Write the high address byte to the chip's extended address register;
/// `Err(ChipNotSupported)` without sending anything when it has none.
pub fn set_extended_address<M: SpiMaster + ?Sized>(master: &mut M, features: Features, addr_high: u8) -> (r: Result<(), Error>)
    ensures
        final(master).spec_max_read_len() == old(master).spec_max_read_len(),
        spec_extended_address_write_opcode(features) is Err ==> r == Err::<(), Error>(Error::ChipNotSupported)
            && final(master).transactions() == old(master).transactions(),
        extends(old(master).transactions(), final(master).transactions()),
        new_transactions(old(master).transactions(), final(master).transactions()).len() <= 2,
        forall|j: int| 0 <= j < new_transactions(old(master).transactions(), final(master).transactions()).len()
            ==> #[trigger] new_transactions(old(master).transactions(), final(master).transactions())[j].reply.len() == 0,
        r is Ok ==> new_transactions(old(master).transactions(), final(master).transactions()).len() == 2
            && sent_bank_select(new_transactions(old(master).transactions(), final(master).transactions()), features, addr_high),
        r matches Err(e) ==> answered(old(master).transactions(), final(master).transactions(), e) || e == Error::ChipNotSupported,
{
    let ghost t0 = master.transactions();
    let opcode = extended_address_write_opcode(features)?;
    let r1 = write_enable(master);
    let ghost t1 = master.transactions();
    proof {
        assert(new_transactions(t0, t1)[0].reply.len() == 0);
    }
    r1?;
    let data = [addr_high];
    assert(data@ =~= seq![addr_high]);
    let r = execute(master, SpiCommand::write_reg(opcode, &data));
    proof {
        lemma_new_chain(t0, t1, master.transactions());
        let ts = new_transactions(t0, master.transactions());
        assert(ts[0] == new_transactions(t0, t1)[0]);
        assert(ts[1] == master.transactions().last());
        assert(ts[0].reply.len() == 0);
        assert(ts[1].reply.len() == 0);
        if r is Err {
            lemma_answered(t0, t1, master.transactions(), r->Err_0);
        }
    }
    r
}

/// No way to enter or leave 4-byte mode is known for the chip.
pub open spec fn no_4byte_switch(features: Features) -> bool {
    !features.has(Features::FOUR_BYTE_ENTER) && !features.has(Features::FOUR_BYTE_ENTER_WREN)
        && !features.has(Features::FOUR_BYTE_ENTER_EAR7)
}

/// Enter 4-byte address mode using the method described by the chip
/// features: B7h, WREN + B7h, or bit 7 of the extended address register.
pub fn enter_4byte_mode_with_features<M: SpiMaster + ?Sized>(master: &mut M, features: Features) -> (r: Result<(), Error>)
    ensures
        no_4byte_switch(features) ==> r == Err::<(), Error>(Error::ChipNotSupported)
            && final(master).transactions() == old(master).transactions(),
        extends(old(master).transactions(), final(master).transactions()),
        features.has(Features::FOUR_BYTE_ENTER) ==> sent_simples(old(master).transactions(),
            final(master).transactions(), seq![opcodes::EN4B], true),
        !features.has(Features::FOUR_BYTE_ENTER) && features.has(Features::FOUR_BYTE_ENTER_WREN)
            ==> sent_simples(old(master).transactions(), final(master).transactions(),
            seq![opcodes::WREN, opcodes::EN4B], r is Ok),
        !features.has(Features::FOUR_BYTE_ENTER) && !features.has(Features::FOUR_BYTE_ENTER_WREN)
            && features.has(Features::FOUR_BYTE_ENTER_EAR7) && r is Ok ==> sent_bank_select(
            new_transactions(old(master).transactions(), final(master).transactions()), features, 0x80),
        r matches Err(e) ==> answered(old(master).transactions(), final(master).transactions(), e) || e == Error::ChipNotSupported,
{
    let ghost t0 = master.transactions();
    if features.contains(Features::FOUR_BYTE_ENTER) {
        enter_4byte_mode(master)
    } else if features.contains(Features::FOUR_BYTE_ENTER_WREN) {
        write_enable(master)?;
        let ghost t1 = master.transactions();
        let r = enter_4byte_mode(master);
        proof {
            lemma_new_chain(t0, t1, master.transactions());
            assert(new_transactions(t0, master.transactions())[0] == new_transactions(t0, t1)[0]);
            assert(new_transactions(t0, master.transactions())[1] == new_transactions(t1, master.transactions())[0]);
            if r is Err {
                lemma_answered(t0, t1, master.transactions(), r->Err_0);
            }
        }
        r
    } else if features.contains(Features::FOUR_BYTE_ENTER_EAR7) {
        set_extended_address(master, features, 0x80)
    } else {
        Err(Error::ChipNotSupported)
    }
}

/// Exit 4-byte address mode using the method described by the chip features.
pub fn exit_4byte_mode_with_features<M: SpiMaster + ?Sized>(master: &mut M, features: Features) -> (r: Result<(), Error>)
    ensures
        no_4byte_switch(features) ==> r == Err::<(), Error>(Error::ChipNotSupported)
            && final(master).transactions() == old(master).transactions(),
        extends(old(master).transactions(), final(master).transactions()),
        features.has(Features::FOUR_BYTE_ENTER) ==> sent_simples(old(master).transactions(),
            final(master).transactions(), seq![opcodes::EX4B], true),
        !features.has(Features::FOUR_BYTE_ENTER) && features.has(Features::FOUR_BYTE_ENTER_WREN)
            ==> sent_simples(old(master).transactions(), final(master).transactions(),
            seq![opcodes::WREN, opcodes::EX4B], r is Ok),
        !features.has(Features::FOUR_BYTE_ENTER) && !features.has(Features::FOUR_BYTE_ENTER_WREN)
            && features.has(Features::FOUR_BYTE_ENTER_EAR7) && r is Ok ==> sent_bank_select(
            new_transactions(old(master).transactions(), final(master).transactions()), features, 0x00),
        r matches Err(e) ==> answered(old(master).transactions(), final(master).transactions(), e) || e == Error::ChipNotSupported,
{
    let ghost t0 = master.transactions();
    if features.contains(Features::FOUR_BYTE_ENTER) {
        exit_4byte_mode(master)
    } else if features.contains(Features::FOUR_BYTE_ENTER_WREN) {
        write_enable(master)?;
        let ghost t1 = master.transactions();
        let r = exit_4byte_mode(master);
        proof {
            lemma_new_chain(t0, t1, master.transactions());
            assert(new_transactions(t0, master.transactions())[0] == new_transactions(t0, t1)[0]);
            assert(new_transactions(t0, master.transactions())[1] == new_transactions(t1, master.transactions())[0]);
            if r is Err {
                lemma_answered(t0, t1, master.transactions(), r->Err_0);
            }
        }
        r
    } else if features.contains(Features::FOUR_BYTE_ENTER_EAR7) {
        set_extended_address(master, features, 0x00)
    } else {
        Err(Error::ChipNotSupported)
    }
}

/// Send the software reset sequence (RSTEN, 50 us, RST, 100 us)
pub fn software_reset<M: SpiMaster + ?Sized>(master: &mut M) -> (r: Result<(), Error>)
    ensures
        sent_simples(old(master).transactions(), final(master).transactions(), seq![opcodes::RSTEN, opcodes::RST], r is Ok),
{
    let ghost t0 = master.transactions();
    execute(master, SpiCommand::simple(opcodes::RSTEN))?;
    master.delay_us(50);
    let ghost t1 = master.transactions();
    proof {
        assert(new_transactions(t0, t1)[0] == t1.last());
    }
    let r = execute(master, SpiCommand::simple(opcodes::RST));
    proof {
        lemma_new_chain(t0, t1, master.transactions());
        assert(new_transactions(t1, master.transactions())[0] == master.transactions().last());
    }
    r?;
    master.delay_us(100);
    Ok(())
}

/// Read SFDP (Serial Flash Discoverable Parameters) data at `addr`, with
/// 3-byte addresses and 8 dummy cycles, in chunks of at most
/// `max_read_len()` bytes.
pub fn read_sfdp<M: SpiMaster + ?Sized>(master: &mut M, addr: u32, buf: &mut [u8]) -> (r: Result<(), Error>)
    requires
        addr + old(buf)@.len() <= 0x1_0000_0000,
    ensures
        final(master).spec_max_read_len() == old(master).spec_max_read_len(),
        final(buf)@.len() == old(buf)@.len(),
        extends(old(master).transactions(), final(master).transactions()),
        chunked_read(new_transactions(old(master).transactions(), final(master).transactions()), opcodes::RDSFDP, addr,
            CommandAddressing::ThreeByte, IoMode::Single, 8),
        r is Ok ==> final(buf)@ == replies(new_transactions(old(master).transactions(), final(master).transactions())),
        r matches Err(e) ==> answered(old(master).transactions(), final(master).transactions(), e)
            || (e == Error::ChipNotSupported && read_refused(final(master).spec_max_read_len(), old(buf)@.len(), CommandAddressing::ThreeByte)),
{
    read_multi_io(master, opcodes::RDSFDP, addr, buf, CommandAddressing::ThreeByte, IoMode::Single, 8)
}

/// Check if the Write Enable Latch is set
pub fn check_wel<M: SpiMaster + ?Sized>(master: &mut M) -> (r: Result<bool, Error>)
    ensures
        sent_register_read(old(master).transactions(), final(master).transactions(), opcodes::RDSR, 1),
        r matches Ok(b) ==> b == (final(master).transactions().last().reply[0] & opcodes::SR1_WEL != 0),
        r matches Err(e) ==> answered(old(master).transactions(), final(master).transactions(), e),
        r is Ok <==> final(master).transactions().last().result is Ok,
{
    let status = read_status1(master)?;
    Ok(status & opcodes::SR1_WEL != 0)
}

/// Check if a write or erase operation is in progress
pub fn is_busy<M: SpiMaster + ?Sized>(master: &mut M) -> (r: Result<bool, Error>)
    ensures
        sent_register_read(old(master).transactions(), final(master).transactions(), opcodes::RDSR, 1),
        r matches Ok(b) ==> b == (final(master).transactions().last().reply[0] & opcodes::SR1_WIP != 0),
        r matches Err(e) ==> answered(old(master).transactions(), final(master).transactions(), e),
        r is Ok <==> final(master).transactions().last().result is Ok,
{
    let status = read_status1(master)?;
    Ok(status & opcodes::SR1_WIP != 0)
}

/// Read using Dual Output mode (1-1-2), 3-byte address, opcode 0x3B, 8 dummy cycles
pub fn read_dual_out_3b<M: SpiMaster + ?Sized>(master: &mut M, addr: u32, buf: &mut [u8]) -> (r: Result<(), Error>)
    requires
        addr + old(buf)@.len() <= 0x1_0000_0000,
    ensures
        final(master).spec_max_read_len() == old(master).spec_max_read_len(),
        final(buf)@.len() == old(buf)@.len(),
        extends(old(master).transactions(), final(master).transactions()),
        chunked_read(new_transactions(old(master).transactions(), final(master).transactions()), opcodes::DOR, addr,
            CommandAddressing::ThreeByte, IoMode::DualOut, 8),
        r is Ok ==> final(buf)@ == replies(new_transactions(old(master).transactions(), final(master).transactions())),
        r matches Err(e) ==> answered(old(master).transactions(), final(master).transactions(), e)
            || (e == Error::ChipNotSupported && read_refused(final(master).spec_max_read_len(), old(buf)@.len(), CommandAddressing::ThreeByte)),
{
    read_multi_io(master, opcodes::DOR, addr, buf, CommandAddressing::ThreeByte, IoMode::DualOut, 8)
}

/// Read using Dual I/O mode (1-2-2), 3-byte address, opcode 0xBB, 4 dummy cycles
pub fn read_dual_io_3b<M: SpiMaster + ?Sized>(master: &mut M, addr: u32, buf: &mut [u8]) -> (r: Result<(), Error>)
    requires
        addr + old(buf)@.len() <= 0x1_0000_0000,
    ensures
        final(master).spec_max_read_len() == old(master).spec_max_read_len(),
        final(buf)@.len() == old(buf)@.len(),
        extends(old(master).transactions(), final(master).transactions()),
        chunked_read(new_transactions(old(master).transactions(), final(master).transactions()), opcodes::DIOR, addr,
            CommandAddressing::ThreeByte, IoMode::DualIo, 4),
        r is Ok ==> final(buf)@ == replies(new_transactions(old(master).transactions(), final(master).transactions())),
        r matches Err(e) ==> answered(old(master).transactions(), final(master).transactions(), e)
            || (e == Error::ChipNotSupported && read_refused(final(master).spec_max_read_len(), old(buf)@.len(), CommandAddressing::ThreeByte)),
{
    read_multi_io(master, opcodes::DIOR, addr, buf, CommandAddressing::ThreeByte, IoMode::DualIo, 4)
}

/// Read using Quad Output mode (1-1-4), 3-byte address, opcode 0x6B, 8 dummy cycles
pub fn read_quad_out_3b<M: SpiMaster + ?Sized>(master: &mut M, addr: u32, buf: &mut [u8]) -> (r: Result<(), Error>)
    requires
        addr + old(buf)@.len() <= 0x1_0000_0000,
    ensures
        final(master).spec_max_read_len() == old(master).spec_max_read_len(),
        final(buf)@.len() == old(buf)@.len(),
        extends(old(master).transactions(), final(master).transactions()),
        chunked_read(new_transactions(old(master).transactions(), final(master).transactions()), opcodes::QOR, addr,
            CommandAddressing::ThreeByte, IoMode::QuadOut, 8),
        r is Ok ==> final(buf)@ == replies(new_transactions(old(master).transactions(), final(master).transactions())),
        r matches Err(e) ==> answered(old(master).transactions(), final(master).transactions(), e)
            || (e == Error::ChipNotSupported && read_refused(final(master).spec_max_read_len(), old(buf)@.len(), CommandAddressing::ThreeByte)),
{
    read_multi_io(master, opcodes::QOR, addr, buf, CommandAddressing::ThreeByte, IoMode::QuadOut, 8)
}

/// Read using Quad I/O mode (1-4-4), 3-byte address, opcode 0xEB, 6 dummy cycles
pub fn read_quad_io_3b<M: SpiMaster + ?Sized>(master: &mut M, addr: u32, buf: &mut [u8]) -> (r: Result<(), Error>)
    requires
        addr + old(buf)@.len() <= 0x1_0000_0000,
    ensures
        final(master).spec_max_read_len() == old(master).spec_max_read_len(),
        final(buf)@.len() == old(buf)@.len(),
        extends(old(master).transactions(), final(master).transactions()),
        chunked_read(new_transactions(old(master).transactions(), final(master).transactions()), opcodes::QIOR, addr,
            CommandAddressing::ThreeByte, IoMode::QuadIo, 6),
        r is Ok ==> final(buf)@ == replies(new_transactions(old(master).transactions(), final(master).transactions())),
        r matches Err(e) ==> answered(old(master).transactions(), final(master).transactions(), e)
            || (e == Error::ChipNotSupported && read_refused(final(master).spec_max_read_len(), old(buf)@.len(), CommandAddressing::ThreeByte)),
{
    read_multi_io(master, opcodes::QIOR, addr, buf, CommandAddressing::ThreeByte, IoMode::QuadIo, 6)
}

/// Read using Dual Output mode (1-1-2) with 4-byte address
pub fn read_dual_out_4b<M: SpiMaster + ?Sized>(master: &mut M, addr: u32, buf: &mut [u8]) -> (r: Result<(), Error>)
    requires
        addr + old(buf)@.len() <= 0x1_0000_0000,
    ensures
        final(master).spec_max_read_len() == old(master).spec_max_read_len(),
        final(buf)@.len() == old(buf)@.len(),
        extends(old(master).transactions(), final(master).transactions()),
        chunked_read(new_transactions(old(master).transactions(), final(master).transactions()), opcodes::DOR_4B, addr,
            CommandAddressing::FourByte, IoMode::DualOut, 8),
        r is Ok ==> final(buf)@ == replies(new_transactions(old(master).transactions(), final(master).transactions())),
        r matches Err(e) ==> answered(old(master).transactions(), final(master).transactions(), e)
            || (e == Error::ChipNotSupported && read_refused(final(master).spec_max_read_len(), old(buf)@.len(), CommandAddressing::FourByte)),
{
    read_multi_io(master, opcodes::DOR_4B, addr, buf, CommandAddressing::FourByte, IoMode::DualOut, 8)
}

/// Read using Dual I/O mode (1-2-2) with 4-byte address
pub fn read_dual_io_4b<M: SpiMaster + ?Sized>(master: &mut M, addr: u32, buf: &mut [u8]) -> (r: Result<(), Error>)
    requires
        addr + old(buf)@.len() <= 0x1_0000_0000,
    ensures
        final(master).spec_max_read_len() == old(master).spec_max_read_len(),
        final(buf)@.len() == old(buf)@.len(),
        extends(old(master).transactions(), final(master).transactions()),
        chunked_read(new_transactions(old(master).transactions(), final(master).transactions()), opcodes::DIOR_4B, addr,
            CommandAddressing::FourByte, IoMode::DualIo, 4),
        r is Ok ==> final(buf)@ == replies(new_transactions(old(master).transactions(), final(master).transactions())),
        r matches Err(e) ==> answered(old(master).transactions(), final(master).transactions(), e)
            || (e == Error::ChipNotSupported && read_refused(final(master).spec_max_read_len(), old(buf)@.len(), CommandAddressing::FourByte)),
{
    read_multi_io(master, opcodes::DIOR_4B, addr, buf, CommandAddressing::FourByte, IoMode::DualIo, 4)
}

/// Read using Quad Output mode (1-1-4) with 4-byte address
pub fn read_quad_out_4b<M: SpiMaster + ?Sized>(master: &mut M, addr: u32, buf: &mut [u8]) -> (r: Result<(), Error>)
    requires
        addr + old(buf)@.len() <= 0x1_0000_0000,
    ensures
        final(master).spec_max_read_len() == old(master).spec_max_read_len(),
        final(buf)@.len() == old(buf)@.len(),
        extends(old(master).transactions(), final(master).transactions()),
        chunked_read(new_transactions(old(master).transactions(), final(master).transactions()), opcodes::QOR_4B, addr,
            CommandAddressing::FourByte, IoMode::QuadOut, 8),
        r is Ok ==> final(buf)@ == replies(new_transactions(old(master).transactions(), final(master).transactions())),
        r matches Err(e) ==> answered(old(master).transactions(), final(master).transactions(), e)
            || (e == Error::ChipNotSupported && read_refused(final(master).spec_max_read_len(), old(buf)@.len(), CommandAddressing::FourByte)),
{
    read_multi_io(master, opcodes::QOR_4B, addr, buf, CommandAddressing::FourByte, IoMode::QuadOut, 8)
}

/// Read using Quad I/O mode (1-4-4) with 4-byte address
pub fn read_quad_io_4b<M: SpiMaster + ?Sized>(master: &mut M, addr: u32, buf: &mut [u8]) -> (r: Result<(), Error>)
    requires
        addr + old(buf)@.len() <= 0x1_0000_0000,
    ensures
        final(master).spec_max_read_len() == old(master).spec_max_read_len(),
        final(buf)@.len() == old(buf)@.len(),
        extends(old(master).transactions(), final(master).transactions()),
        chunked_read(new_transactions(old(master).transactions(), final(master).transactions()), opcodes::QIOR_4B, addr,
            CommandAddressing::FourByte, IoMode::QuadIo, 6),
        r is Ok ==> final(buf)@ == replies(new_transactions(old(master).transactions(), final(master).transactions())),
        r matches Err(e) ==> answered(old(master).transactions(), final(master).transactions(), e)
            || (e == Error::ChipNotSupported && read_refused(final(master).spec_max_read_len(), old(buf)@.len(), CommandAddressing::FourByte)),
{
    read_multi_io(master, opcodes::QIOR_4B, addr, buf, CommandAddressing::FourByte, IoMode::QuadIo, 6)
}

/// Quad Enable requirement types, as in SFDP JESD216.
#[derive(Debug, Clone, Copy, PartialEq, Eq, Structural)]
pub enum QuadEnableMethod {
    /// No QE bit required - device does not have a QE bit
    NoQeBit,
    /// QE is bit 1 of SR2, use WRSR with 2 data bytes to write
    Sr2Bit1WriteSr,
    /// QE is bit 6 of SR1
    Sr1Bit6,
    /// QE is bit 7 of SR2 (use special sequence)
    Sr2Bit7,
    /// QE is bit 1 of SR2, use dedicated 0x31 command
    Sr2Bit1WriteSr2,
}

/// A one-byte register read with `opcode`, answered with one byte.
pub open spec fn is_register_read(t: Transaction, opcode: u8) -> bool {
    is_plain_request(t.command, opcode, None, AddressWidth::NoAddress, seq![], 1) && t.reply.len() == 1
}

/// The register value with the bits of `mask` set (`enable`) or cleared.
pub open spec fn qe_value(v: u8, mask: u8, enable: bool) -> u8 {
    if enable { v | mask } else { v & !mask }
}

/// The register read that holds the QE bit of `method`.
pub open spec fn qe_read_opcode(method: QuadEnableMethod) -> u8 {
    match method {
        QuadEnableMethod::Sr1Bit6 => opcodes::RDSR,
        _ => opcodes::RDSR2,
    }
}

/// The QE bit of `method` in its register.
pub open spec fn qe_mask(method: QuadEnableMethod) -> u8 {
    match method {
        QuadEnableMethod::Sr1Bit6 => 0x40,
        QuadEnableMethod::Sr2Bit7 => 0x80,
        _ => opcodes::SR2_QE,
    }
}

/// One register read with `read_op`; when its QE bit (`mask`) is not yet
/// as wanted, the register is written back with `write_op` and the bit
/// changed.
pub open spec fn single_register_qe(ts: Seq<Transaction>, read_op: u8, mask: u8, write_op: u8, enable: bool) -> bool {
    &&& ts.len() >= 1
    &&& is_register_read(ts[0], read_op)
    &&& if (ts[0].reply[0] & mask != 0) == enable {
        ts.len() == 1
    } else {
        status_write_sent(ts.skip(1), opcodes::WREN, write_op, seq![qe_value(ts[0].reply[0], mask, enable)], true)
    }
}

/// A completed change of the QE bit to `enable` by `method`: nothing for a
/// chip without QE bit; otherwise the status registers are read and
/// written back only when the bit is not yet as wanted (both registers,
/// with WRSR, for `Sr2Bit1WriteSr`; SR1 alone for `Sr1Bit6`; SR2 alone,
/// with the 0x31 command, for the others).
pub open spec fn quad_mode_set(ts: Seq<Transaction>, method: QuadEnableMethod, enable: bool) -> bool {
    match method {
        QuadEnableMethod::NoQeBit => ts.len() == 0,
        QuadEnableMethod::Sr2Bit1WriteSr => {
            &&& ts.len() >= 2
            &&& is_register_read(ts[0], opcodes::RDSR)
            &&& is_register_read(ts[1], opcodes::RDSR2)
            &&& if (ts[1].reply[0] & opcodes::SR2_QE != 0) == enable {
                ts.len() == 2
            } else {
                status_write_sent(ts.skip(2), opcodes::WREN, opcodes::WRSR,
                    seq![ts[0].reply[0], qe_value(ts[1].reply[0], opcodes::SR2_QE, enable)], true)
            }
        },
        QuadEnableMethod::Sr1Bit6 => single_register_qe(ts, opcodes::RDSR, 0x40, opcodes::WRSR, enable),
        QuadEnableMethod::Sr2Bit7 => single_register_qe(ts, opcodes::RDSR2, 0x80, opcodes::WRSR2, enable),
        QuadEnableMethod::Sr2Bit1WriteSr2 => single_register_qe(ts, opcodes::RDSR2, opcodes::SR2_QE, opcodes::WRSR2, enable),
    }
}

/// A register read followed by a register write adds up to one sequence.
proof fn lemma_read_then(t0: Seq<Transaction>, t1: Seq<Transaction>, t2: Seq<Transaction>, opcode: u8)
    requires
        sent_register_read(t0, t1, opcode, 1),
        extends(t1, t2),
    ensures
        extends(t0, t2),
        new_transactions(t0, t2).len() >= 1,
        new_transactions(t0, t2)[0] == t1.last(),
        is_register_read(new_transactions(t0, t2)[0], opcode),
        new_transactions(t0, t2).skip(1) == new_transactions(t1, t2),
{
    lemma_new_chain(t0, t1, t2);
    assert(new_transactions(t0, t2).skip(1) =~= new_transactions(t1, t2));
}

/// Enable quad mode using the appropriate method for the chip; nothing is
/// written when the QE bit is already set or the chip has none.
pub fn enable_quad_mode<M: SpiMaster + ?Sized>(master: &mut M, method: QuadEnableMethod) -> (r: Result<(), Error>)
    ensures
        method == QuadEnableMethod::NoQeBit ==> r == Ok::<(), Error>(())
            && final(master).transactions() == old(master).transactions(),
        extends(old(master).transactions(), final(master).transactions()),
        r is Ok ==> quad_mode_set(new_transactions(old(master).transactions(), final(master).transactions()), method, true),
        r matches Err(e) ==> answered(old(master).transactions(), final(master).transactions(), e) || e == Error::Timeout,
{
    let ghost t0 = master.transactions();
    match method {
        QuadEnableMethod::NoQeBit => Ok(()),
        QuadEnableMethod::Sr2Bit1WriteSr => {
            let sr1 = read_status1(master)?;
            let ghost t1 = master.transactions();
            let sr2_res = read_status2(master);
            let ghost t2 = master.transactions();
            proof {
                lemma_new_chain(t0, t1, t2);
                if sr2_res is Err {
                    lemma_answered(t0, t1, t2, sr2_res->Err_0);
                }
                assert(new_transactions(t0, t2)[0] == t1.last());
                assert(new_transactions(t0, t2)[1] == t2.last());
            }
            let sr2 = sr2_res?;
            if sr2 & opcodes::SR2_QE != 0 {
                return Ok(());
            }
            let r = write_status12(master, sr1, sr2 | opcodes::SR2_QE);
            proof {
                lemma_new_chain(t0, t2, master.transactions());
                let ts = new_transactions(t0, master.transactions());
                assert(ts[0] == t1.last());
                assert(ts[1] == t2.last());
                assert(ts.skip(2) =~= new_transactions(t2, master.transactions()));
                if r is Err && r->Err_0 != Error::Timeout {
                    lemma_answered(t0, t2, master.transactions(), r->Err_0);
                }
            }
            r
        },
        QuadEnableMethod::Sr1Bit6 => {
            let sr1 = read_status1(master)?;
            let ghost t1 = master.transactions();
            proof {
                assert(new_transactions(t0, t1)[0] == t1.last());
            }
            if sr1 & 0x40 != 0 {
                return Ok(());
            }
            let r = write_status1(master, sr1 | 0x40);
            proof {
                lemma_read_then(t0, t1, master.transactions(), opcodes::RDSR);
                if r is Err && r->Err_0 != Error::Timeout {
                    lemma_answered(t0, t1, master.transactions(), r->Err_0);
                }
            }
            r
        },
        QuadEnableMethod::Sr2Bit7 => {
            let sr2 = read_status2(master)?;
            let ghost t1 = master.transactions();
            proof {
                assert(new_transactions(t0, t1)[0] == t1.last());
            }
            if sr2 & 0x80 != 0 {
                return Ok(());
            }
            let r = write_status2_direct(master, sr2 | 0x80);
            proof {
                lemma_read_then(t0, t1, master.transactions(), opcodes::RDSR2);
                if r is Err && r->Err_0 != Error::Timeout {
                    lemma_answered(t0, t1, master.transactions(), r->Err_0);
                }
            }
            r
        },
        QuadEnableMethod::Sr2Bit1WriteSr2 => {
            let sr2 = read_status2(master)?;
            let ghost t1 = master.transactions();
            proof {
                assert(new_transactions(t0, t1)[0] == t1.last());
            }
            if sr2 & opcodes::SR2_QE != 0 {
                return Ok(());
            }
            let r = write_status2_direct(master, sr2 | opcodes::SR2_QE);
            proof {
                lemma_read_then(t0, t1, master.transactions(), opcodes::RDSR2);
                if r is Err && r->Err_0 != Error::Timeout {
                    lemma_answered(t0, t1, master.transactions(), r->Err_0);
                }
            }
            r
        },
    }
}

/// Disable quad mode using the appropriate method for the chip.
pub fn disable_quad_mode<M: SpiMaster + ?Sized>(master: &mut M, method: QuadEnableMethod) -> (r: Result<(), Error>)
    ensures
        method == QuadEnableMethod::NoQeBit ==> r == Ok::<(), Error>(())
            && final(master).transactions() == old(master).transactions(),
        extends(old(master).transactions(), final(master).transactions()),
        r is Ok ==> quad_mode_set(new_transactions(old(master).transactions(), final(master).transactions()), method, false),
        r matches Err(e) ==> answered(old(master).transactions(), final(master).transactions(), e) || e == Error::Timeout,
{
    let ghost t0 = master.transactions();
    match method {
        QuadEnableMethod::NoQeBit => Ok(()),
        QuadEnableMethod::Sr2Bit1WriteSr => {
            let sr1 = read_status1(master)?;
            let ghost t1 = master.transactions();
            let sr2_res = read_status2(master);
            let ghost t2 = master.transactions();
            proof {
                lemma_new_chain(t0, t1, t2);
                if sr2_res is Err {
                    lemma_answered(t0, t1, t2, sr2_res->Err_0);
                }
                assert(new_transactions(t0, t2)[0] == t1.last());
                assert(new_transactions(t0, t2)[1] == t2.last());
            }
            let sr2 = sr2_res?;
            if sr2 & opcodes::SR2_QE == 0 {
                return Ok(());
            }
            let r = write_status12(master, sr1, sr2 & !opcodes::SR2_QE);
            proof {
                lemma_new_chain(t0, t2, master.transactions());
                let ts = new_transactions(t0, master.transactions());
                assert(ts[0] == t1.last());
                assert(ts[1] == t2.last());
                assert(ts.skip(2) =~= new_transactions(t2, master.transactions()));
                if r is Err && r->Err_0 != Error::Timeout {
                    lemma_answered(t0, t2, master.transactions(), r->Err_0);
                }
            }
            r
        },
        QuadEnableMethod::Sr1Bit6 => {
            let sr1 = read_status1(master)?;
            let ghost t1 = master.transactions();
            proof {
                assert(new_transactions(t0, t1)[0] == t1.last());
            }
            if sr1 & 0x40 == 0 {
                return Ok(());
            }
            let r = write_status1(master, sr1 & !0x40u8);
            proof {
                lemma_read_then(t0, t1, master.transactions(), opcodes::RDSR);
                if r is Err && r->Err_0 != Error::Timeout {
                    lemma_answered(t0, t1, master.transactions(), r->Err_0);
                }
            }
            r
        },
        QuadEnableMethod::Sr2Bit7 => {
            let sr2 = read_status2(master)?;
            let ghost t1 = master.transactions();
            proof {
                assert(new_transactions(t0, t1)[0] == t1.last());
            }
            if sr2 & 0x80 == 0 {
                return Ok(());
            }
            let r = write_status2_direct(master, sr2 & !0x80u8);
            proof {
                lemma_read_then(t0, t1, master.transactions(), opcodes::RDSR2);
                if r is Err && r->Err_0 != Error::Timeout {
                    lemma_answered(t0, t1, master.transactions(), r->Err_0);
                }
            }
            r
        },
        QuadEnableMethod::Sr2Bit1WriteSr2 => {
            let sr2 = read_status2(master)?;
            let ghost t1 = master.transactions();
            proof {
                assert(new_transactions(t0, t1)[0] == t1.last());
            }
            if sr2 & opcodes::SR2_QE == 0 {
                return Ok(());
            }
            let r = write_status2_direct(master, sr2 & !opcodes::SR2_QE);
            proof {
                lemma_read_then(t0, t1, master.transactions(), opcodes::RDSR2);
                if r is Err && r->Err_0 != Error::Timeout {
                    lemma_answered(t0, t1, master.transactions(), r->Err_0);
                }
            }
            r
        },
    }
}

/// Check if quad mode is enabled (always for a chip without QE bit).
pub fn is_quad_enabled<M: SpiMaster + ?Sized>(master: &mut M, method: QuadEnableMethod) -> (r: Result<bool, Error>)
    ensures
        method == QuadEnableMethod::NoQeBit ==> r == Ok::<bool, Error>(true)
            && final(master).transactions() == old(master).transactions(),
        method != QuadEnableMethod::NoQeBit ==> sent_register_read(old(master).transactions(),
            final(master).transactions(), qe_read_opcode(method), 1)
            && (r matches Ok(b) ==> b == (final(master).transactions().last().reply[0] & qe_mask(method) != 0)),
        r matches Err(e) ==> answered(old(master).transactions(), final(master).transactions(), e),
{
    match method {
        QuadEnableMethod::NoQeBit => Ok(true),
        QuadEnableMethod::Sr2Bit1WriteSr | QuadEnableMethod::Sr2Bit1WriteSr2 => {
            let sr2 = read_status2(master)?;
            Ok(sr2 & opcodes::SR2_QE != 0)
        },
        QuadEnableMethod::Sr1Bit6 => {
            let sr1 = read_status1(master)?;
            Ok(sr1 & 0x40 != 0)
        },
        QuadEnableMethod::Sr2Bit7 => {
            let sr2 = read_status2(master)?;
            Ok(sr2 & 0x80 != 0)
        },
    }
}

/// Enter QPI mode (4-4-4) with the chip's opcode (commonly 0x35 or 0x38).
pub fn enter_qpi_mode<M: SpiMaster + ?Sized>(master: &mut M, opcode: u8) -> (r: Result<(), Error>)
    ensures
        sent_simples(old(master).transactions(), final(master).transactions(), seq![opcode], true),
        r matches Err(e) ==> answered(old(master).transactions(), final(master).transactions(), e),
        r is Ok <==> final(master).transactions().last().result is Ok,
{
    execute(master, SpiCommand::simple(opcode))
}

/// Exit QPI mode; the command itself is sent in QPI mode (commonly 0xF5 or 0xFF).
pub fn exit_qpi_mode<M: SpiMaster + ?Sized>(master: &mut M, opcode: u8) -> (r: Result<(), Error>)
    ensures
        final(master).transactions().len() == old(master).transactions().len() + 1,
        extends(old(master).transactions(), final(master).transactions()),
        is_request(final(master).transactions().last().command, opcode, None, AddressWidth::NoAddress, IoMode::Qpi, 0, seq![], 0),
        r matches Err(e) ==> answered(old(master).transactions(), final(master).transactions(), e),
        r is Ok <==> final(master).transactions().last().result is Ok,
{
    let cmd = SpiCommand {
        opcode,
        address: None,
        address_width: AddressWidth::NoAddress,
        io_mode: IoMode::Qpi,
        dummy_cycles: 0,
        write_data: Vec::new(),
        read_buf: Vec::new(),
    };
    execute(master, cmd)
}

} // verus!
