//! Command addressing plans and the single owner of temporary flash state.
//!
//! A transfer may switch the chip into 4-byte mode, change its extended
//! address register or set its quad-enable bit; the lifecycle records each
//! of these before making it and undoes it afterwards. When that cleanup
//! cannot be confirmed, the lifecycle latches: the chip's state is unknown,
//! and every later transfer is refused until the hardware is recovered.
use vstd::prelude::*;
use crate::chip::features::{Features, QeMethod};
use crate::chip::types::{size_at_offset, EraseBlock, EraseRegion, WriteGranularity};
use crate::error::Error;
use crate::programmer::features::SpiFeatures;
use crate::programmer::traits::{SpiMaster, Transaction};
use crate::protocol::spi25::{
    answered, lemma_answered, extends, is_register_read, is_status_poll, lemma_new_chain, new_transactions, polled, qe_mask,
    qe_read_opcode, quad_mode_set, sent_bank_select, sent_register_read, spec_max_polls,
    addressed_data, chunked_program, lemma_program_none, lemma_program_step, addressed_op, is_plain_request,
    is_simple, aai_writes, written,
};
use crate::protocol::spi25::{
    disable_quad_mode, enable_quad_mode, enter_4byte_mode_with_features,
    exit_4byte_mode_with_features, is_quad_enabled, set_extended_address, wait_ready,
    write_disable, CommandAddressing, QuadEnableMethod,
};
use crate::spi::address::AddressWidth;
use crate::spi::command::SpiCommand;
use crate::spi::opcodes;
use super::context::{AddressMode, FlashContext};
use super::operations::{erase_block_fits, select_erase_block, same_erase_block};
use crate::protocol::spi25::{aai_word_program, erase_block, program_page_with_addressing};

verus! {

/// Command addressing, not a cache of the chip's current mode.
#[derive(Debug, Clone, Copy, PartialEq, Eq, Structural)]
pub enum AddressPlan {
    /// Ordinary three-byte commands.
    ThreeByte,
    /// Dedicated four-byte opcodes; no chip mode change.
    NativeFourByte,
    /// Bracket compatibility commands with chip-specific mode entry/exit.
    EnterFourByte(Features),
    /// Three-byte commands with explicit bank selection and saved EAR restoration.
    Ear(Features),
}

impl AddressPlan {
    /// The addressing of the commands sent under this plan.
    pub open spec fn spec_command_addressing(self) -> CommandAddressing {
        match self {
            AddressPlan::ThreeByte => CommandAddressing::ThreeByte,
            AddressPlan::NativeFourByte => CommandAddressing::FourByte,
            AddressPlan::EnterFourByte(_) => CommandAddressing::FourByte,
            AddressPlan::Ear(f) => CommandAddressing::ExtendedAddressRegister(f),
        }
    }

    /// Address strategy consumed by raw SPI protocol helpers.
    pub fn command_addressing(self) -> (r: CommandAddressing)
        ensures
            r == self.spec_command_addressing(),
    {
        match self {
            AddressPlan::ThreeByte => CommandAddressing::ThreeByte,
            AddressPlan::NativeFourByte => CommandAddressing::FourByte,
            AddressPlan::EnterFourByte(_) => CommandAddressing::FourByte,
            AddressPlan::Ear(f) => CommandAddressing::ExtendedAddressRegister(f),
        }
    }

    /// A transfer of `len` bytes at `addr` fits the plan: it ends within the
    /// 32-bit address space, and within 16 MiB for three-byte commands.
    pub open spec fn spec_range_fits(self, addr: u32, len: int) -> bool {
        &&& addr + len <= 0x1_0000_0000
        &&& !(self == AddressPlan::ThreeByte && addr + len > 0x0100_0000)
    }

    /// Reject address truncation before submitting a planned transfer.
    pub fn validate_range(self, addr: u32, len: usize) -> (r: Result<(), Error>)
        ensures
            r == if self.spec_range_fits(addr, len as int) {
                Ok::<(), Error>(())
            } else {
                Err(Error::AddressOutOfBounds)
            },
    {
        match (addr as u64).checked_add(len as u64) {
            Some(end) => {
                if end > 0x1_0000_0000u64 || (self == AddressPlan::ThreeByte && end > 0x0100_0000u64) {
                    Err(Error::AddressOutOfBounds)
                } else {
                    Ok(())
                }
            },
            None => Err(Error::AddressOutOfBounds),
        }
    }

    /// Number of address bytes on the wire under this plan.
    pub open spec fn spec_width(self) -> AddressWidth {
        match self {
            AddressPlan::NativeFourByte => AddressWidth::FourByte,
            AddressPlan::EnterFourByte(_) => AddressWidth::FourByte,
            _ => AddressWidth::ThreeByte,
        }
    }

    /// Number of address bytes on the wire.
    pub fn width(self) -> (r: AddressWidth)
        ensures
            r == self.spec_width(),
    {
        match self {
            AddressPlan::NativeFourByte => AddressWidth::FourByte,
            AddressPlan::EnterFourByte(_) => AddressWidth::FourByte,
            _ => AddressWidth::ThreeByte,
        }
    }
}

/// The addressing strategies for a chip, in order of preference: three-byte
/// commands alone while the chip is addressed with three bytes; else native
/// four-byte opcodes (where `native` and the programmer sends four address
/// bytes), 4-byte mode entry, and the extended address register, each where
/// the programmer and the chip allow it.
pub open spec fn spec_addresses(
    mode: AddressMode,
    chip: Features,
    programmer: SpiFeatures,
    native: bool,
) -> Seq<Option<AddressPlan>> {
    if mode == AddressMode::ThreeByte {
        seq![Some(AddressPlan::ThreeByte), None, None]
    } else {
        let four = programmer.has(SpiFeatures::FOUR_BYTE_ADDR);
        let modes = !programmer.has(SpiFeatures::NO_4BA_MODES);
        seq![
            if native && four { Some(AddressPlan::NativeFourByte) } else { None },
            if modes && four && chip.has_any(Features::ANY_4BA_ENTER) {
                Some(AddressPlan::EnterFourByte(chip))
            } else {
                None
            },
            if modes && chip.has_any(Features::ANY_EXT_ADDR_REG) { Some(AddressPlan::Ear(chip)) } else { None },
        ]
    }
}

/// The addressing strategies usable for the chip of `ctx` with a
/// programmer of `features`.
pub fn addresses(ctx: &FlashContext, features: SpiFeatures, native: bool) -> (r: [Option<AddressPlan>; 3])
    ensures
        r@ == spec_addresses(ctx.address_mode, ctx.chip.features, features, native),
{
    if ctx.address_mode == AddressMode::ThreeByte {
        let r = [Some(AddressPlan::ThreeByte), None, None];
        assert(r@ =~= spec_addresses(ctx.address_mode, ctx.chip.features, features, native));
        return r;
    }
    let f = ctx.chip.features;
    let four = features.contains(SpiFeatures::FOUR_BYTE_ADDR);
    let modes = !features.contains(SpiFeatures::NO_4BA_MODES);
    let native_plan = if native && four { Some(AddressPlan::NativeFourByte) } else { None };
    let enter_plan = if modes && four && f.supports_4ba_mode_switch() {
        Some(AddressPlan::EnterFourByte(f))
    } else {
        None
    };
    let ear_plan = if modes && f.supports_extended_address_register() { Some(AddressPlan::Ear(f)) } else { None };
    let r = [native_plan, enter_plan, ear_plan];
    assert(r@ =~= spec_addresses(ctx.address_mode, ctx.chip.features, features, native));
    r
}

/// The quad-enable method of a chip's definition.
pub open spec fn spec_qe_method(m: QeMethod) -> QuadEnableMethod {
    match m {
        QeMethod::NoQeBit => QuadEnableMethod::NoQeBit,
        QeMethod::Sr2Bit1WriteSr => QuadEnableMethod::Sr2Bit1WriteSr,
        QeMethod::Sr2Bit1WriteSr2 => QuadEnableMethod::Sr2Bit1WriteSr2,
        QeMethod::Sr1Bit6 => QuadEnableMethod::Sr1Bit6,
        QeMethod::Sr2Bit7 => QuadEnableMethod::Sr2Bit7,
    }
}

/// The quad-enable method for the chip of `ctx`.
pub fn qe_method(ctx: &FlashContext) -> (r: QuadEnableMethod)
    ensures
        r == spec_qe_method(ctx.chip.qe_method),
{
    match ctx.chip.qe_method {
        QeMethod::NoQeBit => QuadEnableMethod::NoQeBit,
        QeMethod::Sr2Bit1WriteSr => QuadEnableMethod::Sr2Bit1WriteSr,
        QeMethod::Sr2Bit1WriteSr2 => QuadEnableMethod::Sr2Bit1WriteSr2,
        QeMethod::Sr1Bit6 => QuadEnableMethod::Sr1Bit6,
        QeMethod::Sr2Bit7 => QuadEnableMethod::Sr2Bit7,
    }
}

/// The opcode that reads the chip's extended address register: 0xC8 for
/// the C5/C8 register (or the legacy flag), 0x16 for the 17/16 register.
pub open spec fn spec_extended_address_read_opcode(features: Features) -> Result<u8, Error> {
    if features.has(Features::EXT_ADDR_REG_C5C8) || features.has(Features::EXT_ADDR_REG) {
        Ok(opcodes::RDEAR)
    } else if features.has(Features::EXT_ADDR_REG_1716) {
        Ok(opcodes::RDEAR_ALT)
    } else {
        Err(Error::ChipNotSupported)
    }
}

fn extended_address_read_opcode(features: Features) -> (r: Result<u8, Error>)
    ensures
        r == spec_extended_address_read_opcode(features),
{
    if features.contains(Features::EXT_ADDR_REG_C5C8) || features.contains(Features::EXT_ADDR_REG) {
        Ok(opcodes::RDEAR)
    } else if features.contains(Features::EXT_ADDR_REG_1716) {
        Ok(opcodes::RDEAR_ALT)
    } else {
        Err(Error::ChipNotSupported)
    }
}

/// Read the chip's extended address register.
fn read_ear<M: SpiMaster + ?Sized>(master: &mut M, f: Features) -> (r: Result<u8, Error>)
    ensures
        spec_extended_address_read_opcode(f) is Err ==> r == Err::<u8, Error>(Error::ChipNotSupported)
            && final(master).transactions() == old(master).transactions(),
        spec_extended_address_read_opcode(f) matches Ok(op) ==> sent_register_read(
            old(master).transactions(), final(master).transactions(), op, 1)
            && (r matches Ok(v) ==> v == final(master).transactions().last().reply[0]),
        r matches Err(e) ==> answered(old(master).transactions(), final(master).transactions(), e)
            || e == Error::ChipNotSupported,
{
    let opcode = extended_address_read_opcode(f)?;
    let mut cmd = SpiCommand::read_reg(opcode, vec![0u8; 1]);
    let res = master.execute(&mut cmd);
    assert(master.transactions().subrange(0, old(master).transactions().len() as int) =~= old(master).transactions());
    assert(master.transactions()[master.transactions().len() - 1].result == res);
    res?;
    Ok(cmd.read_buf[0])
}

/// A completed restore of the extended address register: the bank select
/// writing `saved`, then a read of the register answering `saved`.
pub open spec fn ear_restored(ts: Seq<Transaction>, f: Features, saved: u8) -> bool {
    &&& ts.len() == 3
    &&& sent_bank_select(ts, f, saved)
    &&& spec_extended_address_read_opcode(f) matches Ok(op) && is_register_read(ts[2], op)
    &&& ts[2].reply[0] == saved
}

/// The temporary changes a transfer made to the chip, to be undone.
struct Undo {
    restore_qe: bool,
    exit_4b: bool,
    ear: Option<(Features, u8)>,
}

/// What the last bracket of a lifecycle did, as seen on the bus.
pub ghost struct Bracket {
    /// The transactions before the bracket began.
    pub began: Seq<Transaction>,
    /// The transactions when the preparation ended.
    pub prepared: Seq<Transaction>,
    /// Whether the preparation succeeded (and the transfer ran).
    pub prepared_ok: bool,
    /// What the preparation answered.
    pub prep_result: Result<(), Error>,
    /// The transfer answered `RecoveryRequired`.
    pub transfer_rr: bool,
    /// The transactions when the transfer ended (the preparation's, when it
    /// did not run).
    pub transferred: Seq<Transaction>,
    /// The preparation or the transfer answered `RecoveryRequired`.
    pub aborted: bool,
    /// The quad-enable bit was set for the transfer and is to be cleared.
    pub restore_qe: bool,
    /// The extended address register value saved for the restore.
    pub saved_ear: Option<(Features, u8)>,
}

/// The lifecycle of temporary flash state: a latch that is set while a
/// transfer runs and stays set when its cleanup cannot be confirmed.
pub struct IoLifecycle {
    recovery_required: bool,
    record: Ghost<Bracket>,
}

impl Default for IoLifecycle {
    fn default() -> (r: IoLifecycle)
        ensures
            !r.latched(),
    {
        IoLifecycle {
            recovery_required: false,
            record: Ghost(Bracket {
                began: Seq::empty(),
                prepared: Seq::empty(),
                prepared_ok: false,
                prep_result: Ok(()),
                transfer_rr: false,
                transferred: Seq::empty(),
                aborted: false,
                restore_qe: false,
                saved_ear: None,
            }),
        }
    }
}

/// The preparation of a bracket, as its transactions `ts` show it: on
/// success the quad-enable bit was confirmed set, and the extended address
/// register was read and its value saved (for EAR plans); a saved value
/// always comes from that first read.
pub open spec fn preparation_sent(ts: Seq<Transaction>, address: AddressPlan, qe: QuadEnableMethod, b: Bracket) -> bool {
    &&& b.prepared_ok && qe != QuadEnableMethod::NoQeBit ==> quad_confirmed(ts, qe)
    &&& address matches AddressPlan::Ear(f) ==> (b.prepared_ok ==> ear_saved(ts, f, b.saved_ear))
    &&& b.restore_qe ==> qe != QuadEnableMethod::NoQeBit
    &&& !(address is Ear) && !(address is EnterFourByte) ==> b.saved_ear is None
}

/// A bracket as it went: the preparation was sent after what came before;
/// an abort answered `RecoveryRequired` and sent nothing more; otherwise the
/// cleanup followed the transfer, starting with a status poll; and the
/// latch was cleared only after a cleanup that fully succeeded.
pub open spec fn bracket_done(
    b: Bracket,
    before: Seq<Transaction>,
    after: Seq<Transaction>,
    address: AddressPlan,
    qe: QuadEnableMethod,
    latched: bool,
) -> bool {
    &&& b.began == before
    &&& b.prepared_ok == (b.prep_result is Ok)
    &&& b.prep_result matches Err(e) ==> (answered(b.began, b.prepared, e) || e == Error::ChipNotSupported
        || e == Error::ProgrammerError || e == Error::Timeout)
    &&& b.aborted == (b.prep_result == Err::<(), Error>(Error::RecoveryRequired) || b.transfer_rr)
    &&& !b.prepared_ok ==> !b.transfer_rr
    &&& extends(b.began, b.prepared)
    &&& preparation_sent(new_transactions(b.began, b.prepared), address, qe, b)
    &&& !b.prepared_ok ==> b.transferred == b.prepared
    &&& b.aborted ==> latched && after == b.transferred
    &&& !b.aborted ==> extends(b.transferred, after) && new_transactions(b.transferred, after).len() >= 1
        && is_status_poll(new_transactions(b.transferred, after)[0])
    &&& !latched ==> !b.aborted && cleanup_done(new_transactions(b.transferred, after), qe, b.restore_qe, b.saved_ear)
}

impl IoLifecycle {
    /// The chip's state is unknown and needs hardware recovery.
    pub closed spec fn latched(self) -> bool {
        self.recovery_required
    }

    /// What the last bracket did.
    pub closed spec fn last_bracket(self) -> Bracket {
        self.record@
    }

    /// Whether hardware recovery is required before any further transfer.
    pub fn recovery_required(&self) -> (r: bool)
        ensures
            r == self.latched(),
    {
        self.recovery_required
    }

    /// `Err(RecoveryRequired)` when recovery is required.
    pub fn check(&self) -> (r: Result<(), Error>)
        ensures
            r == if self.latched() { Err::<(), Error>(Error::RecoveryRequired) } else { Ok(()) },
    {
        if self.recovery_required {
            Err(Error::RecoveryRequired)
        } else {
            Ok(())
        }
    }

    /// One bracket for a whole transfer.
    ///
    /// Prepares the addressing (saving the extended address register, or
    /// entering 4-byte mode) and the quad-enable bit, runs `transfer`, then
    /// waits for the chip to be idle and undoes each change. Each undo
    /// obligation is recorded before the change it undoes is made. The latch
    /// is set for the whole bracket and cleared only when the cleanup
    /// succeeded; a transfer that itself answers `RecoveryRequired` skips
    /// the cleanup, since no command is safe then.
    pub fn run<M: SpiMaster + ?Sized, T, F: FnOnce(&mut M) -> Result<T, Error>>(
        &mut self,
        master: &mut M,
        address: AddressPlan,
        qe: QuadEnableMethod,
        transfer: F,
    ) -> (r: Result<T, Error>)
        requires
            forall|m: &mut M| #[trigger] transfer.requires((m,)),
        ensures
            old(self).latched() ==> (r matches Err(e) && e == Error::RecoveryRequired)
                && final(master).transactions() == old(master).transactions(),
            final(self).latched() <==> (r matches Err(e) && e == Error::RecoveryRequired),
            !old(self).latched() ==> bracket_done(final(self).last_bracket(), old(master).transactions(),
                final(master).transactions(), address, qe, final(self).latched()),
            final(self).last_bracket().aborted ==> (r matches Err(e) && e == Error::RecoveryRequired),
            r matches Ok(v) ==> exists|m: &mut M| #[trigger] transfer.ensures((m,), Ok::<T, Error>(v)),
            !old(self).latched() && final(self).last_bracket().prepared_ok ==> exists|m: &mut M, res: Result<T, Error>|
                #[trigger] transfer.ensures((m,), res)
                && (final(self).last_bracket().transfer_rr <==> res == Err::<T, Error>(Error::RecoveryRequired))
                && (!final(self).latched() ==> r == res),
            !old(self).latched() && !final(self).last_bracket().prepared_ok && !final(self).latched()
                ==> (r matches Err(e) && final(self).last_bracket().prep_result == Err::<(), Error>(e)),
    {
        if self.recovery_required {
            return Err(Error::RecoveryRequired);
        }
        self.recovery_required = true;
        let ghost began = master.transactions();
        let mut undo = Undo { restore_qe: false, exit_4b: false, ear: None };
        let prep = prepare(master, address, qe, &mut undo);
        let ghost prepared = master.transactions();
        let ghost prepared_ok = prep is Ok;
        let ghost prep_result = prep;
        let ghost mut transfer_rr = false;
        let result = match prep {
            Ok(()) => {
                let res = transfer(master);
                proof {
                    if res is Ok {
                        assert(res == Ok::<T, Error>(res->Ok_0));
                        assert(exists|m: &mut M| #[trigger] transfer.ensures((m,), Ok::<T, Error>(res->Ok_0)));
                    }
                    transfer_rr = res == Err::<T, Error>(Error::RecoveryRequired);
                    assert(exists|m: &mut M, x: Result<T, Error>| #[trigger] transfer.ensures((m,), x) && x == res);
                }
                res
            },
            Err(e) => Err(e),
        };
        let ghost transferred = master.transactions();
        let aborted = match &result {
            Err(e) => *e == Error::RecoveryRequired,
            Ok(_) => false,
        };
        self.record = Ghost(Bracket {
            began,
            prepared,
            prepared_ok,
            prep_result,
            transfer_rr,
            transferred,
            aborted,
            restore_qe: undo.restore_qe,
            saved_ear: undo.ear,
        });
        if aborted {
            return result;
        }
        match cleanup(master, address, qe, &undo) {
            Ok(()) => {
                self.recovery_required = false;
                result
            },
            Err(_) => Err(Error::RecoveryRequired),
        }
    }
}

/// Set up the addressing and the quad-enable bit for a transfer, recording
/// in `undo` what has to be undone before each change is made.
fn prepare<M: SpiMaster + ?Sized>(master: &mut M, address: AddressPlan, qe: QuadEnableMethod, undo: &mut Undo) -> (r: Result<(), Error>)
    ensures
        extends(old(master).transactions(), final(master).transactions()),
        r is Ok && qe != QuadEnableMethod::NoQeBit ==> quad_confirmed(
            new_transactions(old(master).transactions(), final(master).transactions()), qe),
        address matches AddressPlan::Ear(f) ==> (r is Ok ==> ear_saved(
            new_transactions(old(master).transactions(), final(master).transactions()), f, final(undo).ear)),
        address matches AddressPlan::EnterFourByte(f) ==> (r is Ok ==> final(undo).exit_4b || ear_saved(
            new_transactions(old(master).transactions(), final(master).transactions()), f, final(undo).ear)),
        !(address is Ear) && !(address is EnterFourByte) ==> final(undo).ear == old(undo).ear
            && final(undo).exit_4b == old(undo).exit_4b,
        qe == QuadEnableMethod::NoQeBit ==> final(undo).restore_qe == old(undo).restore_qe,
        r matches Err(e) ==> answered(old(master).transactions(), final(master).transactions(), e)
            || e == Error::ChipNotSupported || e == Error::ProgrammerError || e == Error::Timeout,
{
    let ghost t0 = master.transactions();
    match address {
        AddressPlan::Ear(f) => {
            let saved = read_ear(master, f)?;
            undo.ear = Some((f, saved));
        },
        AddressPlan::EnterFourByte(f) => {
            if f.contains(Features::FOUR_BYTE_ENTER_EAR7) && !f.intersects(
                Features::FOUR_BYTE_ENTER | Features::FOUR_BYTE_ENTER_WREN,
            ) {
                let saved = read_ear(master, f)?;
                undo.ear = Some((f, saved));
            } else {
                undo.exit_4b = true;
                assert(t0.subrange(0, t0.len() as int) =~= t0);
            }
            let ghost ta = master.transactions();
            let res = enter_4byte_mode_with_features(master, f);
            proof {
                lemma_extends_trans(t0, ta, master.transactions());
                lemma_first_kept(t0, ta, master.transactions());
                if res is Err && res->Err_0 != Error::ChipNotSupported {
                    lemma_answered(t0, ta, master.transactions(), res->Err_0);
                }
            }
            res?;
        },
        _ => {},
    }
    let ghost t1 = master.transactions();
    assert(extends(t0, t1)) by {
        if t1 == t0 {
            assert(t0.subrange(0, t0.len() as int) =~= t0);
        }
    }
    if qe != QuadEnableMethod::NoQeBit {
        let enabled = is_quad_enabled(master, qe);
        let ghost t2 = master.transactions();
        proof {
            lemma_extends_trans(t0, t1, t2);
            lemma_first_kept(t0, t1, t2);
            lemma_last_new(t0, t2);
            if enabled is Err {
                lemma_answered(t0, t1, t2, enabled->Err_0);
            }
        }
        if !enabled? {
            undo.restore_qe = true;
            let res = enable_quad_mode(master, qe);
            let ghost t3 = master.transactions();
            proof {
                lemma_extends_trans(t0, t2, t3);
                lemma_first_kept(t0, t2, t3);
                if res is Err && res->Err_0 != Error::Timeout {
                    lemma_answered(t0, t2, t3, res->Err_0);
                }
            }
            res?;
            let again = is_quad_enabled(master, qe);
            proof {
                lemma_extends_trans(t0, t3, master.transactions());
                lemma_first_kept(t0, t3, master.transactions());
                lemma_last_new(t0, master.transactions());
                if again is Err {
                    lemma_answered(t0, t3, master.transactions(), again->Err_0);
                }
            }
            if !again? {
                return Err(Error::ProgrammerError);
            }
        }
    }
    Ok(())
}

/// The last transaction read the QE register of `qe` and found the bit set.
pub open spec fn quad_confirmed(ts: Seq<Transaction>, qe: QuadEnableMethod) -> bool {
    &&& ts.len() >= 1
    &&& is_register_read(ts.last(), qe_read_opcode(qe))
    &&& ts.last().reply[0] & qe_mask(qe) != 0
}

/// The first transaction read the extended address register, and its
/// answer was saved for the restore.
pub open spec fn ear_saved(ts: Seq<Transaction>, f: Features, saved: Option<(Features, u8)>) -> bool {
    &&& ts.len() >= 1
    &&& spec_extended_address_read_opcode(f) matches Ok(op) && is_register_read(ts[0], op)
    &&& saved == Some((f, ts[0].reply[0]))
}

/// Extension of transaction histories is transitive.
proof fn lemma_extends_trans(a: Seq<Transaction>, b: Seq<Transaction>, c: Seq<Transaction>)
    requires
        extends(a, b),
        extends(b, c),
    ensures
        extends(a, c),
{
    lemma_new_chain(a, b, c);
}

/// The transactions after `a` keep their beginning as more follow.
proof fn lemma_first_kept(a: Seq<Transaction>, b: Seq<Transaction>, c: Seq<Transaction>)
    requires
        extends(a, b),
        extends(b, c),
    ensures
        forall|j: int| 0 <= j < b.len() - a.len() ==> #[trigger] new_transactions(a, c)[j] == new_transactions(a, b)[j],
{
    lemma_new_chain(a, b, c);
}

/// The last new transaction is the last transaction.
proof fn lemma_last_new(a: Seq<Transaction>, b: Seq<Transaction>)
    requires
        extends(a, b),
        b.len() > a.len(),
    ensures
        new_transactions(a, b).last() == b.last(),
{
}

/// Undo what `prepare` recorded, once the chip is idle; the last failure
/// is reported, after every undo was attempted.
#[verifier::spinoff_prover]
#[verifier::rlimit(60)]
fn cleanup<M: SpiMaster + ?Sized>(master: &mut M, address: AddressPlan, qe: QuadEnableMethod, undo: &Undo) -> (r: Result<(), Error>)
    ensures
        extends(old(master).transactions(), final(master).transactions()),
        new_transactions(old(master).transactions(), final(master).transactions()).len() >= 1,
        is_status_poll(new_transactions(old(master).transactions(), final(master).transactions())[0]),
        r is Ok ==> cleanup_done(new_transactions(old(master).transactions(), final(master).transactions()), qe, undo.restore_qe, undo.ear),
{
    let ghost t0 = master.transactions();
    let ghost mut qa: int = 0;
    let ghost mut qb: int = 0;
    let ready = wait_ready(master, 1_000, 60_000_000);
    let ghost tw = master.transactions();
    assert(spec_max_polls(1_000, 60_000_000) > 0);
    ready?;
    let mut failure: Option<Error> = None;
    if master.probe_opcode(opcodes::WRDI) {
        if let Err(e) = write_disable(master) {
            failure = Some(e);
        }
    }
    let ghost ta = master.transactions();
    proof {
        if ta != tw {
            lemma_new_chain(t0, tw, ta);
        }
    }
    if undo.restore_qe {
        let ghost tb = master.transactions();
        if let Err(e) = restore_quad(master, qe) {
            failure = Some(e);
        }
        proof {
            lemma_new_chain(t0, tb, master.transactions());
            qa = tb.len() - t0.len();
            qb = master.transactions().len() - t0.len();
            if failure is None {
                assert(new_transactions(t0, master.transactions()).subrange(qa, qb)
                    =~= new_transactions(tb, master.transactions()));
            }
        }
    }
    let ghost tq = master.transactions();
    assert(failure is None && undo.restore_qe ==> 0 <= qa <= qb <= new_transactions(t0, tq).len()
        && quad_restored(new_transactions(t0, tq).subrange(qa, qb), qe));
    if undo.exit_4b {
        if let AddressPlan::EnterFourByte(f) = address {
            let ghost tb = master.transactions();
            if let Err(e) = exit_4byte_mode_with_features(master, f) {
                failure = Some(e);
            }
            proof {
                lemma_new_chain(t0, tb, master.transactions());
            }
        }
    }
    let ghost tc = master.transactions();
    if let Some((f, saved)) = undo.ear {
        let res = restore_ear(master, f, saved);
        proof {
            lemma_new_chain(t0, tc, master.transactions());
            if res is Ok {
                let ts = new_transactions(t0, master.transactions());
                assert(ts.subrange(ts.len() - 3, ts.len() as int) =~= new_transactions(tc, master.transactions()));
            }
        }
        if let Err(e) = res {
            failure = Some(e);
        }
    }
    proof {
        lemma_new_chain(t0, tw, master.transactions());
        lemma_new_chain(t0, tq, master.transactions());
        let k = tw.len() - t0.len();
        let ts = new_transactions(t0, master.transactions());
        assert(ts.take(k) =~= new_transactions(t0, tw));
        assert(ts[0] == new_transactions(t0, tw)[0]);
        assert(polled(ts.take(k), spec_max_polls(1_000, 60_000_000), true));
        if undo.restore_qe && failure is None {
            assert(ts.subrange(qa, qb) =~= new_transactions(t0, tq).subrange(qa, qb));
        }
    }
    match failure {
        Some(e) => Err(e),
        None => Ok(()),
    }
}

/// A cleanup that succeeded: it first polled the status until the chip was
/// ready; when the quad-enable bit had been set for the transfer, a
/// completed clear of it follows; and when the extended address register
/// was saved, the last transactions restored it and confirmed it.
pub open spec fn cleanup_done(ts: Seq<Transaction>, qe: QuadEnableMethod, restore_qe: bool, saved_ear: Option<(Features, u8)>) -> bool {
    &&& exists|k: int| 1 <= k <= ts.len() && #[trigger] polled(ts.take(k), spec_max_polls(1_000, 60_000_000), true)
    &&& restore_qe ==> exists|a: int, b: int| 0 <= a <= b <= ts.len() && #[trigger] quad_restored(ts.subrange(a, b), qe)
    &&& saved_ear matches Some((f, saved)) ==> ear_restored_last(ts, f, saved)
}

/// The last three transactions restored the extended address register to
/// `saved` and confirmed it.
pub open spec fn ear_restored_last(ts: Seq<Transaction>, f: Features, saved: u8) -> bool {
    &&& ts.len() >= 3
    &&& ear_restored(ts.subrange(ts.len() - 3, ts.len() as int), f, saved)
}

/// Clear the quad-enable bit again and confirm it is clear.
fn restore_quad<M: SpiMaster + ?Sized>(master: &mut M, qe: QuadEnableMethod) -> (r: Result<(), Error>)
    ensures
        extends(old(master).transactions(), final(master).transactions()),
        qe == QuadEnableMethod::NoQeBit ==> r == Err::<(), Error>(Error::ProgrammerError),
        r is Ok ==> quad_restored(new_transactions(old(master).transactions(), final(master).transactions()), qe),
{
    let ghost t0 = master.transactions();
    disable_quad_mode(master, qe)?;
    let ghost t1 = master.transactions();
    let res = is_quad_enabled(master, qe);
    proof {
        lemma_new_chain(t0, t1, master.transactions());
        if qe != QuadEnableMethod::NoQeBit {
            assert(new_transactions(t0, master.transactions()).drop_last() =~= new_transactions(t0, t1));
        }
    }
    if res? {
        return Err(Error::ProgrammerError);
    }
    Ok(())
}

/// A completed clear of the QE bit: the change, then a read of the QE
/// register that shows the bit clear.
pub open spec fn quad_restored(ts: Seq<Transaction>, qe: QuadEnableMethod) -> bool {
    &&& qe != QuadEnableMethod::NoQeBit
    &&& ts.len() >= 1
    &&& quad_mode_set(ts.drop_last(), qe, false)
    &&& is_register_read(ts.last(), qe_read_opcode(qe))
    &&& ts.last().reply[0] & qe_mask(qe) == 0
}

/// Write the saved extended address register back and confirm it.
fn restore_ear<M: SpiMaster + ?Sized>(master: &mut M, f: Features, saved: u8) -> (r: Result<(), Error>)
    ensures
        extends(old(master).transactions(), final(master).transactions()),
        r is Ok ==> ear_restored(new_transactions(old(master).transactions(), final(master).transactions()), f, saved),
{
    let ghost t0 = master.transactions();
    set_extended_address(master, f, saved)?;
    let ghost t1 = master.transactions();
    let res = read_ear(master, f);
    proof {
        lemma_new_chain(t0, t1, master.transactions());
        let ts = new_transactions(t0, master.transactions());
        if res is Ok {
            assert(ts[0] == new_transactions(t0, t1)[0]);
            assert(ts[1] == new_transactions(t0, t1)[1]);
            assert(ts[2] == master.transactions().last());
        }
    }
    if res? != saved {
        return Err(Error::ProgrammerError);
    }
    Ok(())
}

/// Program command selected independently from reads.
#[derive(Debug, Clone, Copy)]
pub struct WritePlan {
    /// Command opcode sent to the flash.
    pub opcode: u8,
    /// Addressing shared by every chunk of this operation.
    pub address: AddressPlan,
    /// Chip page boundary in bytes.
    pub page_size: usize,
    /// Minimum programming unit.
    pub granularity: WriteGranularity,
}

/// Erase command, layout and polling timing.
#[derive(Debug)]
pub struct ErasePlan {
    /// Command opcode sent to the flash.
    pub opcode: u8,
    /// Addressing shared by every chunk of this operation.
    pub address: AddressPlan,
    /// Validated chip erase layout.
    pub block: EraseBlock,
    /// Delay between status polls.
    pub poll_delay_us: u32,
    /// Erase completion timeout.
    pub timeout_us: u32,
}

/// The page-program opcode for an addressing plan: the native four-byte
/// one for native four-byte addressing, the ordinary one otherwise.
pub open spec fn spec_program_opcode(address: AddressPlan) -> u8 {
    if address == AddressPlan::NativeFourByte { opcodes::PP_4B } else { opcodes::PP }
}

/// The program plan tried for the addressing candidate `address`: none for
/// an absent candidate, or for AAI word writes beyond three-byte addressing.
pub open spec fn write_candidate(ctx: &FlashContext, max_write: usize, address: Option<AddressPlan>) -> Option<WritePlan> {
    match address {
        None => None,
        Some(a) => {
            let aai = ctx.chip.features.has(Features::AAI_WORD) && max_write >= 2;
            if aai && a != AddressPlan::ThreeByte {
                None
            } else {
                Some(WritePlan {
                    opcode: if aai { opcodes::AAI_WP } else { spec_program_opcode(a) },
                    address: a,
                    page_size: ctx.chip.page_size as usize,
                    granularity: ctx.chip.write_granularity,
                })
            }
        },
    }
}

/// The program addressing candidates, in the order they are tried.
pub open spec fn write_candidates<M: SpiMaster + ?Sized>(master: &M, ctx: &FlashContext) -> Seq<Option<AddressPlan>> {
    spec_addresses(ctx.address_mode, ctx.chip.features, master.spec_features(), ctx.chip.features.has(Features::FOUR_BYTE_PROGRAM))
}

/// The candidate plan is refused: absent, its opcode refused by the
/// programmer, or turned down by `accepts`.
pub open spec fn write_refused<M: SpiMaster + ?Sized, F: Fn(&WritePlan) -> bool>(master: &M, accepts: F, plan: Option<WritePlan>) -> bool {
    match plan {
        None => true,
        Some(p) => !master.spec_probe_opcode(p.opcode) || accepts.ensures((&p,), false),
    }
}

/// Select program addressing and backend representation without hardware I/O.
///
/// Tries the addressing strategies in order and takes the first whose
/// opcode the programmer accepts and for which `accepts` holds. A chip
/// programmed with AAI word writes uses them on three-byte addressing only,
/// when the programmer can send two bytes at a time.
pub fn select_write_plan<M: SpiMaster + ?Sized, F: Fn(&WritePlan) -> bool>(
    master: &M,
    ctx: &FlashContext,
    accepts: F,
) -> (r: Result<WritePlan, Error>)
    requires
        forall|p: &WritePlan| #[trigger] accepts.requires((p,)),
    ensures
        ctx.chip.page_size == 0 ==> r == Err::<WritePlan, Error>(Error::ChipNotSupported),
        r is Err ==> r == Err::<WritePlan, Error>(Error::ChipNotSupported),
        r matches Ok(plan) ==> {
            &&& accepts.ensures((&plan,), true)
            &&& plan.page_size == ctx.chip.page_size
            &&& plan.granularity == ctx.chip.write_granularity
            &&& (ctx.address_mode == AddressMode::ThreeByte ==> plan.address == AddressPlan::ThreeByte)
            &&& (plan.opcode == opcodes::AAI_WP && ctx.chip.features.has(Features::AAI_WORD)
                && plan.address == AddressPlan::ThreeByte
                || plan.opcode == spec_program_opcode(plan.address))
            &&& (!ctx.chip.features.has(Features::AAI_WORD) ==> plan.opcode == spec_program_opcode(plan.address))
        },
        r is Err ==> ctx.chip.page_size == 0 || master.spec_max_write_len() == 0 || forall|i: int| 0 <= i < 3
            ==> #[trigger] write_refused(master, accepts, write_candidate(ctx, master.spec_max_write_len(),
                write_candidates(master, ctx)[i])),
        r matches Ok(plan) ==> exists|i: int| 0 <= i < 3 && {
            &&& #[trigger] write_candidate(ctx, master.spec_max_write_len(), write_candidates(master, ctx)[i]) == Some(plan)
            &&& master.spec_probe_opcode(plan.opcode)
            &&& forall|j: int| 0 <= j < i ==> #[trigger] write_refused(master, accepts, write_candidate(ctx,
                master.spec_max_write_len(), write_candidates(master, ctx)[j]))
        },
{
    if ctx.page_size() == 0 || master.max_write_len() == 0 {
        return Err(Error::ChipNotSupported);
    }
    let candidates = addresses(ctx, master.features(), ctx.chip.features.supports_4ba_program());
    let mut i: usize = 0;
    while i < 3
        invariant
            i <= 3,
            candidates@.len() == 3,
            ctx.chip.page_size > 0,
            ctx.address_mode == AddressMode::ThreeByte ==> candidates@ == seq![Some(AddressPlan::ThreeByte), None::<AddressPlan>, None],
            forall|p: &WritePlan| #[trigger] accepts.requires((p,)),
            candidates@ == write_candidates(master, ctx),
            master.spec_max_write_len() > 0,
            forall|j: int| 0 <= j < i ==> #[trigger] write_refused(master, accepts, write_candidate(ctx,
                master.spec_max_write_len(), write_candidates(master, ctx)[j])),
        decreases 3 - i,
    {
        assert(write_candidates(master, ctx)[i as int] == candidates@[i as int]);
        if let Some(address) = candidates[i] {
            let aai = ctx.chip.features.contains(Features::AAI_WORD) && master.max_write_len() >= 2;
            if !(aai && address != AddressPlan::ThreeByte) {
                let opcode = if aai {
                    opcodes::AAI_WP
                } else if address == AddressPlan::NativeFourByte {
                    opcodes::PP_4B
                } else {
                    opcodes::PP
                };
                let plan = WritePlan {
                    opcode,
                    address,
                    page_size: ctx.page_size(),
                    granularity: ctx.chip.write_granularity,
                };
                assert(write_candidate(ctx, master.spec_max_write_len(), candidates@[i as int]) == Some(plan));
                if master.probe_opcode(opcode) && accepts(&plan) {
                    return Ok(plan);
                }
            }
        }
        i += 1;
    }
    Err(Error::ChipNotSupported)
}

/// Status polling delay and timeout for erasing blocks of at most
/// `max_block` bytes: longer for larger blocks.
pub open spec fn spec_erase_timing(max_block: u32) -> (u32, u32) {
    if max_block <= 4096 {
        (10_000, 1_000_000)
    } else if max_block <= 65536 {
        (100_000, 4_000_000)
    } else {
        (500_000, 60_000_000)
    }
}

/// `eb` is the erase block that `select_erase_block` picks for the range.
pub open spec fn is_selected_erase_block(blocks: Seq<EraseBlock>, addr: u32, len: u32, eb: EraseBlock) -> bool {
    exists|i: int| 0 <= i < blocks.len() && {
        &&& #[trigger] erase_block_fits(blocks[i], addr, len)
        &&& same_erase_block(eb, blocks[i])
        &&& forall|j: int| 0 <= j < blocks.len() && #[trigger] erase_block_fits(blocks[j], addr, len)
            ==> blocks[j].spec_max_block_size() <= blocks[i].spec_max_block_size()
        &&& forall|j: int| i < j < blocks.len() && #[trigger] erase_block_fits(blocks[j], addr, len)
            ==> blocks[j].spec_max_block_size() < blocks[i].spec_max_block_size()
    }
}

/// The erase opcode of `block` for addressing `address`.
pub open spec fn erase_opcode(block: EraseBlock, address: AddressPlan) -> u8 {
    if address == AddressPlan::NativeFourByte && block.opcode_4b is Some {
        block.opcode_4b->0
    } else {
        block.opcode
    }
}

/// The erase addressing candidates for `block`, in the order they are tried.
pub open spec fn erase_candidates<M: SpiMaster + ?Sized>(master: &M, ctx: &FlashContext, block: EraseBlock) -> Seq<Option<AddressPlan>> {
    spec_addresses(ctx.address_mode, ctx.chip.features, master.spec_features(), block.opcode_4b is Some)
}

/// The erase candidate is refused: absent, or its opcode refused by the
/// programmer.
pub open spec fn erase_refused<M: SpiMaster + ?Sized>(master: &M, block: EraseBlock, address: Option<AddressPlan>) -> bool {
    match address {
        None => true,
        Some(a) => !master.spec_probe_opcode(erase_opcode(block, a)),
    }
}

/// Select a range-aligned erase command without hardware I/O.
///
/// The erase block is the largest that fits the range; the addressing is
/// the first strategy whose opcode the programmer accepts.
pub fn select_erase_plan<M: SpiMaster + ?Sized>(master: &M, ctx: &FlashContext, addr: u32, len: u32) -> (r: Result<ErasePlan, Error>)
    ensures
        (forall|i: int| 0 <= i < ctx.chip.erase_blocks@.len() ==> !#[trigger] erase_block_fits(ctx.chip.erase_blocks@[i], addr, len))
            ==> r == Err::<ErasePlan, Error>(Error::InvalidAlignment),
        r is Err ==> r == Err::<ErasePlan, Error>(Error::InvalidAlignment) || r == Err::<ErasePlan, Error>(Error::ChipNotSupported),
        r == Err::<ErasePlan, Error>(Error::InvalidAlignment) ==> forall|i: int| 0 <= i < ctx.chip.erase_blocks@.len()
            ==> !#[trigger] erase_block_fits(ctx.chip.erase_blocks@[i], addr, len),
        r == Err::<ErasePlan, Error>(Error::ChipNotSupported) ==> exists|eb: EraseBlock|
            #[trigger] is_selected_erase_block(ctx.chip.erase_blocks@, addr, len, eb)
            && forall|i: int| 0 <= i < 3 ==> #[trigger] erase_refused(master, eb, erase_candidates(master, ctx, eb)[i]),
        r matches Ok(plan) ==> exists|i: int| 0 <= i < 3 && {
            &&& #[trigger] erase_candidates(master, ctx, plan.block)[i] == Some(plan.address)
            &&& master.spec_probe_opcode(plan.opcode)
            &&& forall|j: int| 0 <= j < i ==> #[trigger] erase_refused(master, plan.block,
                erase_candidates(master, ctx, plan.block)[j])
        },
        r matches Ok(plan) ==> {
            &&& is_selected_erase_block(ctx.chip.erase_blocks@, addr, len, plan.block)
            &&& plan.opcode == (if plan.address == AddressPlan::NativeFourByte && plan.block.opcode_4b is Some {
                plan.block.opcode_4b->0
            } else {
                plan.block.opcode
            })
            &&& (plan.poll_delay_us, plan.timeout_us) == spec_erase_timing(plan.block.spec_max_block_size())
            &&& (ctx.address_mode == AddressMode::ThreeByte ==> plan.address == AddressPlan::ThreeByte)
        },
{
    let block = match select_erase_block(ctx.chip.erase_blocks(), addr, len) {
        Some(b) => b,
        None => {
            return Err(Error::InvalidAlignment);
        },
    };
    assert(is_selected_erase_block(ctx.chip.erase_blocks@, addr, len, block));
    let candidates = addresses(ctx, master.features(), block.opcode_4b.is_some());
    let mut i: usize = 0;
    while i < 3
        invariant
            i <= 3,
            candidates@.len() == 3,
            is_selected_erase_block(ctx.chip.erase_blocks@, addr, len, block),
            ctx.address_mode == AddressMode::ThreeByte ==> candidates@ == seq![Some(AddressPlan::ThreeByte), None::<AddressPlan>, None],
            candidates@ == erase_candidates(master, ctx, block),
            forall|j: int| 0 <= j < i ==> #[trigger] erase_refused(master, block, erase_candidates(master, ctx, block)[j]),
        decreases 3 - i,
    {
        assert(erase_candidates(master, ctx, block)[i as int] == candidates@[i as int]);
        if let Some(address) = candidates[i] {
            let opcode = block.opcode_for_address_width(address == AddressPlan::NativeFourByte);
            if master.probe_opcode(opcode) {
                let max = block.max_block_size();
                let (poll_delay_us, timeout_us) = if max <= 4096 {
                    (10_000u32, 1_000_000u32)
                } else if max <= 65536 {
                    (100_000u32, 4_000_000u32)
                } else {
                    (500_000u32, 60_000_000u32)
                };
                return Ok(ErasePlan { opcode, address, block, poll_delay_us, timeout_us });
            }
        }
        i += 1;
    }
    assert(is_selected_erase_block(ctx.chip.erase_blocks@, addr, len, block));
    Err(Error::ChipNotSupported)
}

/// Length of the next program chunk at `address` with `remaining` bytes
/// left: one byte for byte-granular chips, else as much as fits before the
/// page boundary, the programmer's transfer limit and the 16 MiB boundary.
pub open spec fn spec_write_chunk_len(
    granularity: WriteGranularity,
    page_size: int,
    max_write: int,
    address: u32,
    remaining: int,
) -> int {
    if granularity == WriteGranularity::Byte {
        1
    } else {
        let to_page_end = page_size - address as int % page_size;
        let to_bank_end = 0x0100_0000 - address as int % 0x0100_0000;
        let a = if remaining < to_page_end { remaining } else { to_page_end };
        let b = if a < max_write { a } else { max_write };
        if b < to_bank_end { b } else { to_bank_end }
    }
}

/// Length of the next program chunk.
pub fn write_chunk_len(
    granularity: WriteGranularity,
    page_size: usize,
    max_write: usize,
    address: u32,
    remaining: usize,
) -> (r: usize)
    requires
        granularity != WriteGranularity::Byte ==> page_size > 0,
    ensures
        r == spec_write_chunk_len(granularity, page_size as int, max_write as int, address, remaining as int),
{
    if granularity == WriteGranularity::Byte {
        return 1;
    }
    let to_page_end = page_size - (address as usize) % page_size;
    let low = address & 0x00FF_FFFF;
    assert(low == address as int % 0x0100_0000) by (bit_vector)
        requires
            low == address & 0x00FF_FFFF,
    ;
    let to_bank_end = (0x0100_0000u32 - low) as usize;
    let a = if remaining < to_page_end { remaining } else { to_page_end };
    let b = if a < max_write { a } else { max_write };
    if b < to_bank_end { b } else { to_bank_end }
}

/// A chunk never crosses a page or 16 MiB boundary, never exceeds the
/// programmer's limit or what remains, and is not empty when neither is 0.
pub proof fn lemma_write_chunk_bounds(
    granularity: WriteGranularity,
    page_size: int,
    max_write: int,
    address: u32,
    remaining: int,
)
    requires
        granularity != WriteGranularity::Byte,
        page_size > 0,
        max_write >= 0,
        remaining >= 0,
    ensures
        ({
            let n = spec_write_chunk_len(granularity, page_size, max_write, address, remaining);
            &&& n <= remaining
            &&& n <= max_write
            &&& address as int % page_size + n <= page_size
            &&& address as int % 0x0100_0000 + n <= 0x0100_0000
            &&& (remaining > 0 && max_write > 0 ==> n > 0)
        }),
{
    assert(0 <= address as int % page_size < page_size) by (nonlinear_arith)
        requires
            page_size > 0,
    ;
}

/// Execute all program chunks under a caller-owned scope.
///
/// An AAI word plan programs the whole buffer with AAI; otherwise the data
/// goes out in chunks of `write_chunk_len`. A chunk of length 0 (a
/// programmer with no transfer room) fails with a programmer error.
pub fn write_spi<M: SpiMaster + ?Sized>(master: &mut M, plan: &WritePlan, addr: u32, data: &[u8]) -> (r: Result<(), Error>)
    requires
        plan.granularity != WriteGranularity::Byte ==> plan.page_size > 0,
        addr + data@.len() <= 0x1_0000_0000,
        plan.opcode == opcodes::AAI_WP ==> addr + data@.len() <= u32::MAX,
    ensures
        plan.opcode != opcodes::AAI_WP && data@.len() == 0 ==> r == Ok::<(), Error>(()),
        plan.opcode == opcodes::AAI_WP && r is Ok ==> aai_writes(
            new_transactions(old(master).transactions(), final(master).transactions()), addr)
            && written(new_transactions(old(master).transactions(), final(master).transactions())) == data@,
        extends(old(master).transactions(), final(master).transactions()),
        plan.opcode != opcodes::AAI_WP && r is Ok ==> chunked_program(
            new_transactions(old(master).transactions(), final(master).transactions()), plan.opcode, addr,
            plan.address.spec_command_addressing())
            && addressed_data(new_transactions(old(master).transactions(), final(master).transactions())) == data@,
{
    if plan.opcode == opcodes::AAI_WP {
        return aai_word_program(master, addr, data);
    }
    let ghost t0 = master.transactions();
    let n = data.len();
    let mut offset: usize = 0;
    assert(new_transactions(t0, t0) =~= Seq::<Transaction>::empty());
    assert(t0.subrange(0, t0.len() as int) =~= t0);
    assert(addressed_data(Seq::<Transaction>::empty()) =~= data@.take(0));
    proof {
        lemma_program_none(plan.opcode, addr, plan.address.spec_command_addressing());
    }
    while offset < n
        invariant
            n == data@.len(),
            offset <= n,
            addr + n <= 0x1_0000_0000,
            plan.granularity != WriteGranularity::Byte ==> plan.page_size > 0,
            t0 == old(master).transactions(),
            plan.opcode != opcodes::AAI_WP,
            extends(t0, master.transactions()),
            chunked_program(new_transactions(t0, master.transactions()), plan.opcode, addr,
                plan.address.spec_command_addressing()),
            addressed_data(new_transactions(t0, master.transactions())) == data@.take(offset as int),
        decreases n - offset,
    {
        let ghost ta = master.transactions();
        let address = addr + offset as u32;
        let max_write = master.max_write_len();
        let len = write_chunk_len(plan.granularity, plan.page_size, max_write, address, n - offset);
        proof {
            if plan.granularity != WriteGranularity::Byte {
                lemma_write_chunk_bounds(plan.granularity, plan.page_size as int, max_write as int, address, (n - offset) as int);
            }
        }
        if len == 0 {
            return Err(Error::ProgrammerError);
        }
        let chunk = vstd::slice::slice_subrange(data, offset, offset + len);
        let res = program_page_with_addressing(master, plan.opcode, address, chunk, plan.address.command_addressing());
        proof {
            lemma_new_chain(t0, ta, master.transactions());
            if res is Ok {
                lemma_program_step(new_transactions(t0, ta), new_transactions(ta, master.transactions()), plan.opcode,
                    addr, plan.address.spec_command_addressing(), address, chunk@,
                    crate::protocol::spi25::page_program_polls());
                assert(data@.take(offset as int) + chunk@ =~= data@.take(offset + len));
            }
        }
        res?;
        offset += len;
    }
    assert(data@.take(n as int) =~= data@);
    Ok(())
}

/// The block sizes of a layout are positive wherever they cover an offset.
proof fn lemma_size_at_offset_positive(rs: Seq<EraseRegion>, offset: int)
    requires
        offset >= 0,
    ensures
        size_at_offset(rs, offset) matches Some(sz) ==> sz > 0,
    decreases rs.len(),
{
    if rs.len() > 0 {
        if offset < rs[0].spec_total_size() {
            let size = rs[0].size as int;
            let count = rs[0].count as int;
            assert(size > 0) by (nonlinear_arith)
                requires
                    size * count > offset,
                    offset >= 0,
                    size >= 0,
                    count >= 0,
            ;
        } else {
            lemma_size_at_offset_positive(rs.drop_first(), offset - rs[0].spec_total_size());
        }
    }
}

/// The size of the block erased at `offset` of the layout: the block
/// there, or the largest block beyond the layout.
pub open spec fn erase_step(block: EraseBlock, offset: int) -> int {
    match size_at_offset(block.regions@, offset) {
        Some(sz) => sz as int,
        None => block.spec_max_block_size() as int,
    }
}

/// The offset reached by the erases (the transactions sent with an
/// address) among `ts`, each covering the block at the offset reached
/// before it.
pub open spec fn erased_to(ts: Seq<Transaction>, block: EraseBlock) -> int
    decreases ts.len(),
{
    if ts.len() == 0 {
        0
    } else {
        let before = erased_to(ts.drop_last(), block);
        if ts.last().command.address is Some {
            before + erase_step(block, before)
        } else {
            before
        }
    }
}

/// Block erases one after another: every transaction sent with an address
/// erases with `opcode` at `addr` plus the offset reached before it, which
/// is below `len`, right after a WREN.
#[verifier::opaque]
pub open spec fn chunked_erase(
    ts: Seq<Transaction>,
    opcode: u8,
    addr: u32,
    addressing: CommandAddressing,
    block: EraseBlock,
    len: u32,
) -> bool {
    forall|j: int| #![trigger ts[j]] 0 <= j < ts.len() && ts[j].command.address is Some ==> {
        &&& erased_to(ts.take(j), block) < len
        &&& is_plain_request(ts[j].command, opcode, Some((addr + erased_to(ts.take(j), block)) as u32),
            addressing.spec_address_width(), seq![], 0)
        &&& j >= 1
        &&& is_simple(ts[j - 1].command, opcodes::WREN)
    }
}

/// Transactions without an address reach no further.
proof fn lemma_erased_none(ts: Seq<Transaction>, c: Seq<Transaction>, block: EraseBlock)
    requires
        forall|j: int| 0 <= j < c.len() ==> (#[trigger] c[j]).command.address is None,
    ensures
        erased_to(ts + c, block) == erased_to(ts, block),
    decreases c.len(),
{
    if c.len() == 0 {
        assert(ts + c =~= ts);
    } else {
        assert((ts + c).drop_last() =~= ts + c.drop_last());
        lemma_erased_none(ts, c.drop_last(), block);
    }
}

/// One more completed block erase extends a run of block erases.
#[verifier::spinoff_prover]
#[verifier::rlimit(60)]
proof fn lemma_erase_step(
    ts: Seq<Transaction>,
    c: Seq<Transaction>,
    opcode: u8,
    addr: u32,
    addressing: CommandAddressing,
    block: EraseBlock,
    len: u32,
    max: u32,
)
    requires
        chunked_erase(ts, opcode, addr, addressing, block, len),
        erased_to(ts, block) < len,
        addr + erased_to(ts, block) < 0x1_0000_0000,
        addressed_op(c, addressing, (addr + erased_to(ts, block)) as u32, opcode, seq![], max),
    ensures
        chunked_erase(ts + c, opcode, addr, addressing, block, len),
        erased_to(ts + c, block) == erased_to(ts, block) + erase_step(block, erased_to(ts, block)),
{
    reveal(chunked_erase);
    let k: int = if addressing is ExtendedAddressRegister { 2 } else { 0 };
    let e = erased_to(ts, block);
    let t2 = ts + c;
    assert forall|j: int| 0 <= j < c.take(k + 1).len() implies (#[trigger] c.take(k + 1)[j]).command.address is None by {
        assert(c.take(k + 1)[j] == c[j]);
    }
    lemma_erased_none(ts, c.take(k + 1), block);
    assert(ts + c.take(k + 1) =~= t2.take(ts.len() + k + 1));
    assert((ts + c.take(k + 2)).drop_last() =~= ts + c.take(k + 1));
    assert((ts + c.take(k + 2)).last() == c[k + 1]);
    assert forall|j: int| 0 <= j < c.skip(k + 2).len() implies (#[trigger] c.skip(k + 2)[j]).command.address is None by {
        assert(is_status_poll(c.skip(k + 2)[j]));
    }
    lemma_erased_none(ts + c.take(k + 2), c.skip(k + 2), block);
    assert(ts + c.take(k + 2) + c.skip(k + 2) =~= t2);
    assert forall|j: int| #![trigger t2[j]] 0 <= j < t2.len() && t2[j].command.address is Some implies {
        &&& erased_to(t2.take(j), block) < len
        &&& is_plain_request(t2[j].command, opcode, Some((addr + erased_to(t2.take(j), block)) as u32),
            addressing.spec_address_width(), seq![], 0)
        &&& j >= 1
        &&& is_simple(t2[j - 1].command, opcodes::WREN)
    } by {
        if j < ts.len() {
            assert(t2[j] == ts[j]);
            assert(t2.take(j) =~= ts.take(j));
            assert(t2[j - 1] == ts[j - 1]);
        } else {
            let i = j - ts.len();
            assert(t2[j] == c[i]);
            if i < k + 1 {
                assert(c[i] == c.take(k + 1)[i]);
            } else if i > k + 1 {
                assert(is_status_poll(c.skip(k + 2)[i - k - 2]));
            }
            assert(i == k + 1);
            assert(t2[j - 1] == c[k]);
        }
    }
}

/// Execute all erase blocks under a caller-owned scope.
///
/// Erases block after block from `addr`, each as large as the block layout
/// gives at its offset (the largest block beyond the layout), until `len`
/// bytes are covered.
pub fn erase_spi<M: SpiMaster + ?Sized>(master: &mut M, plan: &ErasePlan, addr: u32, len: u32) -> (r: Result<(), Error>)
    requires
        plan.block.wf(),
        plan.block.spec_max_block_size() > 0,
        addr + len <= 0x1_0000_0000,
    ensures
        len == 0 ==> r == Ok::<(), Error>(()),
        extends(old(master).transactions(), final(master).transactions()),
        r is Ok ==> chunked_erase(new_transactions(old(master).transactions(), final(master).transactions()),
            plan.opcode, addr, plan.address.spec_command_addressing(), plan.block, len)
            && erased_to(new_transactions(old(master).transactions(), final(master).transactions()), plan.block) >= len,
{
    let ghost t0 = master.transactions();
    let mut offset: u32 = 0;
    proof {
        assert(t0.subrange(0, t0.len() as int) =~= t0);
        assert(new_transactions(t0, t0) =~= Seq::<Transaction>::empty());
        reveal(chunked_erase);
    }
    while offset < len
        invariant
            plan.block.wf(),
            plan.block.spec_max_block_size() > 0,
            addr + len <= 0x1_0000_0000,
            t0 == old(master).transactions(),
            extends(t0, master.transactions()),
            offset == erased_to(new_transactions(t0, master.transactions()), plan.block),
            chunked_erase(new_transactions(t0, master.transactions()), plan.opcode, addr,
                plan.address.spec_command_addressing(), plan.block, len),
        decreases (if offset <= len { len - offset } else { 0 }),
    {
        let ghost ta = master.transactions();
        let res = erase_block(
            master,
            plan.opcode,
            addr + offset,
            plan.address.command_addressing(),
            plan.poll_delay_us,
            plan.timeout_us,
        );
        let step = match plan.block.block_size_at_offset(offset) {
            Some(sz) => sz,
            None => plan.block.max_block_size(),
        };
        proof {
            lemma_new_chain(t0, ta, master.transactions());
            if res is Ok {
                lemma_erase_step(new_transactions(t0, ta), new_transactions(ta, master.transactions()), plan.opcode,
                    addr, plan.address.spec_command_addressing(), plan.block, len,
                    crate::protocol::spi25::spec_max_polls(plan.poll_delay_us, plan.timeout_us));
                assert(step == erase_step(plan.block, offset as int));
            }
        }
        res?;
        proof {
            lemma_size_at_offset_positive(plan.block.regions@, offset as int);
        }
        assert(step > 0);
        match offset.checked_add(step) {
            Some(next) => {
                offset = next;
            },
            None => {
                return Ok(());
            },
        }
    }
    Ok(())
}

} // verus!
