//! Chip probing with detailed results: JEDEC ID, SFDP and database lookup.
use vstd::prelude::*;
use crate::chip::database::ChipDatabase;
use crate::chip::types::{same_chip, FlashChip};
use crate::error::Error;
use crate::programmer::traits::SpiMaster;
use crate::protocol::spi25;
use crate::protocol::spi25::{extends, is_plain_request, lemma_new_chain, new_transactions, spec_jedec_id_from_bytes};
use crate::spi::address::AddressWidth;
use crate::spi::opcodes;
use crate::sfdp::parser::{any_critical, compare_with_chip, has_critical, probe, spec_compare, to_flash_chip, SfdpMismatch};
use crate::sfdp::types::SfdpInfo;

verus! {

/// Result of a comprehensive chip probe
///
/// This structure contains all information gathered during probing,
/// including SFDP data and any mismatches with the database.
#[derive(Debug)]
pub struct ProbeResult {
    /// JEDEC manufacturer ID
    pub jedec_manufacturer: u8,
    /// JEDEC device ID
    pub jedec_device: u16,
    /// The chip to use for operations
    pub chip: FlashChip,
    /// Whether the chip was found in the database
    pub from_database: bool,
    /// SFDP information (if available)
    pub sfdp: Option<SfdpInfo>,
    /// Mismatches between SFDP and database (if both available)
    pub mismatches: Vec<SfdpMismatch>,
}

impl ProbeResult {
    /// Check if there are any mismatches between SFDP and database
    pub fn has_mismatches(&self) -> (r: bool)
        ensures
            r == (self.mismatches@.len() > 0),
    {
        self.mismatches.len() > 0
    }

    /// Check if there are critical mismatches (size/page size)
    pub fn has_critical_mismatches(&self) -> (r: bool)
        ensures
            r == any_critical(self.mismatches@),
    {
        has_critical(&self.mismatches)
    }
}

/// The database holds a chip with the JEDEC ID.
pub open spec fn in_database(db: ChipDatabase, manufacturer: u8, device: u16) -> bool {
    exists|i: int| 0 <= i < db.spec_chips().len() && #[trigger] db.spec_chips()[i].jedec_manufacturer == manufacturer
        && db.spec_chips()[i].jedec_device == device
}

/// The database holds a chip with the JEDEC ID of the three RDID bytes.
pub open spec fn id_in_database(db: ChipDatabase, reply: Seq<u8>) -> bool {
    in_database(db, spec_jedec_id_from_bytes(reply[0], reply[1], reply[2]).0,
        spec_jedec_id_from_bytes(reply[0], reply[1], reply[2]).1)
}

/// `chip` is the first chip of the database with the JEDEC ID.
pub open spec fn first_in_database(db: ChipDatabase, manufacturer: u8, device: u16, chip: FlashChip) -> bool {
    exists|i: int| 0 <= i < db.spec_chips().len() && chip == #[trigger] db.spec_chips()[i]
        && chip.jedec_manufacturer == manufacturer && chip.jedec_device == device
        && forall|j: int| 0 <= j < i ==> !(#[trigger] db.spec_chips()[j].jedec_manufacturer == manufacturer
            && db.spec_chips()[j].jedec_device == device)
}

/// Probe for a flash chip with detailed results
///
/// 1. Reads JEDEC ID
/// 2. Probes SFDP (a failed probe leaves it out)
/// 3. Looks up in database
/// 4. Compares SFDP with database (if both available)
///
/// A chip found in the database is used as it is; otherwise one is built
/// from SFDP; with neither the chip is not found.
pub fn probe_detailed<M: SpiMaster + ?Sized>(master: &mut M, db: &ChipDatabase) -> (r: Result<ProbeResult, Error>)
    ensures
        r matches Ok(res) ==> {
            &&& res.from_database == in_database(*db, res.jedec_manufacturer, res.jedec_device)
            &&& res.from_database ==> exists|c: FlashChip| first_in_database(*db, res.jedec_manufacturer, res.jedec_device, c)
                && same_chip(res.chip, c) && match res.sfdp {
                    Some(info) => res.mismatches@ == spec_compare(info.basic_params, c),
                    None => res.mismatches@.len() == 0,
                }
            &&& !res.from_database ==> res.sfdp is Some && res.mismatches@.len() == 0
                && res.chip.vendor@ == "SFDP"@ && res.chip.jedec_manufacturer == res.jedec_manufacturer
                && res.chip.jedec_device == res.jedec_device
                && res.chip.total_size == res.sfdp->0.basic_params.density_bytes as u32
        },
        extends(old(master).transactions(), final(master).transactions()),
        new_transactions(old(master).transactions(), final(master).transactions()).len() >= 1,
        is_plain_request(new_transactions(old(master).transactions(), final(master).transactions())[0].command,
            opcodes::RDID, None, AddressWidth::NoAddress, seq![], 3),
        new_transactions(old(master).transactions(), final(master).transactions())[0].reply.len() == 3,
        r matches Ok(res) ==> (res.jedec_manufacturer, res.jedec_device) == spec_jedec_id_from_bytes(
            new_transactions(old(master).transactions(), final(master).transactions())[0].reply[0], new_transactions(old(master).transactions(), final(master).transactions())[0].reply[1], new_transactions(old(master).transactions(), final(master).transactions())[0].reply[2]),
        r matches Err(e) ==> new_transactions(old(master).transactions(), final(master).transactions())[0].result
            == Err::<(), Error>(e) || (e == Error::ChipNotFound && !id_in_database(*db,
            new_transactions(old(master).transactions(), final(master).transactions())[0].reply)),
        new_transactions(old(master).transactions(), final(master).transactions())[0].result is Ok && id_in_database(*db,
            new_transactions(old(master).transactions(), final(master).transactions())[0].reply) ==> r is Ok,
{
    let ghost t0 = master.transactions();
    let rid = spi25::read_jedec_id(master);
    proof {
        assert(new_transactions(t0, master.transactions())[0] == master.transactions().last());
        if rid is Err {
            let e = rid->Err_0;
            let j = choose|j: int| t0.len() <= j < master.transactions().len()
                && #[trigger] master.transactions()[j].result == Err::<(), Error>(e);
            assert(j == master.transactions().len() - 1);
        }
    }
    let (jedec_manufacturer, jedec_device) = rid?;
    let ghost t1 = master.transactions();
    let sfdp = match probe(master) {
        Ok(info) => Some(info),
        Err(_) => None,
    };
    proof {
        lemma_new_chain(t0, t1, master.transactions());
        assert(new_transactions(t0, master.transactions())[0] == t1.last());
    }
    let db_chip = db.find_by_jedec_id(jedec_manufacturer, jedec_device);
    match db_chip {
        Some(c) => {
            let chip = c.duplicate();
            let mismatches = match &sfdp {
                Some(info) => compare_with_chip(info, c),
                None => Vec::new(),
            };
            Ok(ProbeResult { jedec_manufacturer, jedec_device, chip, from_database: true, sfdp, mismatches })
        },
        None => {
            match sfdp {
                Some(info) => {
                    let chip = to_flash_chip(&info, jedec_manufacturer, jedec_device);
                    Ok(ProbeResult {
                        jedec_manufacturer,
                        jedec_device,
                        chip,
                        from_database: false,
                        sfdp: Some(info),
                        mismatches: Vec::new(),
                    })
                },
                None => Err(Error::ChipNotFound),
            }
        },
    }
}

} // verus!
