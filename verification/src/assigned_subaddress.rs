//! Subaddresses assigned to an account, and the repair of orphaned outputs
//! when a new one is assigned.
//!
//! An output is orphaned while the wallet knows that it belongs to the
//! account and not to which subaddress. When a subaddress is assigned, every
//! orphaned output is held against it: the subaddress spend key recovered
//! from the output's keys either is that of the new subaddress or is not.

use vstd::prelude::*;
use crate::error::WalletDbError;
use crate::txo::{bytes_equal, Txo, TxoView};

verus! {

/// What the caller has found out about one orphaned output for a subaddress.
#[derive(Debug, PartialEq, Eq)]
pub struct OrphanSighting {
    /// The subaddress spend public key recovered from the target key and the
    /// public key of the output with the account's view private key.
    pub recovered_spend_public_key: Vec<u8>,
    /// The key image of the output under the subaddress. An account that can
    /// only view has none.
    pub key_image: Option<Vec<u8>>,
    /// The block in which the ledger has seen the key image spent, if it has.
    pub spent_block_index: Option<u64>,
}

/// What an [`OrphanSighting`] holds.
pub struct OrphanSightingView {
    pub recovered_spend_public_key: Seq<u8>,
    pub key_image: Option<Seq<u8>>,
    pub spent_block_index: Option<u64>,
}

impl View for OrphanSighting {
    type V = OrphanSightingView;

    open spec fn view(&self) -> OrphanSightingView {
        OrphanSightingView {
            recovered_spend_public_key: self.recovered_spend_public_key@,
            key_image: match self.key_image {
                Some(k) => Some(k@),
                None => None,
            },
            spent_block_index: self.spent_block_index,
        }
    }
}

impl DeepView for OrphanSighting {
    type V = OrphanSightingView;

    open spec fn deep_view(&self) -> OrphanSightingView {
        self@
    }
}

/// Whether the output that was sighted belongs to the subaddress with the
/// spend public key `spend_public_key`.
pub open spec fn is_owned_by(sighting: OrphanSightingView, spend_public_key: Seq<u8>) -> bool {
    sighting.recovered_spend_public_key == spend_public_key
}

/// The record of an output after it has been held against the subaddress
/// `subaddress_index`.
///
/// A record that has a subaddress already, that is marked spent, or that does
/// not belong to this subaddress, stays as it is. An unspent orphaned record
/// that belongs to it gets the subaddress; where the key image is known it
/// gets that too, and is marked spent where the ledger has seen the key image
/// spent.
pub open spec fn repaired(
    txo: TxoView,
    sighting: OrphanSightingView,
    subaddress_index: u64,
    spend_public_key: Seq<u8>,
) -> TxoView {
    if txo.subaddress_index is Some || txo.spent_block_index is Some || !is_owned_by(
        sighting,
        spend_public_key,
    ) {
        txo
    } else {
        match sighting.key_image {
            None => TxoView { subaddress_index: Some(subaddress_index), ..txo },
            Some(key_image) => TxoView {
                subaddress_index: Some(subaddress_index),
                key_image: Some(key_image),
                spent_block_index: sighting.spent_block_index,
                ..txo
            },
        }
    }
}

/// Repairing is idempotent: a second pass over a repaired record with the
/// same sighting and the same subaddress changes nothing, and a record that
/// has a subaddress or is marked spent is never changed.
pub proof fn lemma_repair_idempotent(
    txo: TxoView,
    sighting: OrphanSightingView,
    subaddress_index: u64,
    spend_public_key: Seq<u8>,
)
    ensures
        repaired(
            repaired(txo, sighting, subaddress_index, spend_public_key),
            sighting,
            subaddress_index,
            spend_public_key,
        ) == repaired(txo, sighting, subaddress_index, spend_public_key),
        txo.subaddress_index is Some || txo.spent_block_index is Some ==> repaired(
            txo,
            sighting,
            subaddress_index,
            spend_public_key,
        ) == txo,
{
}

/// Whether the output that was sighted belongs to the subaddress with the
/// spend public key `spend_public_key`.
pub fn owns_output(sighting: &OrphanSighting, spend_public_key: &Vec<u8>) -> (owned: bool)
    ensures
        owned == is_owned_by(sighting@, spend_public_key@),
{
    bytes_equal(&sighting.recovered_spend_public_key, spend_public_key)
}

/// Holds one record against the subaddress and repairs it.
pub fn repair_orphaned_txo(
    txo: &Txo,
    sighting: &OrphanSighting,
    subaddress_index: u64,
    spend_public_key: &Vec<u8>,
) -> (record: Txo)
    ensures
        record@ == repaired(txo@, sighting@, subaddress_index, spend_public_key@),
{
    let mut record: Txo = txo.clone();
    if record.subaddress_index.is_some() || record.spent_block_index.is_some() || !owns_output(
        sighting,
        spend_public_key,
    ) {
        return record;
    }
    record.subaddress_index = Some(subaddress_index);
    match &sighting.key_image {
        None => {},
        Some(key_image) => {
            record.key_image = Some(key_image.clone());
            record.spent_block_index = sighting.spent_block_index;
        },
    }
    record
}

/// The records of a list after each has been held against the subaddress with
/// the sighting in its place; a record without a sighting stays as it is.
pub open spec fn repaired_all(
    txos: Seq<TxoView>,
    sightings: Seq<OrphanSightingView>,
    subaddress_index: u64,
    spend_public_key: Seq<u8>,
) -> Seq<TxoView> {
    Seq::new(
        txos.len(),
        |i: int|
            if i < sightings.len() {
                repaired(txos[i], sightings[i], subaddress_index, spend_public_key)
            } else {
                txos[i]
            },
    )
}

/// Whether an account may get a further subaddress: one that uses fog may not.
pub fn check_subaddresses_supported(fog_enabled: bool) -> (outcome: Result<(), WalletDbError>)
    ensures
        outcome == if fog_enabled {
            Err::<(), _>(WalletDbError::SubaddressesNotSupportedForFOGEnabledAccounts)
        } else {
            Ok(())
        },
{
    if fog_enabled {
        Err(WalletDbError::SubaddressesNotSupportedForFOGEnabledAccounts)
    } else {
        Ok(())
    }
}

/// Assigns the next subaddress, `next_subaddress_index`, of an account and
/// repairs the account's orphaned outputs for it: returns the index with the
/// records as they are to be stored. `sightings` holds, for each record in
/// order, what the caller found out about it for the new subaddress, whose
/// spend public key is `spend_public_key`. An account that uses fog gets no
/// further subaddress.
pub fn create_next_for_account(
    fog_enabled: bool,
    next_subaddress_index: u64,
    spend_public_key: &Vec<u8>,
    orphaned_txos: &Vec<Txo>,
    sightings: &Vec<OrphanSighting>,
) -> (outcome: Result<(u64, Vec<Txo>), WalletDbError>)
    ensures
        match outcome {
            Ok((index, records)) => {
                &&& !fog_enabled
                &&& index == next_subaddress_index
                &&& records.deep_view() == repaired_all(
                    orphaned_txos.deep_view(),
                    sightings.deep_view(),
                    next_subaddress_index,
                    spend_public_key@,
                )
            },
            Err(e) => fog_enabled && e
                == WalletDbError::SubaddressesNotSupportedForFOGEnabledAccounts,
        },
{
    check_subaddresses_supported(fog_enabled)?;
    let mut records: Vec<Txo> = Vec::new();
    let mut i: usize = 0;
    while i < orphaned_txos.len()
        invariant
            i <= orphaned_txos.len(),
            records.len() == i,
            forall|j: int|
                0 <= j < i ==> (#[trigger] records[j])@ == repaired_all(
                    orphaned_txos.deep_view(),
                    sightings.deep_view(),
                    next_subaddress_index,
                    spend_public_key@,
                )[j],
        decreases orphaned_txos.len() - i,
    {
        let record: Txo = if i < sightings.len() {
            repair_orphaned_txo(
                &orphaned_txos[i],
                &sightings[i],
                next_subaddress_index,
                spend_public_key,
            )
        } else {
            orphaned_txos[i].clone()
        };
        records.push(record);
        i = i + 1;
    }
    proof {
        assert(records.deep_view() =~= repaired_all(
            orphaned_txos.deep_view(),
            sightings.deep_view(),
            next_subaddress_index,
            spend_public_key@,
        ));
    }
    Ok((next_subaddress_index, records))
}

/// The one assigned subaddress among `matches`, the entries of the store that
/// have the spend public key looked for: each is a subaddress index with the
/// id of its account. `spend_public_key` describes the key for the error.
pub fn find_by_subaddress_spend_public_key(
    matches: &Vec<(i64, String)>,
    spend_public_key: &String,
) -> (outcome: Result<(i64, String), WalletDbError>)
    ensures
        match outcome {
            Ok(found) => matches.len() == 1 && found == matches[0],
            Err(WalletDbError::AssignedSubaddressNotFound(key)) => matches.len() == 0 && key
                == *spend_public_key,
            Err(WalletDbError::DuplicateEntries(key)) => matches.len() > 1 && key
                == *spend_public_key,
            Err(_) => false,
        },
{
    if matches.len() == 0 {
        Err(WalletDbError::AssignedSubaddressNotFound(spend_public_key.clone()))
    } else if matches.len() > 1 {
        Err(WalletDbError::DuplicateEntries(spend_public_key.clone()))
    } else {
        Ok((matches[0].0, matches[0].1.clone()))
    }
}

} // verus!
