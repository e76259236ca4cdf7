//! Proposed transactions as the wallet hands them on: the transaction with
//! the owned outputs that it spends and the outputs that it makes. What the
//! ledger's own encoding holds stays serialized here.

use vstd::prelude::*;
use crate::amount::Amount;

verus! {

/// An owned output that a transaction spends.
#[derive(Debug, PartialEq, Eq)]
pub struct InputTxo {
    /// The output, serialized.
    pub tx_out: Vec<u8>,
    pub subaddress_index: u64,
    pub key_image: Vec<u8>,
    pub amount: Amount,
}

/// An owned output that an unsigned transaction spends; its key image is not
/// known before the transaction is signed.
#[derive(Debug, PartialEq, Eq)]
pub struct UnsignedInputTxo {
    /// The output, serialized.
    pub tx_out: Vec<u8>,
    pub subaddress_index: u64,
    pub amount: Amount,
}

/// An output that a transaction makes.
#[derive(Debug, PartialEq, Eq)]
pub struct OutputTxo {
    /// The output, serialized.
    pub tx_out: Vec<u8>,
    /// The address of the recipient, in its printable form.
    pub recipient_public_address_b58: String,
    pub confirmation_number: Vec<u8>,
    pub amount: Amount,
}

/// A signed transaction, serialized, with what its prefix says of fee and
/// tombstone.
#[derive(Debug, PartialEq, Eq)]
pub struct Tx {
    /// The transaction, serialized.
    pub proto: Vec<u8>,
    pub fee: Amount,
    pub tombstone_block: u64,
}

/// A transaction that is ready to be submitted.
#[derive(Debug, PartialEq, Eq)]
pub struct TxProposal {
    pub tx: Tx,
    pub input_txos: Vec<InputTxo>,
    pub payload_txos: Vec<OutputTxo>,
    pub change_txos: Vec<OutputTxo>,
}

/// A transaction that is ready to be signed.
#[derive(Debug, PartialEq, Eq)]
pub struct UnsignedTxProposal {
    /// The unsigned transaction, serialized.
    pub unsigned_tx: Vec<u8>,
    pub unsigned_input_txos: Vec<UnsignedInputTxo>,
    pub payload_txos: Vec<OutputTxo>,
    pub change_txos: Vec<OutputTxo>,
}

/// A member of a ring as the signature sees it: three compressed curve points.
#[derive(Debug, PartialEq, Eq)]
pub struct ReducedTxOut {
    pub public_key: Vec<u8>,
    pub target_key: Vec<u8>,
    pub commitment: Vec<u8>,
}

/// The secrets of the real input of a ring: its amount and its blinding.
#[derive(Debug, PartialEq, Eq)]
pub struct InputSecret {
    pub amount: Amount,
    pub blinding: Vec<u8>,
}

/// A ring that is still to be signed.
#[derive(Debug, PartialEq, Eq)]
pub struct SignableInputRing {
    pub members: Vec<ReducedTxOut>,
    pub real_input_index: usize,
    pub input_secret: InputSecret,
}

/// A ring of a transaction: one that is still to be signed, or one that came
/// with its signature.
#[derive(Debug, PartialEq, Eq)]
pub enum InputRing {
    Signable(SignableInputRing),
    Presigned,
}

/// What the signer needs beside the rings.
#[derive(Debug, PartialEq, Eq)]
pub struct SigningData {
    pub extended_message: Vec<u8>,
    pub pseudo_output_blindings: Vec<Vec<u8>>,
    pub pseudo_output_commitments: Vec<Vec<u8>>,
    pub range_proof_bytes: Vec<u8>,
    pub range_proofs: Vec<Vec<u8>>,
    pub pseudo_output_token_ids: Vec<u64>,
    pub output_token_ids: Vec<u64>,
}

/// Everything that is needed to sign a transaction elsewhere.
#[derive(Debug, PartialEq, Eq)]
pub struct TxSigningData {
    /// The prefix of the transaction, serialized.
    pub tx_prefix: Vec<u8>,
    pub rings: Vec<InputRing>,
    pub signing_data: SigningData,
    pub input_txos: Vec<InputTxo>,
    pub payload_txos: Vec<OutputTxo>,
    pub change_txos: Vec<OutputTxo>,
}

/// Gives each input of an unsigned transaction the key image that its ring
/// signature carries; `key_images` holds the key images of the signatures in
/// the order of the inputs. `None` where an input has no signature.
pub fn attach_key_images(inputs: &Vec<UnsignedInputTxo>, key_images: &Vec<Vec<u8>>) -> (signed:
    Option<Vec<InputTxo>>)
    ensures
        signed is Some <==> key_images.len() >= inputs.len(),
        signed matches Some(txos) ==> {
            &&& txos.len() == inputs.len()
            &&& forall|i: int|
                0 <= i < inputs.len() ==> {
                    &&& (#[trigger] txos[i]).tx_out@ == inputs[i].tx_out@
                    &&& txos[i].subaddress_index == inputs[i].subaddress_index
                    &&& txos[i].key_image@ == key_images[i]@
                    &&& txos[i].amount == inputs[i].amount
                }
        },
{
    if key_images.len() < inputs.len() {
        return None;
    }
    let mut txos: Vec<InputTxo> = Vec::new();
    let mut i: usize = 0;
    while i < inputs.len()
        invariant
            i <= inputs.len(),
            inputs.len() <= key_images.len(),
            txos.len() == i,
            forall|j: int|
                0 <= j < i ==> {
                    &&& (#[trigger] txos[j]).tx_out@ == inputs[j].tx_out@
                    &&& txos[j].subaddress_index == inputs[j].subaddress_index
                    &&& txos[j].key_image@ == key_images[j]@
                    &&& txos[j].amount == inputs[j].amount
                },
        decreases inputs.len() - i,
    {
        txos.push(
            InputTxo {
                tx_out: inputs[i].tx_out.clone(),
                subaddress_index: inputs[i].subaddress_index,
                key_image: key_images[i].clone(),
                amount: inputs[i].amount,
            },
        );
        i = i + 1;
    }
    Some(txos)
}

} // verus!
