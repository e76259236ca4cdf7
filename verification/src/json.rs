//! The JSON models of proposed transactions and of signing data: bytes in
//! hexadecimal, numbers in decimal.

use vstd::prelude::*;
use crate::amount::{Amount, MOB_TOKEN_ID};
use crate::encoding::{
    bytes_of, decimal, decode_hex, hex_decoded, hex_decoding, hex_encode, hex_encoding,
    lemma_decimal_round_trip, lemma_hex_error_unique, lemma_hex_round_trip, parse_u64, parsed_u64,
    u64_to_string,
};
use crate::error::{HexError, TxProposalError};
use crate::tx_proposal::{
    InputRing, InputTxo, OutputTxo, ReducedTxOut, SignableInputRing, SigningData, Tx, TxProposal,
    TxSigningData, UnsignedInputTxo, UnsignedTxProposal,
};

verus! {

/// An amount: the value and the token id, both in decimal.
#[derive(Debug, Default, PartialEq, Eq)]
pub struct AmountJSON {
    pub value: String,
    pub token_id: String,
}

/// An owned output that a transaction spends.
#[derive(Debug, Default, PartialEq, Eq)]
pub struct InputTxoJSON {
    pub tx_out_proto: String,
    pub amount: AmountJSON,
    pub subaddress_index: String,
    pub key_image: String,
}

/// An output that a transaction makes.
#[derive(Debug, Default, PartialEq, Eq)]
pub struct OutputTxoJSON {
    pub tx_out_proto: String,
    pub amount: AmountJSON,
    pub recipient_public_address_b58: String,
    pub confirmation_number: String,
}

/// An owned output that an unsigned transaction spends.
#[derive(Debug, Default, PartialEq, Eq)]
pub struct UnsignedInputTxoJSON {
    pub tx_out_proto: String,
    pub amount: AmountJSON,
    pub subaddress_index: String,
}

/// A transaction that is ready to be signed.
#[derive(Debug, Default, PartialEq, Eq)]
pub struct UnsignedTxProposalJSON {
    pub unsigned_tx_proto_bytes_hex: String,
    pub unsigned_input_txos: Vec<UnsignedInputTxoJSON>,
    pub payload_txos: Vec<OutputTxoJSON>,
    pub change_txos: Vec<OutputTxoJSON>,
}

/// A transaction that is ready to be submitted.
#[derive(Debug, Default, PartialEq, Eq)]
pub struct TxProposalJSON {
    pub input_txos: Vec<InputTxoJSON>,
    pub payload_txos: Vec<OutputTxoJSON>,
    pub change_txos: Vec<OutputTxoJSON>,
    pub fee_amount: AmountJSON,
    pub tombstone_block_index: String,
    pub tx_proto: String,
}

/// Everything that is needed to sign a transaction elsewhere.
#[derive(Debug, Default, PartialEq, Eq)]
pub struct TxSigningDataJSON {
    pub tx_prefix: String,
    pub rings: Vec<RingJSON>,
    pub signing_data: SigningDataJSON,
    pub input_txos: Vec<InputTxoJSON>,
    pub payload_txos: Vec<OutputTxoJSON>,
    pub change_txos: Vec<OutputTxoJSON>,
}

/// What the signer needs beside the rings.
#[derive(Debug, Default, PartialEq, Eq)]
pub struct SigningDataJSON {
    pub extended_message: String,
    pub pseudo_output_blindings: Vec<String>,
    pub pseudo_output_commitments: Vec<String>,
    pub range_proof_bytes: String,
    pub range_proofs: Vec<String>,
    pub pseudo_output_token_ids: Vec<u64>,
    pub output_token_ids: Vec<u64>,
}

/// A ring signature with what it is verified against.
#[derive(Debug, Default, PartialEq, Eq)]
pub struct VerifySignatureJSON {
    pub message: String,
    pub ring: Vec<RingJSON>,
    pub output_commitment: String,
    pub c_zero: String,
    pub responses: Vec<String>,
    pub key_image: String,
}

/// A ring that is still to be signed.
#[derive(Debug, Default, PartialEq, Eq)]
pub struct RingJSON {
    pub members: Vec<RingMemberJSON>,
    pub real_input_index: u64,
    pub input_secret: RingInputSecretJSON,
}

/// A member of a ring: three compressed curve points.
#[derive(Debug, Default, PartialEq, Eq)]
pub struct RingMemberJSON {
    pub compressed_ristretto_public: String,
    pub compressed_ristretto_target: String,
    pub compressed_commitment: String,
}

/// The secrets of the real input of a ring.
#[derive(Debug, Default, PartialEq, Eq)]
pub struct RingInputSecretJSON {
    pub value: RingAmountJSON,
    pub blinding: String,
}

/// The amount of the real input of a ring.
#[derive(Debug, Default, PartialEq, Eq)]
pub struct RingAmountJSON {
    pub value: String,
    pub token_id: String,
}

/// Whether `texts` holds the hexadecimal forms of `blobs`, in order.
pub open spec fn hex_of_all(texts: Seq<String>, blobs: Seq<Vec<u8>>) -> bool {
    &&& texts.len() == blobs.len()
    &&& forall|i: int| 0 <= i < texts.len() ==> (#[trigger] texts[i])@ == hex_encoding(blobs[i]@)
}

/// The hexadecimal forms of `blobs`, in order.
fn hex_encode_all(blobs: &Vec<Vec<u8>>) -> (texts: Vec<String>)
    ensures
        hex_of_all(texts@, blobs@),
{
    let mut texts: Vec<String> = Vec::new();
    let mut i: usize = 0;
    while i < blobs.len()
        invariant
            i <= blobs.len(),
            texts.len() == i,
            forall|j: int| 0 <= j < i ==> (#[trigger] texts[j])@ == hex_encoding(blobs[j]@),
        decreases blobs.len() - i,
    {
        texts.push(hex_encode(blobs[i].as_slice()));
        i = i + 1;
    }
    texts
}

impl AmountJSON {
    /// Whether this is the JSON model of `amount`.
    pub open spec fn is_json_of(self, amount: Amount) -> bool {
        &&& self.value@ == decimal(amount.value as nat)
        &&& self.token_id@ == decimal(amount.token_id as nat)
    }

    /// The JSON model of `src`.
    pub fn from(src: &Amount) -> (json: Self)
        ensures
            json.is_json_of(*src),
    {
        AmountJSON { value: u64_to_string(src.value), token_id: u64_to_string(src.token_id) }
    }
}

impl InputTxoJSON {
    /// Whether this is the JSON model of `src`.
    pub open spec fn is_json_of(self, src: InputTxo) -> bool {
        &&& self.tx_out_proto@ == hex_encoding(src.tx_out@)
        &&& self.amount.is_json_of(src.amount)
        &&& self.subaddress_index@ == decimal(src.subaddress_index as nat)
        &&& self.key_image@ == hex_encoding(src.key_image@)
    }

    /// The JSON model of `src`.
    pub fn from(src: &InputTxo) -> (json: Self)
        ensures
            json.is_json_of(*src),
    {
        InputTxoJSON {
            tx_out_proto: hex_encode(src.tx_out.as_slice()),
            amount: AmountJSON::from(&src.amount),
            subaddress_index: u64_to_string(src.subaddress_index),
            key_image: hex_encode(src.key_image.as_slice()),
        }
    }
}

impl OutputTxoJSON {
    /// Whether this is the JSON model of `src`.
    pub open spec fn is_json_of(self, src: OutputTxo) -> bool {
        &&& self.tx_out_proto@ == hex_encoding(src.tx_out@)
        &&& self.amount.is_json_of(src.amount)
        &&& self.recipient_public_address_b58 == src.recipient_public_address_b58
        &&& self.confirmation_number@ == hex_encoding(src.confirmation_number@)
    }

    /// The JSON model of `src`. Every output has one.
    pub fn try_from(src: &OutputTxo) -> (outcome: Result<Self, String>)
        ensures
            outcome matches Ok(json) && json.is_json_of(*src),
    {
        Ok(
            OutputTxoJSON {
                tx_out_proto: hex_encode(src.tx_out.as_slice()),
                amount: AmountJSON::from(&src.amount),
                recipient_public_address_b58: src.recipient_public_address_b58.clone(),
                confirmation_number: hex_encode(src.confirmation_number.as_slice()),
            },
        )
    }
}

/// Whether `jsons` holds the JSON models of `txos`, in order.
pub open spec fn inputs_json_of(jsons: Seq<InputTxoJSON>, txos: Seq<InputTxo>) -> bool {
    &&& jsons.len() == txos.len()
    &&& forall|i: int| 0 <= i < jsons.len() ==> (#[trigger] jsons[i]).is_json_of(txos[i])
}

/// Whether `jsons` holds the JSON models of `txos`, in order.
pub open spec fn outputs_json_of(jsons: Seq<OutputTxoJSON>, txos: Seq<OutputTxo>) -> bool {
    &&& jsons.len() == txos.len()
    &&& forall|i: int| 0 <= i < jsons.len() ==> (#[trigger] jsons[i]).is_json_of(txos[i])
}

/// The JSON models of `txos`, in order.
fn inputs_to_json(txos: &Vec<InputTxo>) -> (jsons: Vec<InputTxoJSON>)
    ensures
        inputs_json_of(jsons@, txos@),
{
    let mut jsons: Vec<InputTxoJSON> = Vec::new();
    let mut i: usize = 0;
    while i < txos.len()
        invariant
            i <= txos.len(),
            jsons.len() == i,
            forall|j: int| 0 <= j < i ==> (#[trigger] jsons[j]).is_json_of(txos[j]),
        decreases txos.len() - i,
    {
        jsons.push(InputTxoJSON::from(&txos[i]));
        i = i + 1;
    }
    jsons
}

/// The JSON models of `txos`, in order.
fn outputs_to_json(txos: &Vec<OutputTxo>) -> (jsons: Vec<OutputTxoJSON>)
    ensures
        outputs_json_of(jsons@, txos@),
{
    let mut jsons: Vec<OutputTxoJSON> = Vec::new();
    let mut i: usize = 0;
    while i < txos.len()
        invariant
            i <= txos.len(),
            jsons.len() == i,
            forall|j: int| 0 <= j < i ==> (#[trigger] jsons[j]).is_json_of(txos[j]),
        decreases txos.len() - i,
    {
        match OutputTxoJSON::try_from(&txos[i]) {
            Ok(json) => {
                jsons.push(json);
            },
            Err(_) => {},
        }
        i = i + 1;
    }
    jsons
}

impl TxProposalJSON {
    /// Whether this is the JSON model of `src`.
    pub open spec fn is_json_of(self, src: TxProposal) -> bool {
        &&& inputs_json_of(self.input_txos@, src.input_txos@)
        &&& outputs_json_of(self.payload_txos@, src.payload_txos@)
        &&& outputs_json_of(self.change_txos@, src.change_txos@)
        &&& self.fee_amount.is_json_of(src.tx.fee)
        &&& self.tombstone_block_index@ == decimal(src.tx.tombstone_block as nat)
        &&& self.tx_proto@ == hex_encoding(src.tx.proto@)
    }

    /// The JSON model of `src`. Every proposal has one.
    pub fn try_from(src: &TxProposal) -> (outcome: Result<Self, String>)
        ensures
            outcome matches Ok(json) && json.is_json_of(*src),
    {
        Ok(
            TxProposalJSON {
                input_txos: inputs_to_json(&src.input_txos),
                payload_txos: outputs_to_json(&src.payload_txos),
                change_txos: outputs_to_json(&src.change_txos),
                fee_amount: AmountJSON::from(&src.tx.fee),
                tombstone_block_index: u64_to_string(src.tx.tombstone_block),
                tx_proto: hex_encode(src.tx.proto.as_slice()),
            },
        )
    }
}

impl RingMemberJSON {
    /// Whether this is the JSON model of `member`.
    pub open spec fn is_json_of(self, member: ReducedTxOut) -> bool {
        &&& self.compressed_ristretto_public@ == hex_encoding(member.public_key@)
        &&& self.compressed_ristretto_target@ == hex_encoding(member.target_key@)
        &&& self.compressed_commitment@ == hex_encoding(member.commitment@)
    }
}

impl RingJSON {
    /// Whether this is the JSON model of `ring`.
    pub open spec fn is_json_of(self, ring: SignableInputRing) -> bool {
        &&& self.members.len() == ring.members.len()
        &&& forall|i: int|
            0 <= i < self.members.len() ==> (#[trigger] self.members[i]).is_json_of(
                ring.members[i],
            )
        &&& self.real_input_index == ring.real_input_index
        &&& self.input_secret.value.value@ == decimal(ring.input_secret.amount.value as nat)
        &&& self.input_secret.value.token_id@ == decimal(ring.input_secret.amount.token_id as nat)
        &&& self.input_secret.blinding@ == hex_encoding(ring.input_secret.blinding@)
    }

    /// The JSON model of a ring that is still to be signed.
    pub fn from(ring: &SignableInputRing) -> (json: Self)
        ensures
            json.is_json_of(*ring),
    {
        let mut members: Vec<RingMemberJSON> = Vec::new();
        let mut i: usize = 0;
        while i < ring.members.len()
            invariant
                i <= ring.members.len(),
                members.len() == i,
                forall|j: int| 0 <= j < i ==> (#[trigger] members[j]).is_json_of(ring.members[j]),
            decreases ring.members.len() - i,
        {
            let member = &ring.members[i];
            members.push(
                RingMemberJSON {
                    compressed_ristretto_target: hex_encode(member.target_key.as_slice()),
                    compressed_ristretto_public: hex_encode(member.public_key.as_slice()),
                    compressed_commitment: hex_encode(member.commitment.as_slice()),
                },
            );
            i = i + 1;
        }
        RingJSON {
            members,
            real_input_index: ring.real_input_index as u64,
            input_secret: RingInputSecretJSON {
                value: RingAmountJSON {
                    value: u64_to_string(ring.input_secret.amount.value),
                    token_id: u64_to_string(ring.input_secret.amount.token_id),
                },
                blinding: hex_encode(ring.input_secret.blinding.as_slice()),
            },
        }
    }
}

impl SigningDataJSON {
    /// Whether this is the JSON model of `src`.
    pub open spec fn is_json_of(self, src: SigningData) -> bool {
        &&& self.extended_message@ == hex_encoding(src.extended_message@)
        &&& hex_of_all(self.pseudo_output_blindings@, src.pseudo_output_blindings@)
        &&& hex_of_all(self.pseudo_output_commitments@, src.pseudo_output_commitments@)
        &&& self.range_proof_bytes@ == hex_encoding(src.range_proof_bytes@)
        &&& hex_of_all(self.range_proofs@, src.range_proofs@)
        &&& self.pseudo_output_token_ids@ == src.pseudo_output_token_ids@
        &&& self.output_token_ids@ == src.output_token_ids@
    }
}

/// Whether every ring of `rings` is still to be signed.
pub open spec fn all_signable(rings: Seq<InputRing>) -> bool {
    forall|i: int| 0 <= i < rings.len() ==> #[trigger] rings[i] is Signable
}

/// Whether `jsons` holds the JSON models of `rings`, in order.
pub open spec fn rings_json_of(jsons: Seq<RingJSON>, rings: Seq<InputRing>) -> bool {
    &&& jsons.len() == rings.len()
    &&& forall|i: int|
        0 <= i < jsons.len() ==> ((#[trigger] rings[i]) matches InputRing::Signable(ring)
            && jsons[i].is_json_of(ring))
}

impl TxSigningDataJSON {
    /// Whether this is the JSON model of `src`.
    pub open spec fn is_json_of(self, src: TxSigningData) -> bool {
        &&& self.tx_prefix@ == hex_encoding(src.tx_prefix@)
        &&& rings_json_of(self.rings@, src.rings@)
        &&& self.signing_data.is_json_of(src.signing_data)
        &&& inputs_json_of(self.input_txos@, src.input_txos@)
        &&& outputs_json_of(self.payload_txos@, src.payload_txos@)
        &&& outputs_json_of(self.change_txos@, src.change_txos@)
    }

    /// The JSON model of signing data. Only rings that are still to be signed
    /// have one: with any other ring the conversion fails.
    pub fn try_from(src: TxSigningData) -> (outcome: Result<Self, String>)
        ensures
            match outcome {
                Ok(json) => all_signable(src.rings@) && json.is_json_of(src),
                Err(message) => !all_signable(src.rings@) && message@ == "Error"@,
            },
    {
        let mut rings: Vec<RingJSON> = Vec::new();
        let mut i: usize = 0;
        while i < src.rings.len()
            invariant
                i <= src.rings.len(),
                rings.len() == i,
                forall|j: int|
                    0 <= j < i ==> ((#[trigger] src.rings[j]) matches InputRing::Signable(ring)
                        && rings[j].is_json_of(ring)),
            decreases src.rings.len() - i,
        {
            match &src.rings[i] {
                InputRing::Signable(ring) => {
                    rings.push(RingJSON::from(ring));
                },
                InputRing::Presigned => {
                    assert(!(src.rings@[i as int] is Signable));
                    return Err("Error".to_owned());
                },
            }
            i = i + 1;
        }
        let signing_data = SigningDataJSON {
            extended_message: hex_encode(src.signing_data.extended_message.as_slice()),
            pseudo_output_blindings: hex_encode_all(&src.signing_data.pseudo_output_blindings),
            pseudo_output_commitments: hex_encode_all(&src.signing_data.pseudo_output_commitments),
            range_proof_bytes: hex_encode(src.signing_data.range_proof_bytes.as_slice()),
            range_proofs: hex_encode_all(&src.signing_data.range_proofs),
            pseudo_output_token_ids: src.signing_data.pseudo_output_token_ids.clone(),
            output_token_ids: src.signing_data.output_token_ids.clone(),
        };
        Ok(
            TxSigningDataJSON {
                tx_prefix: hex_encode(src.tx_prefix.as_slice()),
                rings,
                signing_data,
                input_txos: inputs_to_json(&src.input_txos),
                change_txos: outputs_to_json(&src.change_txos),
                payload_txos: outputs_to_json(&src.payload_txos),
            },
        )
    }
}

/// The length in bytes of a confirmation number.
pub const CONFIRMATION_NUMBER_LEN: usize = 32;

/// Why `text` is not hexadecimal, if it is not.
pub open spec fn hex_failure(text: Seq<char>) -> Option<HexError> {
    if exists|e: HexError| hex_decoded(bytes_of(text), Err(e)) {
        Some(choose|e: HexError| hex_decoded(bytes_of(text), Err(e)))
    } else {
        None
    }
}

/// The bytes that the hexadecimal `text` stands for.
pub open spec fn hex_bytes(text: Seq<char>) -> Seq<u8> {
    hex_decoding(bytes_of(text))
}

/// The failure that comes first of two steps, if one of them fails.
pub open spec fn or_else(first: Option<TxProposalError>, second: Option<TxProposalError>)
    -> Option<TxProposalError> {
    match first {
        Some(e) => Some(e),
        None => second,
    }
}

/// Why `text` is not hexadecimal, as an error of the proposal.
pub open spec fn hex_step(text: Seq<char>) -> Option<TxProposalError> {
    match hex_failure(text) {
        Some(e) => Some(TxProposalError::FromHex(e)),
        None => None,
    }
}

/// Why `text` is not a number, as an error of the proposal.
pub open spec fn number_step(text: Seq<char>) -> Option<TxProposalError> {
    if parsed_u64(text) is None {
        Some(TxProposalError::InvalidNumber)
    } else {
        None
    }
}

/// Decodes one hexadecimal text of a proposal.
fn hex_field(text: &String) -> (outcome: Result<Vec<u8>, TxProposalError>)
    ensures
        match outcome {
            Ok(bytes) => hex_step(text@) is None && bytes@ == hex_bytes(text@),
            Err(e) => hex_step(text@) == Some(e),
        },
{
    match decode_hex(text) {
        Ok(bytes) => {
            proof {
                if exists|e: HexError| hex_decoded(bytes_of(text@), Err(e)) {
                    let e = choose|e: HexError| hex_decoded(bytes_of(text@), Err(e));
                    lemma_hex_error_unique(bytes_of(text@), e, e);
                }
            }
            Ok(bytes)
        },
        Err(e) => {
            proof {
                let chosen = choose|e: HexError| hex_decoded(bytes_of(text@), Err(e));
                lemma_hex_error_unique(bytes_of(text@), chosen, e);
            }
            Err(TxProposalError::FromHex(e))
        },
    }
}

/// Reads one number of a proposal.
fn number_field(text: &String) -> (outcome: Result<u64, TxProposalError>)
    ensures
        match outcome {
            Ok(number) => parsed_u64(text@) == Some(number),
            Err(e) => number_step(text@) == Some(e),
        },
{
    match parse_u64(text.as_str()) {
        Some(number) => Ok(number),
        None => Err(TxProposalError::InvalidNumber),
    }
}

impl AmountJSON {
    /// Why this is not the JSON model of an amount, if it is not.
    pub open spec fn decode_failure(self) -> Option<TxProposalError> {
        or_else(number_step(self.value@), number_step(self.token_id@))
    }

    /// The amount that this is a JSON model of.
    pub open spec fn decoded(self) -> Amount {
        Amount { value: parsed_u64(self.value@)->0, token_id: parsed_u64(self.token_id@)->0 }
    }

    /// The amount that this is a JSON model of.
    pub fn to_amount(&self) -> (outcome: Result<Amount, TxProposalError>)
        ensures
            match outcome {
                Ok(amount) => self.decode_failure() is None && amount == self.decoded(),
                Err(e) => self.decode_failure() == Some(e),
            },
    {
        let value: u64 = number_field(&self.value)?;
        let token_id: u64 = number_field(&self.token_id)?;
        Ok(Amount { value, token_id })
    }
}

impl InputTxoJSON {
    /// Why this is not the JSON model of an input, if it is not: what is wrong
    /// with the first of its key image, its output, its subaddress index and
    /// its amount that is not in order.
    pub open spec fn decode_failure(self) -> Option<TxProposalError> {
        or_else(
            hex_step(self.key_image@),
            or_else(
                hex_step(self.tx_out_proto@),
                or_else(number_step(self.subaddress_index@), self.amount.decode_failure()),
            ),
        )
    }

    /// Whether this is a JSON model of `txo`, in digits of either case.
    pub open spec fn decodes_to(self, txo: InputTxo) -> bool {
        &&& txo.tx_out@ == hex_bytes(self.tx_out_proto@)
        &&& Some(txo.subaddress_index) == parsed_u64(self.subaddress_index@)
        &&& txo.key_image@ == hex_bytes(self.key_image@)
        &&& txo.amount == self.amount.decoded()
    }

    /// The input that this is a JSON model of.
    pub fn to_input_txo(&self) -> (outcome: Result<InputTxo, TxProposalError>)
        ensures
            match outcome {
                Ok(txo) => self.decode_failure() is None && self.decodes_to(txo),
                Err(e) => self.decode_failure() == Some(e),
            },
    {
        let key_image: Vec<u8> = hex_field(&self.key_image)?;
        let tx_out: Vec<u8> = hex_field(&self.tx_out_proto)?;
        let subaddress_index: u64 = number_field(&self.subaddress_index)?;
        let amount: Amount = self.amount.to_amount()?;
        Ok(InputTxo { tx_out, subaddress_index, key_image, amount })
    }
}

impl UnsignedInputTxoJSON {
    /// Why this is not the JSON model of an unsigned input, if it is not: what
    /// is wrong with the first of its output, its subaddress index and its
    /// amount that is not in order.
    pub open spec fn decode_failure(self) -> Option<TxProposalError> {
        or_else(
            hex_step(self.tx_out_proto@),
            or_else(number_step(self.subaddress_index@), self.amount.decode_failure()),
        )
    }

    /// Whether this is a JSON model of `txo`, in digits of either case.
    pub open spec fn decodes_to(self, txo: UnsignedInputTxo) -> bool {
        &&& txo.tx_out@ == hex_bytes(self.tx_out_proto@)
        &&& Some(txo.subaddress_index) == parsed_u64(self.subaddress_index@)
        &&& txo.amount == self.amount.decoded()
    }

    /// The unsigned input that this is a JSON model of.
    pub fn to_unsigned_input_txo(&self) -> (outcome: Result<UnsignedInputTxo, TxProposalError>)
        ensures
            match outcome {
                Ok(txo) => self.decode_failure() is None && self.decodes_to(txo),
                Err(e) => self.decode_failure() == Some(e),
            },
    {
        let tx_out: Vec<u8> = hex_field(&self.tx_out_proto)?;
        let subaddress_index: u64 = number_field(&self.subaddress_index)?;
        let amount: Amount = self.amount.to_amount()?;
        Ok(UnsignedInputTxo { tx_out, subaddress_index, amount })
    }
}

impl OutputTxoJSON {
    /// Why the confirmation number does not have its length, if it does not.
    pub open spec fn length_step(self) -> Option<TxProposalError> {
        if hex_bytes(self.confirmation_number@).len() != CONFIRMATION_NUMBER_LEN {
            Some(
                TxProposalError::ConfirmationNumberLength(
                    hex_bytes(self.confirmation_number@).len() as usize,
                ),
            )
        } else {
            None
        }
    }

    /// Why this is not the JSON model of an output, if it is not: what is
    /// wrong with the first of its confirmation number, the length of that,
    /// its output and its amount that is not in order.
    pub open spec fn decode_failure(self) -> Option<TxProposalError> {
        or_else(
            hex_step(self.confirmation_number@),
            or_else(
                self.length_step(),
                or_else(hex_step(self.tx_out_proto@), self.amount.decode_failure()),
            ),
        )
    }

    /// Whether this is a JSON model of `txo`, in digits of either case.
    pub open spec fn decodes_to(self, txo: OutputTxo) -> bool {
        &&& txo.tx_out@ == hex_bytes(self.tx_out_proto@)
        &&& txo.recipient_public_address_b58 == self.recipient_public_address_b58
        &&& txo.confirmation_number@ == hex_bytes(self.confirmation_number@)
        &&& txo.amount == self.amount.decoded()
    }

    /// The output that this is a JSON model of.
    pub fn to_output_txo(&self) -> (outcome: Result<OutputTxo, TxProposalError>)
        ensures
            match outcome {
                Ok(txo) => self.decode_failure() is None && self.decodes_to(txo),
                Err(e) => self.decode_failure() == Some(e),
            },
    {
        let confirmation_number: Vec<u8> = hex_field(&self.confirmation_number)?;
        if confirmation_number.len() != CONFIRMATION_NUMBER_LEN {
            return Err(TxProposalError::ConfirmationNumberLength(confirmation_number.len()));
        }
        let tx_out: Vec<u8> = hex_field(&self.tx_out_proto)?;
        let amount: Amount = self.amount.to_amount()?;
        Ok(
            OutputTxo {
                tx_out,
                recipient_public_address_b58: self.recipient_public_address_b58.clone(),
                confirmation_number,
                amount,
            },
        )
    }
}

/// What is wrong with the first of `jsons` that is no model of an input, if
/// one is none.
pub open spec fn inputs_failure(jsons: Seq<InputTxoJSON>) -> Option<TxProposalError>
    decreases jsons.len(),
{
    if jsons.len() == 0 {
        None
    } else {
        or_else(inputs_failure(jsons.drop_last()), jsons.last().decode_failure())
    }
}

/// What is wrong with the first of `jsons` that is no model of an unsigned
/// input, if one is none.
pub open spec fn unsigned_inputs_failure(jsons: Seq<UnsignedInputTxoJSON>) -> Option<
    TxProposalError,
>
    decreases jsons.len(),
{
    if jsons.len() == 0 {
        None
    } else {
        or_else(unsigned_inputs_failure(jsons.drop_last()), jsons.last().decode_failure())
    }
}

/// What is wrong with the first of `jsons` that is no model of an output, if
/// one is none.
pub open spec fn outputs_failure(jsons: Seq<OutputTxoJSON>) -> Option<TxProposalError>
    decreases jsons.len(),
{
    if jsons.len() == 0 {
        None
    } else {
        or_else(outputs_failure(jsons.drop_last()), jsons.last().decode_failure())
    }
}

/// Whether `jsons` are JSON models of `txos`, in order.
pub open spec fn inputs_decode_to(jsons: Seq<InputTxoJSON>, txos: Seq<InputTxo>) -> bool {
    &&& jsons.len() == txos.len()
    &&& forall|i: int| 0 <= i < jsons.len() ==> (#[trigger] jsons[i]).decodes_to(txos[i])
}

/// Whether `jsons` are JSON models of `txos`, in order.
pub open spec fn unsigned_inputs_decode_to(
    jsons: Seq<UnsignedInputTxoJSON>,
    txos: Seq<UnsignedInputTxo>,
) -> bool {
    &&& jsons.len() == txos.len()
    &&& forall|i: int| 0 <= i < jsons.len() ==> (#[trigger] jsons[i]).decodes_to(txos[i])
}

/// Whether `jsons` are JSON models of `txos`, in order.
pub open spec fn outputs_decode_to(jsons: Seq<OutputTxoJSON>, txos: Seq<OutputTxo>) -> bool {
    &&& jsons.len() == txos.len()
    &&& forall|i: int| 0 <= i < jsons.len() ==> (#[trigger] jsons[i]).decodes_to(txos[i])
}

/// A failure among the first models is the failure among all of them.
proof fn lemma_inputs_failure(jsons: Seq<InputTxoJSON>, some: int)
    requires
        0 <= some <= jsons.len(),
        inputs_failure(jsons.take(some)) is Some,
    ensures
        inputs_failure(jsons) == inputs_failure(jsons.take(some)),
    decreases jsons.len() - some,
{
    if some == jsons.len() {
        assert(jsons.take(some) =~= jsons);
    } else {
        assert(jsons.take(some + 1).drop_last() =~= jsons.take(some));
        lemma_inputs_failure(jsons, some + 1);
    }
}

/// A failure among the first models is the failure among all of them.
proof fn lemma_unsigned_inputs_failure(jsons: Seq<UnsignedInputTxoJSON>, some: int)
    requires
        0 <= some <= jsons.len(),
        unsigned_inputs_failure(jsons.take(some)) is Some,
    ensures
        unsigned_inputs_failure(jsons) == unsigned_inputs_failure(jsons.take(some)),
    decreases jsons.len() - some,
{
    if some == jsons.len() {
        assert(jsons.take(some) =~= jsons);
    } else {
        assert(jsons.take(some + 1).drop_last() =~= jsons.take(some));
        lemma_unsigned_inputs_failure(jsons, some + 1);
    }
}

/// A failure among the first models is the failure among all of them.
proof fn lemma_outputs_failure(jsons: Seq<OutputTxoJSON>, some: int)
    requires
        0 <= some <= jsons.len(),
        outputs_failure(jsons.take(some)) is Some,
    ensures
        outputs_failure(jsons) == outputs_failure(jsons.take(some)),
    decreases jsons.len() - some,
{
    if some == jsons.len() {
        assert(jsons.take(some) =~= jsons);
    } else {
        assert(jsons.take(some + 1).drop_last() =~= jsons.take(some));
        lemma_outputs_failure(jsons, some + 1);
    }
}

/// The inputs that `jsons` are JSON models of, in order.
fn inputs_from_json(jsons: &Vec<InputTxoJSON>) -> (outcome: Result<Vec<InputTxo>, TxProposalError>)
    ensures
        match outcome {
            Ok(txos) => inputs_failure(jsons@) is None && inputs_decode_to(jsons@, txos@),
            Err(e) => inputs_failure(jsons@) == Some(e),
        },
{
    let mut txos: Vec<InputTxo> = Vec::new();
    let mut i: usize = 0;
    while i < jsons.len()
        invariant
            i <= jsons.len(),
            txos.len() == i,
            inputs_failure(jsons@.take(i as int)) is None,
            forall|j: int| 0 <= j < i ==> (#[trigger] jsons[j]).decodes_to(txos[j]),
        decreases jsons.len() - i,
    {
        proof {
            assert(jsons@.take(i + 1).drop_last() =~= jsons@.take(i as int));
        }
        match jsons[i].to_input_txo() {
            Ok(txo) => {
                txos.push(txo);
            },
            Err(e) => {
                proof {
                    lemma_inputs_failure(jsons@, i + 1);
                }
                return Err(e);
            },
        }
        i = i + 1;
    }
    proof {
        assert(jsons@.take(i as int) =~= jsons@);
    }
    Ok(txos)
}

/// The unsigned inputs that `jsons` are JSON models of, in order.
fn unsigned_inputs_from_json(jsons: &Vec<UnsignedInputTxoJSON>) -> (outcome: Result<
    Vec<UnsignedInputTxo>,
    TxProposalError,
>)
    ensures
        match outcome {
            Ok(txos) => unsigned_inputs_failure(jsons@) is None && unsigned_inputs_decode_to(
                jsons@,
                txos@,
            ),
            Err(e) => unsigned_inputs_failure(jsons@) == Some(e),
        },
{
    let mut txos: Vec<UnsignedInputTxo> = Vec::new();
    let mut i: usize = 0;
    while i < jsons.len()
        invariant
            i <= jsons.len(),
            txos.len() == i,
            unsigned_inputs_failure(jsons@.take(i as int)) is None,
            forall|j: int| 0 <= j < i ==> (#[trigger] jsons[j]).decodes_to(txos[j]),
        decreases jsons.len() - i,
    {
        proof {
            assert(jsons@.take(i + 1).drop_last() =~= jsons@.take(i as int));
        }
        match jsons[i].to_unsigned_input_txo() {
            Ok(txo) => {
                txos.push(txo);
            },
            Err(e) => {
                proof {
                    lemma_unsigned_inputs_failure(jsons@, i + 1);
                }
                return Err(e);
            },
        }
        i = i + 1;
    }
    proof {
        assert(jsons@.take(i as int) =~= jsons@);
    }
    Ok(txos)
}

/// The outputs that `jsons` are JSON models of, in order.
fn outputs_from_json(jsons: &Vec<OutputTxoJSON>) -> (outcome: Result<
    Vec<OutputTxo>,
    TxProposalError,
>)
    ensures
        match outcome {
            Ok(txos) => outputs_failure(jsons@) is None && outputs_decode_to(jsons@, txos@),
            Err(e) => outputs_failure(jsons@) == Some(e),
        },
{
    let mut txos: Vec<OutputTxo> = Vec::new();
    let mut i: usize = 0;
    while i < jsons.len()
        invariant
            i <= jsons.len(),
            txos.len() == i,
            outputs_failure(jsons@.take(i as int)) is None,
            forall|j: int| 0 <= j < i ==> (#[trigger] jsons[j]).decodes_to(txos[j]),
        decreases jsons.len() - i,
    {
        proof {
            assert(jsons@.take(i + 1).drop_last() =~= jsons@.take(i as int));
        }
        match jsons[i].to_output_txo() {
            Ok(txo) => {
                txos.push(txo);
            },
            Err(e) => {
                proof {
                    lemma_outputs_failure(jsons@, i + 1);
                }
                return Err(e);
            },
        }
        i = i + 1;
    }
    proof {
        assert(jsons@.take(i as int) =~= jsons@);
    }
    Ok(txos)
}

impl TxProposalJSON {
    /// Why this is not the JSON model of a proposal, if it is not: what is
    /// wrong with the first of its transaction, its inputs, its payload
    /// outputs, its change outputs, its fee and its tombstone that is not in
    /// order.
    pub open spec fn decode_failure(self) -> Option<TxProposalError> {
        or_else(
            hex_step(self.tx_proto@),
            or_else(
                inputs_failure(self.input_txos@),
                or_else(
                    outputs_failure(self.payload_txos@),
                    or_else(
                        outputs_failure(self.change_txos@),
                        or_else(
                            self.fee_amount.decode_failure(),
                            number_step(self.tombstone_block_index@),
                        ),
                    ),
                ),
            ),
        )
    }

    /// Whether this is a JSON model of `proposal`, in digits of either case.
    pub open spec fn decodes_to(self, proposal: TxProposal) -> bool {
        &&& proposal.tx.proto@ == hex_bytes(self.tx_proto@)
        &&& proposal.tx.fee == self.fee_amount.decoded()
        &&& Some(proposal.tx.tombstone_block) == parsed_u64(self.tombstone_block_index@)
        &&& inputs_decode_to(self.input_txos@, proposal.input_txos@)
        &&& outputs_decode_to(self.payload_txos@, proposal.payload_txos@)
        &&& outputs_decode_to(self.change_txos@, proposal.change_txos@)
    }
}

impl TxProposal {
    /// The proposal that `src` is a JSON model of. What the ledger's own
    /// encoding holds is left to the caller to decode.
    pub fn try_from(src: &TxProposalJSON) -> (outcome: Result<TxProposal, TxProposalError>)
        ensures
            match outcome {
                Ok(proposal) => src.decode_failure() is None && src.decodes_to(proposal),
                Err(e) => src.decode_failure() == Some(e),
            },
    {
        let proto: Vec<u8> = hex_field(&src.tx_proto)?;
        let input_txos: Vec<InputTxo> = inputs_from_json(&src.input_txos)?;
        let payload_txos: Vec<OutputTxo> = outputs_from_json(&src.payload_txos)?;
        let change_txos: Vec<OutputTxo> = outputs_from_json(&src.change_txos)?;
        let fee: Amount = src.fee_amount.to_amount()?;
        let tombstone_block: u64 = number_field(&src.tombstone_block_index)?;
        Ok(
            TxProposal {
                tx: Tx { proto, fee, tombstone_block },
                input_txos,
                payload_txos,
                change_txos,
            },
        )
    }
}

impl UnsignedTxProposalJSON {
    /// Why this is not the JSON model of an unsigned proposal, if it is not:
    /// what is wrong with the first of its inputs, its payload outputs, its
    /// change outputs and its transaction that is not in order.
    pub open spec fn decode_failure(self) -> Option<TxProposalError> {
        or_else(
            unsigned_inputs_failure(self.unsigned_input_txos@),
            or_else(
                outputs_failure(self.payload_txos@),
                or_else(
                    outputs_failure(self.change_txos@),
                    hex_step(self.unsigned_tx_proto_bytes_hex@),
                ),
            ),
        )
    }

    /// Whether this is a JSON model of `proposal`, in digits of either case.
    pub open spec fn decodes_to(self, proposal: UnsignedTxProposal) -> bool {
        &&& proposal.unsigned_tx@ == hex_bytes(self.unsigned_tx_proto_bytes_hex@)
        &&& unsigned_inputs_decode_to(self.unsigned_input_txos@, proposal.unsigned_input_txos@)
        &&& outputs_decode_to(self.payload_txos@, proposal.payload_txos@)
        &&& outputs_decode_to(self.change_txos@, proposal.change_txos@)
    }
}

impl UnsignedTxProposal {
    /// The unsigned proposal that `src` is a JSON model of. What the ledger's
    /// own encoding holds is left to the caller to decode.
    pub fn try_from(src: &UnsignedTxProposalJSON) -> (outcome: Result<
        UnsignedTxProposal,
        TxProposalError,
    >)
        ensures
            match outcome {
                Ok(proposal) => src.decode_failure() is None && src.decodes_to(proposal),
                Err(e) => src.decode_failure() == Some(e),
            },
    {
        let unsigned_input_txos: Vec<UnsignedInputTxo> = unsigned_inputs_from_json(
            &src.unsigned_input_txos,
        )?;
        let payload_txos: Vec<OutputTxo> = outputs_from_json(&src.payload_txos)?;
        let change_txos: Vec<OutputTxo> = outputs_from_json(&src.change_txos)?;
        let unsigned_tx: Vec<u8> = hex_field(&src.unsigned_tx_proto_bytes_hex)?;
        Ok(UnsignedTxProposal { unsigned_tx, unsigned_input_txos, payload_txos, change_txos })
    }
}

/// Why the entry `entry` of a map from outlays to outputs names no payload
/// output, if it names none. The entry holds the index of an outlay and the
/// index of an output of the transaction, both in decimal. What is wrong
/// with the first of these that is not in order is reported: the index of
/// the outlay, which must be a number and point into `outlays`; the index of
/// the output, which must be a number and point into `outputs`; the
/// confirmation number of the outlay, which must be there and have 32 bytes.
pub open spec fn outlay_entry_failure(
    outputs: Seq<Vec<u8>>,
    outlays: Seq<(String, u64)>,
    confirmation_numbers: Seq<Vec<u8>>,
    entry: (String, String),
) -> Option<TxProposalError> {
    let outlay = parsed_u64(entry.0@);
    let output = parsed_u64(entry.1@);
    if outlay is None {
        Some(TxProposalError::InvalidNumber)
    } else if outlay->0 >= outlays.len() {
        Some(TxProposalError::IndexOutOfRange)
    } else if output is None {
        Some(TxProposalError::InvalidNumber)
    } else if output->0 >= outputs.len() || outlay->0 >= confirmation_numbers.len() {
        Some(TxProposalError::IndexOutOfRange)
    } else if confirmation_numbers[outlay->0 as int].len() != CONFIRMATION_NUMBER_LEN {
        Some(
            TxProposalError::ConfirmationNumberLength(
                confirmation_numbers[outlay->0 as int].len() as usize,
            ),
        )
    } else {
        None
    }
}

/// Whether `txo` is the payload output that the entry `entry` names: the
/// output at the index of the output, for the receiver of the outlay at the
/// index of the outlay, worth the value of that outlay in MOB, with the
/// confirmation number of that outlay.
pub open spec fn is_payload_of_entry(
    txo: OutputTxo,
    outputs: Seq<Vec<u8>>,
    outlays: Seq<(String, u64)>,
    confirmation_numbers: Seq<Vec<u8>>,
    entry: (String, String),
) -> bool {
    let outlay = parsed_u64(entry.0@)->0 as int;
    let output = parsed_u64(entry.1@)->0 as int;
    &&& txo.tx_out@ == outputs[output]@
    &&& txo.recipient_public_address_b58 == outlays[outlay].0
    &&& txo.confirmation_number@ == confirmation_numbers[outlay]@
    &&& txo.amount == Amount { value: outlays[outlay].1, token_id: MOB_TOKEN_ID }
}

/// What is wrong with the first entry of `entries` that names no payload
/// output, if one names none.
pub open spec fn outlay_entries_failure(
    outputs: Seq<Vec<u8>>,
    outlays: Seq<(String, u64)>,
    confirmation_numbers: Seq<Vec<u8>>,
    entries: Seq<(String, String)>,
) -> Option<TxProposalError>
    decreases entries.len(),
{
    if entries.len() == 0 {
        None
    } else {
        or_else(
            outlay_entries_failure(outputs, outlays, confirmation_numbers, entries.drop_last()),
            outlay_entry_failure(outputs, outlays, confirmation_numbers, entries.last()),
        )
    }
}

/// A failure among the first entries is the failure among all of them.
proof fn lemma_outlay_entries_failure(
    outputs: Seq<Vec<u8>>,
    outlays: Seq<(String, u64)>,
    confirmation_numbers: Seq<Vec<u8>>,
    entries: Seq<(String, String)>,
    some: int,
)
    requires
        0 <= some <= entries.len(),
        outlay_entries_failure(outputs, outlays, confirmation_numbers, entries.take(some))
            is Some,
    ensures
        outlay_entries_failure(outputs, outlays, confirmation_numbers, entries)
            == outlay_entries_failure(outputs, outlays, confirmation_numbers, entries.take(some)),
    decreases entries.len() - some,
{
    if some == entries.len() {
        assert(entries.take(some) =~= entries);
    } else {
        assert(entries.take(some + 1).drop_last() =~= entries.take(some));
        lemma_outlay_entries_failure(outputs, outlays, confirmation_numbers, entries, some + 1);
    }
}

/// The payload outputs of a proposal that names its outlays: it lists the
/// outlays, their confirmation numbers, and a map from the index of each
/// outlay to the index of its output among `outputs`, the serialized outputs
/// of the transaction. Each outlay is a receiver's printable address with a
/// value in MOB. One payload output is returned for each entry of the map,
/// in order; or what is wrong with the first entry that names none.
pub fn payload_txos_from_outlays(
    outputs: &Vec<Vec<u8>>,
    outlays: &Vec<(String, u64)>,
    confirmation_numbers: &Vec<Vec<u8>>,
    outlay_index_to_tx_out_index: &Vec<(String, String)>,
) -> (outcome: Result<Vec<OutputTxo>, TxProposalError>)
    ensures
        match outcome {
            Ok(txos) => {
                &&& outlay_entries_failure(
                    outputs@,
                    outlays@,
                    confirmation_numbers@,
                    outlay_index_to_tx_out_index@,
                ) is None
                &&& txos.len() == outlay_index_to_tx_out_index.len()
                &&& forall|k: int|
                    0 <= k < txos.len() ==> is_payload_of_entry(
                        #[trigger] txos[k],
                        outputs@,
                        outlays@,
                        confirmation_numbers@,
                        outlay_index_to_tx_out_index[k],
                    )
            },
            Err(e) => outlay_entries_failure(
                outputs@,
                outlays@,
                confirmation_numbers@,
                outlay_index_to_tx_out_index@,
            ) == Some(e),
        },
{
    let ghost entries = outlay_index_to_tx_out_index@;
    let mut txos: Vec<OutputTxo> = Vec::new();
    let mut k: usize = 0;
    while k < outlay_index_to_tx_out_index.len()
        invariant
            k <= outlay_index_to_tx_out_index.len(),
            entries == outlay_index_to_tx_out_index@,
            txos.len() == k,
            outlay_entries_failure(
                outputs@,
                outlays@,
                confirmation_numbers@,
                entries.take(k as int),
            ) is None,
            forall|j: int|
                0 <= j < k ==> is_payload_of_entry(
                    #[trigger] txos[j],
                    outputs@,
                    outlays@,
                    confirmation_numbers@,
                    entries[j],
                ),
        decreases outlay_index_to_tx_out_index.len() - k,
    {
        proof {
            assert(entries.take(k + 1).drop_last() =~= entries.take(k as int));
            assert(entries.take(k + 1).last() == entries[k as int]);
        }
        let entry = &outlay_index_to_tx_out_index[k];
        let failure: Option<TxProposalError> = match parse_u64(entry.0.as_str()) {
            None => Some(TxProposalError::InvalidNumber),
            Some(outlay) => {
                if outlay >= outlays.len() as u64 {
                    Some(TxProposalError::IndexOutOfRange)
                } else {
                    match parse_u64(entry.1.as_str()) {
                        None => Some(TxProposalError::InvalidNumber),
                        Some(output) => {
                            if output >= outputs.len() as u64 || outlay
                                >= confirmation_numbers.len() as u64 {
                                Some(TxProposalError::IndexOutOfRange)
                            } else {
                                let outlay_index: usize = outlay as usize;
                                let confirmation_number = &confirmation_numbers[outlay_index];
                                if confirmation_number.len() != CONFIRMATION_NUMBER_LEN {
                                    Some(
                                        TxProposalError::ConfirmationNumberLength(
                                            confirmation_number.len(),
                                        ),
                                    )
                                } else {
                                    txos.push(
                                        OutputTxo {
                                            tx_out: outputs[output as usize].clone(),
                                            recipient_public_address_b58: outlays[outlay_index].0
                                                .clone(),
                                            confirmation_number: confirmation_number.clone(),
                                            amount: Amount {
                                                value: outlays[outlay_index].1,
                                                token_id: MOB_TOKEN_ID,
                                            },
                                        },
                                    );
                                    None
                                }
                            }
                        },
                    }
                }
            },
        };
        assert(failure == outlay_entry_failure(
            outputs@,
            outlays@,
            confirmation_numbers@,
            entries[k as int],
        ));
        match failure {
            Some(e) => {
                proof {
                    lemma_outlay_entries_failure(
                        outputs@,
                        outlays@,
                        confirmation_numbers@,
                        entries,
                        k + 1,
                    );
                }
                return Err(e);
            },
            None => {},
        }
        k = k + 1;
    }
    proof {
        assert(entries.take(k as int) =~= entries);
    }
    Ok(txos)
}

/// The hexadecimal form of bytes is read back as the bytes.
proof fn lemma_hex_text_round_trip(text: Seq<char>, bytes: Seq<u8>)
    requires
        text == hex_encoding(bytes),
    ensures
        hex_step(text) is None,
        hex_bytes(text) == bytes,
{
    lemma_hex_round_trip(bytes);
    if exists|e: HexError| hex_decoded(bytes_of(text), Err(e)) {
        let e = choose|e: HexError| hex_decoded(bytes_of(text), Err(e));
        lemma_hex_error_unique(bytes_of(text), e, e);
    }
}

/// What was written of an amount is read back as the amount.
pub proof fn lemma_amount_round_trip(json: AmountJSON, amount: Amount)
    requires
        json.is_json_of(amount),
    ensures
        json.decode_failure() is None,
        json.decoded() == amount,
{
    lemma_decimal_round_trip(amount.value);
    lemma_decimal_round_trip(amount.token_id);
}

/// What was written of an input is read back as the input.
pub proof fn lemma_input_round_trip(json: InputTxoJSON, txo: InputTxo)
    requires
        json.is_json_of(txo),
    ensures
        json.decode_failure() is None,
        json.decodes_to(txo),
{
    lemma_hex_text_round_trip(json.key_image@, txo.key_image@);
    lemma_hex_text_round_trip(json.tx_out_proto@, txo.tx_out@);
    lemma_decimal_round_trip(txo.subaddress_index);
    lemma_amount_round_trip(json.amount, txo.amount);
}

/// What was written of an output with a confirmation number of 32 bytes is
/// read back as the output.
pub proof fn lemma_output_round_trip(json: OutputTxoJSON, txo: OutputTxo)
    requires
        json.is_json_of(txo),
        txo.confirmation_number.len() == CONFIRMATION_NUMBER_LEN,
    ensures
        json.decode_failure() is None,
        json.decodes_to(txo),
{
    lemma_hex_text_round_trip(json.confirmation_number@, txo.confirmation_number@);
    lemma_hex_text_round_trip(json.tx_out_proto@, txo.tx_out@);
    lemma_amount_round_trip(json.amount, txo.amount);
}

/// Whether every output of `txos` has a confirmation number of 32 bytes.
pub open spec fn confirmed(txos: Seq<OutputTxo>) -> bool {
    forall|i: int|
        0 <= i < txos.len() ==> (#[trigger] txos[i]).confirmation_number.len()
            == CONFIRMATION_NUMBER_LEN
}

/// What was written of inputs is read back as the inputs.
proof fn lemma_inputs_round_trip(jsons: Seq<InputTxoJSON>, txos: Seq<InputTxo>)
    requires
        inputs_json_of(jsons, txos),
    ensures
        inputs_failure(jsons) is None,
        inputs_decode_to(jsons, txos),
    decreases jsons.len(),
{
    if jsons.len() > 0 {
        lemma_inputs_round_trip(jsons.drop_last(), txos.drop_last());
        lemma_input_round_trip(jsons.last(), txos.last());
        assert forall|i: int| 0 <= i < jsons.len() implies (#[trigger] jsons[i]).decodes_to(
            txos[i],
        ) by {
            lemma_input_round_trip(jsons[i], txos[i]);
        }
    }
}

/// What was written of outputs is read back as the outputs.
proof fn lemma_outputs_round_trip(jsons: Seq<OutputTxoJSON>, txos: Seq<OutputTxo>)
    requires
        outputs_json_of(jsons, txos),
        confirmed(txos),
    ensures
        outputs_failure(jsons) is None,
        outputs_decode_to(jsons, txos),
    decreases jsons.len(),
{
    if jsons.len() > 0 {
        assert forall|i: int| 0 <= i < txos.len() - 1 implies (#[trigger] txos.drop_last()[i])
            .confirmation_number.len() == CONFIRMATION_NUMBER_LEN by {
            assert(txos.drop_last()[i] == txos[i]);
        }
        lemma_outputs_round_trip(jsons.drop_last(), txos.drop_last());
        lemma_output_round_trip(jsons.last(), txos.last());
        assert forall|i: int| 0 <= i < jsons.len() implies (#[trigger] jsons[i]).decodes_to(
            txos[i],
        ) by {
            lemma_output_round_trip(jsons[i], txos[i]);
        }
    }
}

/// What was written of a proposal whose confirmation numbers have 32 bytes is
/// read back as the proposal.
pub proof fn lemma_proposal_round_trip(json: TxProposalJSON, proposal: TxProposal)
    requires
        json.is_json_of(proposal),
        confirmed(proposal.payload_txos@),
        confirmed(proposal.change_txos@),
    ensures
        json.decode_failure() is None,
        json.decodes_to(proposal),
{
    lemma_hex_text_round_trip(json.tx_proto@, proposal.tx.proto@);
    lemma_inputs_round_trip(json.input_txos@, proposal.input_txos@);
    lemma_outputs_round_trip(json.payload_txos@, proposal.payload_txos@);
    lemma_outputs_round_trip(json.change_txos@, proposal.change_txos@);
    lemma_amount_round_trip(json.fee_amount, proposal.tx.fee);
    lemma_decimal_round_trip(proposal.tx.tombstone_block);
}

} // verus!
