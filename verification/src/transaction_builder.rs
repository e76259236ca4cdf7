//! A builder of transactions in the context of the wallet: it gathers the
//! inputs, the recipients, the fee and the tombstone, and decides what the
//! transaction holds. The signer's transaction builder, one level lower, makes
//! a transaction of the plan once all of its materials are there.

use std::collections::BTreeMap;
use vstd::prelude::*;
use crate::amount::{
    lemma_total_for_bound, sum_for_token, total_for, total_value, Amount, MOB_MINIMUM_FEE,
    MOB_TOKEN_ID,
};
use crate::error::WalletTransactionBuilderError;
use crate::ring::{
    count_occurrences, lemma_merged_ring_others, lemma_ring_integrity, merge_real_input,
    merged_ring, occurrences, real_position, RingMember, RingMemberView, RING_SIZE,
};
use crate::settlement::{
    balanced, is_change, lemma_change_balances, requested, settle, settlement_failure,
    touched_token_list, touched_tokens,
};
use crate::sorted::{ascending, lemma_ascending_is};
use crate::transaction_memo::TransactionMemo;
use crate::txo::{amounts_of, bytes_equal, txo_amounts, PublicAddress, Txo, TxoView};
use crate::utxo_selector::{
    lemma_selection_is, select_spendable_txos_for_value, selection_failure, selection_for,
};

verus! {

/// The number of blocks after the newest one for which a transaction stays
/// valid where no tombstone is asked for.
pub const DEFAULT_NEW_TX_BLOCK_ATTEMPTS: u64 = 10;

/// A value of a token that a recipient is to get.
#[derive(Debug, PartialEq, Eq)]
pub struct Outlay {
    pub recipient: PublicAddress,
    pub value: u64,
    pub token_id: u64,
}

impl Clone for Outlay {
    fn clone(&self) -> (copy: Self)
        ensures
            copy == *self,
    {
        Outlay { recipient: self.recipient.clone(), value: self.value, token_id: self.token_id }
    }
}

impl Outlay {
    /// What the recipient gets.
    pub open spec fn amount(self) -> Amount {
        Amount { value: self.value, token_id: self.token_id }
    }
}

/// The amounts of a list of outlays, in order.
pub open spec fn outlay_amounts(outlays: Seq<Outlay>) -> Seq<Amount> {
    outlays.map_values(|o: Outlay| o.amount())
}

/// One input of a planned transaction: the ring that hides the spent output,
/// the place of that output in the ring, and the subaddress that owns it.
#[derive(Debug, PartialEq, Eq)]
pub struct PlannedInput {
    pub ring: Vec<RingMember>,
    pub real_index: usize,
    pub subaddress_index: u64,
}

/// What a [`PlannedInput`] holds.
pub struct PlannedInputView {
    pub ring: Seq<RingMemberView>,
    pub real_index: usize,
    pub subaddress_index: u64,
}

impl View for PlannedInput {
    type V = PlannedInputView;

    open spec fn view(&self) -> PlannedInputView {
        PlannedInputView {
            ring: self.ring.deep_view(),
            real_index: self.real_index,
            subaddress_index: self.subaddress_index,
        }
    }
}

impl DeepView for PlannedInput {
    type V = PlannedInputView;

    open spec fn deep_view(&self) -> PlannedInputView {
        self@
    }
}

/// What the builder decided: everything that the signer's transaction builder
/// needs to make the unsigned transaction.
#[derive(Debug, PartialEq, Eq)]
pub struct TransactionPlan {
    /// The block version to build for; `None` stands for the newest.
    pub block_version: Option<u32>,
    pub fee: Amount,
    pub tombstone_block: u64,
    pub memo: TransactionMemo,
    /// One ring for each spent output, in the order of the builder's inputs.
    pub inputs: Vec<PlannedInput>,
    /// One output for each recipient, in the order in which they were added.
    pub outputs: Vec<Outlay>,
    /// One change output for each token of the inputs, in ascending order of
    /// the tokens. It goes to the account's change subaddress.
    pub change: Vec<Amount>,
}

/// What a [`TransactionPlan`] holds.
pub struct TransactionPlanView {
    pub block_version: Option<u32>,
    pub fee: Amount,
    pub tombstone_block: u64,
    pub memo: TransactionMemo,
    pub inputs: Seq<PlannedInputView>,
    pub outputs: Seq<Outlay>,
    pub change: Seq<Amount>,
}

impl View for TransactionPlan {
    type V = TransactionPlanView;

    open spec fn view(&self) -> TransactionPlanView {
        TransactionPlanView {
            block_version: self.block_version,
            fee: self.fee,
            tombstone_block: self.tombstone_block,
            memo: self.memo,
            inputs: self.inputs.deep_view(),
            outputs: self.outputs@,
            change: self.change@,
        }
    }
}

/// The input that is planned for the owned output `txo`, with the proof
/// `proof` that the ledger holds it, hidden in the sampled ring `ring`.
pub open spec fn planned_input(txo: TxoView, proof: Seq<u8>, ring: Seq<RingMemberView>)
    -> PlannedInputView {
    let own = RingMemberView { tx_out: txo.txo, membership_proof: proof };
    PlannedInputView {
        ring: merged_ring(ring, own),
        real_index: real_position(ring, own) as usize,
        subaddress_index: match txo.subaddress_index {
            Some(index) => index,
            None => 0,
        },
    }
}

/// Whether the sampled ring `ring` fits the input at `at` of `inputs`: it has
/// the ring size, it holds the output that is spent at most once, and it
/// holds no other output that the transaction spends.
pub open spec fn ring_fits(ring: Seq<RingMemberView>, inputs: Seq<TxoView>, at: int) -> bool {
    &&& ring.len() == RING_SIZE
    &&& occurrences(ring, inputs[at].txo) <= 1
    &&& forall|j: int|
        0 <= j < inputs.len() && (#[trigger] inputs[j]).txo != inputs[at].txo ==> occurrences(
            ring,
            inputs[j].txo,
        ) == 0
}

/// Whether the planned input `input` hides the output at `at` of `inputs` as
/// it must: its ring has the ring size, it holds the output that is spent in
/// exactly one place, which is the real index, and it holds no other output
/// that the transaction spends.
pub open spec fn hides(input: PlannedInputView, inputs: Seq<TxoView>, at: int) -> bool {
    &&& input.ring.len() == RING_SIZE
    &&& input.real_index < RING_SIZE
    &&& input.ring[input.real_index as int].tx_out == inputs[at].txo
    &&& occurrences(input.ring, inputs[at].txo) == 1
    &&& forall|j: int|
        0 <= j < inputs.len() && (#[trigger] inputs[j]).txo != inputs[at].txo ==> occurrences(
            input.ring,
            inputs[j].txo,
        ) == 0
}

/// An input that is planned with a sampled ring that fits it hides the output
/// that is spent as it must.
pub proof fn lemma_planned_input_integrity(
    inputs: Seq<TxoView>,
    at: int,
    proof: Seq<u8>,
    ring: Seq<RingMemberView>,
)
    requires
        0 <= at < inputs.len(),
        ring_fits(ring, inputs, at),
    ensures
        hides(planned_input(inputs[at], proof, ring), inputs, at),
{
    let own = RingMemberView { tx_out: inputs[at].txo, membership_proof: proof };
    lemma_ring_integrity(ring, own);
    assert forall|j: int|
        0 <= j < inputs.len() && (#[trigger] inputs[j]).txo != inputs[at].txo implies occurrences(
        merged_ring(ring, own),
        inputs[j].txo,
    ) == 0 by {
        lemma_merged_ring_others(ring, own, inputs[j].txo);
    }
}

/// The least fee that may be paid in the token `token_id`: for MOB, the least
/// fee of the protocol; for another token, the minimum fee of the network as
/// `network_fees` hold it, and never nothing.
pub open spec fn least_fee(network_fees: Map<u64, u64>, token_id: u64) -> u64 {
    if token_id == MOB_TOKEN_ID {
        MOB_MINIMUM_FEE
    } else if network_fees.contains_key(token_id) && network_fees[token_id] >= 1 {
        network_fees[token_id]
    } else {
        1
    }
}

/// The outputs among `txos` that have not been spent, in order.
pub open spec fn unspent(txos: Seq<TxoView>) -> Seq<TxoView> {
    txos.filter(|t: TxoView| t.is_unspent())
}

/// The fog report URLs of those of `addresses` that name one, in order.
pub open spec fn fog_report_urls(addresses: Seq<PublicAddress>) -> Seq<String> {
    addresses.filter(|a: PublicAddress| a.has_fog()).map_values(
        |a: PublicAddress| a.fog_report_url,
    )
}

/// What is selected from `txos` for the tokens `tokens`, one after the other:
/// the selections for what is asked of each token, in the order of the
/// tokens; or the failure of the first token that has no selection.
pub open spec fn select_for_tokens(
    txos: Seq<TxoView>,
    max_spendable_value: Option<u64>,
    outlays: Seq<Amount>,
    fee: Amount,
    tokens: Seq<u64>,
) -> Result<Seq<TxoView>, WalletTransactionBuilderError>
    decreases tokens.len(),
{
    if tokens.len() == 0 {
        Ok(Seq::empty())
    } else {
        match select_for_tokens(txos, max_spendable_value, outlays, fee, tokens.drop_last()) {
            Err(e) => Err(e),
            Ok(selected) => {
                let token = tokens.last();
                let target = requested(outlays, fee, token) as u64;
                match selection_failure(txos, target, max_spendable_value, token) {
                    Some(e) => Err(WalletTransactionBuilderError::WalletDb(e)),
                    None => Ok(
                        selected + selection_for(txos, target, max_spendable_value, token),
                    ),
                }
            },
        }
    }
}

/// A builder of transactions constructed from this wallet.
pub struct WalletTransactionBuilder {
    /// The id of the account, hex-encoded, from which to construct a transaction.
    account_id_hex: String,
    /// The owned outputs to spend.
    inputs: Vec<Txo>,
    /// The recipients of this transaction, with what each one gets.
    outlays: Vec<Outlay>,
    /// The block after which this transaction is invalid; 0 while it is not set.
    tombstone: u64,
    /// The fee of the transaction; `None` stands for the least fee in MOB.
    fee: Option<Amount>,
    /// The block version of the transaction; `None` stands for the newest.
    block_version: Option<u32>,
}

/// What a [`WalletTransactionBuilder`] holds.
pub struct BuilderView {
    pub account_id_hex: Seq<char>,
    pub inputs: Seq<TxoView>,
    pub outlays: Seq<Outlay>,
    pub tombstone: u64,
    pub fee: Option<Amount>,
    pub block_version: Option<u32>,
}

impl BuilderView {
    /// The fee that the transaction pays: the one set, else the least fee in MOB.
    pub open spec fn fee_amount(self) -> Amount {
        match self.fee {
            Some(fee) => fee,
            None => Amount { value: MOB_MINIMUM_FEE, token_id: MOB_TOKEN_ID },
        }
    }

    /// The tokens of which something is asked, in ascending order.
    pub open spec fn requested_tokens(self) -> Seq<u64> {
        ascending(touched_tokens(Seq::empty(), outlay_amounts(self.outlays), self.fee_amount()))
    }

    /// Whether more than `u64::MAX` is asked of some token.
    pub open spec fn asks_too_much(self) -> bool {
        exists|t: u64| requested(outlay_amounts(self.outlays), self.fee_amount(), t) > u64::MAX
    }

    /// What is selected from `txos`, the account's recorded outputs, to cover
    /// what is asked of every token; or why nothing is.
    pub open spec fn selection(self, txos: Seq<TxoView>, max_spendable_value: Option<u64>)
        -> Result<Seq<TxoView>, WalletTransactionBuilderError> {
        if self.asks_too_much() {
            Err(WalletTransactionBuilderError::OutboundValueTooLarge)
        } else {
            select_for_tokens(
                txos,
                max_spendable_value,
                outlay_amounts(self.outlays),
                self.fee_amount(),
                self.requested_tokens(),
            )
        }
    }

    /// Why the builder is not ready to build on a ledger of
    /// `num_blocks_in_ledger` blocks, if it is not. The first of these that
    /// is not in order is reported: the tombstone, which must be set; the
    /// inputs, of which there must be one; the recipients, of which there
    /// must be one; and the tombstone once more, which must be above the
    /// ledger's number of blocks.
    pub open spec fn readiness_failure(self, num_blocks_in_ledger: u64) -> Option<
        WalletTransactionBuilderError,
    > {
        if self.tombstone == 0 {
            Some(WalletTransactionBuilderError::TombstoneNotSet)
        } else if self.inputs.len() == 0 {
            Some(WalletTransactionBuilderError::NoInputs)
        } else if self.outlays.len() == 0 {
            Some(WalletTransactionBuilderError::NoRecipient)
        } else if self.tombstone <= num_blocks_in_ledger {
            Some(WalletTransactionBuilderError::TombstoneNotSet)
        } else {
            None
        }
    }

    /// Whether `proofs` membership proofs and the sampled rings `rings` fit
    /// the inputs: there is one proof and one ring for each input, and every
    /// ring fits the input that it is for. The rings are handed out from the
    /// last one backwards.
    pub open spec fn rings_fit(self, proofs: nat, rings: Seq<Seq<RingMemberView>>) -> bool {
        &&& proofs == self.inputs.len()
        &&& rings.len() == self.inputs.len()
        &&& forall|k: int|
            0 <= k < rings.len() ==> ring_fits(
                #[trigger] rings[k],
                self.inputs,
                self.inputs.len() - 1 - k,
            )
    }

    /// Why a build on a ledger of `num_blocks_in_ledger` blocks, with `proofs`
    /// membership proofs and the sampled rings `rings`, fails, if it does.
    pub open spec fn build_failure(
        self,
        num_blocks_in_ledger: u64,
        proofs: nat,
        rings: Seq<Seq<RingMemberView>>,
    ) -> Option<WalletTransactionBuilderError> {
        if self.readiness_failure(num_blocks_in_ledger) is Some {
            self.readiness_failure(num_blocks_in_ledger)
        } else if !self.rings_fit(proofs, rings) {
            Some(WalletTransactionBuilderError::RingSizeMismatch)
        } else {
            settlement_failure(
                amounts_of(self.inputs),
                outlay_amounts(self.outlays),
                self.fee_amount(),
            )
        }
    }
}

impl View for WalletTransactionBuilder {
    type V = BuilderView;

    closed spec fn view(&self) -> BuilderView {
        BuilderView {
            account_id_hex: self.account_id_hex@,
            inputs: self.inputs.deep_view(),
            outlays: self.outlays@,
            tombstone: self.tombstone,
            fee: self.fee,
            block_version: self.block_version,
        }
    }
}

/// Copies of the outlays in `outlays`, in order.
fn clone_outlays(outlays: &Vec<Outlay>) -> (copies: Vec<Outlay>)
    ensures
        copies@ == outlays@,
{
    let mut copies: Vec<Outlay> = Vec::new();
    let mut i: usize = 0;
    while i < outlays.len()
        invariant
            i <= outlays.len(),
            copies.len() == i,
            forall|j: int| 0 <= j < i ==> copies[j] == outlays[j],
        decreases outlays.len() - i,
    {
        copies.push(outlays[i].clone());
        i = i + 1;
    }
    assert(copies@ =~= outlays@);
    copies
}

/// The amounts of the outlays in `outlays`, in order.
fn amounts_of_outlays(outlays: &Vec<Outlay>) -> (amounts: Vec<Amount>)
    ensures
        amounts@ == outlay_amounts(outlays@),
{
    let mut amounts: Vec<Amount> = Vec::new();
    let mut i: usize = 0;
    while i < outlays.len()
        invariant
            i <= outlays.len(),
            amounts.len() == i,
            forall|j: int| 0 <= j < i ==> amounts[j] == outlays[j].amount(),
        decreases outlays.len() - i,
    {
        amounts.push(Amount { value: outlays[i].value, token_id: outlays[i].token_id });
        i = i + 1;
    }
    assert(amounts@ =~= outlay_amounts(outlays@));
    amounts
}

/// Hides each input in its ring. The rings are handed out from the last one
/// backwards: the first input gets the last ring.
fn assemble_inputs(
    inputs: &Vec<Txo>,
    input_proofs: &Vec<Vec<u8>>,
    rings: Vec<Vec<RingMember>>,
) -> (planned: Vec<PlannedInput>)
    requires
        input_proofs.len() == inputs.len(),
        rings.len() == inputs.len(),
    ensures
        planned.len() == inputs.len(),
        forall|i: int|
            0 <= i < inputs.len() ==> (#[trigger] planned[i])@ == planned_input(
                inputs[i]@,
                input_proofs[i]@,
                rings[inputs.len() - 1 - i].deep_view(),
            ),
{
    let ghost sampled = rings@;
    let mut rings = rings;
    let mut planned: Vec<PlannedInput> = Vec::new();
    let mut i: usize = 0;
    while i < inputs.len()
        invariant
            i <= inputs.len(),
            input_proofs.len() == inputs.len(),
            sampled.len() == inputs.len(),
            planned.len() == i,
            rings@ == sampled.take(inputs.len() - i),
            forall|j: int|
                0 <= j < i ==> (#[trigger] planned[j])@ == planned_input(
                    inputs[j]@,
                    input_proofs[j]@,
                    sampled[inputs.len() - 1 - j].deep_view(),
                ),
        decreases inputs.len() - i,
    {
        let popped: Option<Vec<RingMember>> = rings.pop();
        let mut ring: Vec<RingMember> = match popped {
            Some(ring) => ring,
            None => Vec::new(),
        };
        assert(ring == sampled[inputs.len() - 1 - i]);
        let own = RingMember {
            tx_out: inputs[i].txo.clone(),
            membership_proof: input_proofs[i].clone(),
        };
        let real_index: usize = merge_real_input(&mut ring, own);
        let subaddress_index: u64 = match inputs[i].subaddress_index {
            Some(index) => index,
            None => 0,
        };
        planned.push(PlannedInput { ring, real_index, subaddress_index });
        proof {
            assert(rings@ =~= sampled.take(inputs.len() - (i + 1)));
        }
        i = i + 1;
    }
    planned
}

impl WalletTransactionBuilder {
    /// A builder for the account `account_id_hex`, with nothing set.
    pub fn new(account_id_hex: String) -> (builder: Self)
        ensures
            builder@ == (BuilderView {
                account_id_hex: account_id_hex@,
                inputs: Seq::empty(),
                outlays: Seq::empty(),
                tombstone: 0,
                fee: None,
                block_version: None,
            }),
    {
        let builder = WalletTransactionBuilder {
            account_id_hex,
            inputs: Vec::new(),
            outlays: Vec::new(),
            tombstone: 0,
            fee: None,
            block_version: None,
        };
        assert(builder.inputs.deep_view() =~= Seq::<TxoView>::empty());
        builder
    }

    /// The id of the account that the builder spends from.
    pub fn account_id_hex(&self) -> (id: &String)
        ensures
            id@ == self@.account_id_hex,
    {
        &self.account_id_hex
    }

    /// The owned outputs that the transaction spends.
    pub fn inputs(&self) -> (inputs: &Vec<Txo>)
        ensures
            inputs.deep_view() == self@.inputs,
    {
        &self.inputs
    }

    /// The recipients, in the order in which they were added.
    pub fn outlays(&self) -> (outlays: &Vec<Outlay>)
        ensures
            outlays@ == self@.outlays,
    {
        &self.outlays
    }

    /// The tombstone block; 0 while it is not set.
    pub fn tombstone(&self) -> (tombstone: u64)
        ensures
            tombstone == self@.tombstone,
    {
        self.tombstone
    }

    /// The fee that the transaction pays: the one set, else the least fee in MOB.
    pub fn fee(&self) -> (fee: Amount)
        ensures
            fee == self@.fee_amount(),
    {
        match self.fee {
            Some(fee) => fee,
            None => Amount { value: MOB_MINIMUM_FEE, token_id: MOB_TOKEN_ID },
        }
    }

    /// The block version that was set, if one was.
    pub fn block_version(&self) -> (block_version: Option<u32>)
        ensures
            block_version == self@.block_version,
    {
        self.block_version
    }

    /// Sets the inputs to those of `txos`, the wallet's records of the outputs
    /// that the caller named, that are unspent. Fails, and changes nothing,
    /// where they are worth more than `u64::MAX` together.
    pub fn set_txos(&mut self, txos: &Vec<Txo>) -> (outcome: Result<
        (),
        WalletTransactionBuilderError,
    >)
        ensures
            outcome is Ok <==> total_value(amounts_of(unspent(txos.deep_view()))) <= u64::MAX,
            outcome is Ok ==> final(self)@ == (BuilderView {
                inputs: unspent(txos.deep_view()),
                ..old(self)@
            }),
            outcome is Err ==> outcome == Err::<(), _>(
                WalletTransactionBuilderError::OutboundValueTooLarge,
            ) && final(self)@ == old(self)@,
    {
        let ghost given = txos.deep_view();
        let mut kept: Vec<Txo> = Vec::new();
        let mut sum: u128 = 0;
        let mut i: usize = 0;
        proof {
            reveal(Seq::filter);
            assert(kept.deep_view() =~= unspent(given.take(0)));
        }
        while i < txos.len()
            invariant
                i <= txos.len(),
                given == txos.deep_view(),
                kept.deep_view() == unspent(given.take(i as int)),
                sum == total_value(amounts_of(kept.deep_view())),
                sum <= i * u64::MAX,
            decreases txos.len() - i,
        {
            proof {
                assert(given.take(i + 1) =~= given.take(i as int).push(txos[i as int]@));
                lemma_unspent_push(given.take(i as int), txos[i as int]@);
            }
            if txos[i].spent_block_index.is_none() {
                let ghost before = kept.deep_view();
                sum = sum + txos[i].value as u128;
                kept.push(txos[i].clone());
                proof {
                    assert(kept.deep_view() =~= before.push(txos[i as int]@));
                    assert(amounts_of(kept.deep_view()).drop_last() =~= amounts_of(before));
                }
            }
            i = i + 1;
        }
        proof {
            assert(given.take(i as int) =~= given);
        }
        if sum > u64::MAX as u128 {
            return Err(WalletTransactionBuilderError::OutboundValueTooLarge);
        }
        self.inputs = kept;
        Ok(())
    }

    /// Selects the inputs from `txos`, the account's recorded outputs: for
    /// every token of which something is asked, the outlays and the fee, the
    /// least valuable unspent outputs that cover it, none of them worth more
    /// than `max_spendable_value`. Fails, and changes nothing, where more than
    /// `u64::MAX` is asked of a token, or where a token has no selection.
    pub fn select_txos(&mut self, txos: &Vec<Txo>, max_spendable_value: Option<u64>) -> (outcome:
        Result<(), WalletTransactionBuilderError>)
        ensures
            match outcome {
                Ok(()) => {
                    &&& old(self)@.selection(txos.deep_view(), max_spendable_value) == Ok::<
                        _,
                        WalletTransactionBuilderError,
                    >(final(self)@.inputs)
                    &&& final(self)@ == (BuilderView {
                        inputs: final(self)@.inputs,
                        ..old(self)@
                    })
                },
                Err(e) => {
                    &&& old(self)@.selection(txos.deep_view(), max_spendable_value) == Err::<
                        Seq<TxoView>,
                        _,
                    >(e)
                    &&& final(self)@ == old(self)@
                },
            },
            old(self)@.asks_too_much() ==> outcome == Err::<(), _>(
                WalletTransactionBuilderError::OutboundValueTooLarge,
            ),
    {
        let ghost records = txos.deep_view();
        let ghost builder = self@;
        let fee: Amount = self.fee();
        let asked: Vec<Amount> = amounts_of_outlays(&self.outlays);
        let none: Vec<Amount> = Vec::new();
        let tokens: Vec<u64> = touched_token_list(&none, &asked, fee);
        proof {
            assert(none@ =~= Seq::<Amount>::empty());
            lemma_ascending_is(tokens@, touched_tokens(Seq::empty(), asked@, fee));
            assert(asked.len() * u64::MAX <= u64::MAX * u64::MAX) by (nonlinear_arith)
                requires
                    asked.len() <= u64::MAX,
            ;
            assert(outlays_len_bound(asked@.len()));
        }
        let mut targets: Vec<u64> = Vec::new();
        let mut k: usize = 0;
        while k < tokens.len()
            invariant
                k <= tokens.len(),
                targets.len() == k,
                outlays_len_bound(asked@.len()),
                self@ == builder,
                asked@ == outlay_amounts(builder.outlays),
                fee == builder.fee_amount(),
                forall|j: int|
                    0 <= j < k ==> (#[trigger] targets[j]) == requested(asked@, fee, tokens[j]),
            decreases tokens.len() - k,
        {
            let token: u64 = tokens[k];
            proof {
                lemma_total_for_bound(asked@, token);
            }
            let in_outlays: u128 = sum_for_token(&asked, token);
            let target: u128 = if fee.token_id == token {
                in_outlays + fee.value as u128
            } else {
                in_outlays
            };
            if target > u64::MAX as u128 {
                proof {
                    assert(requested(outlay_amounts(builder.outlays), builder.fee_amount(), token)
                        > u64::MAX);
                }
                return Err(WalletTransactionBuilderError::OutboundValueTooLarge);
            }
            targets.push(target as u64);
            k = k + 1;
        }
        proof {
            assert forall|t: u64| requested(asked@, fee, t) <= u64::MAX by {
                if touched_tokens(Seq::empty(), asked@, fee).contains(t) {
                    assert(tokens@.to_set().contains(t));
                    assert(tokens@.contains(t));
                    let j = choose|j: int| 0 <= j < tokens.len() && tokens[j] == t;
                    assert(targets[j] == requested(asked@, fee, tokens[j]));
                } else {
                    assert(!crate::amount::has_token(asked@, t));
                    crate::amount::lemma_total_for_absent(asked@, t);
                }
            }
            assert(!self@.asks_too_much());
        }
        let mut chosen: Vec<Txo> = Vec::new();
        let mut k: usize = 0;
        proof {
            assert(chosen.deep_view() =~= Seq::<TxoView>::empty());
            assert(tokens@.take(0) =~= Seq::<u64>::empty());
        }
        while k < tokens.len()
            invariant
                k <= tokens.len(),
                targets.len() == tokens.len(),
                records == txos.deep_view(),
                self@ == builder,
                asked@ == outlay_amounts(builder.outlays),
                fee == builder.fee_amount(),
                !builder.asks_too_much(),
                tokens@ == builder.requested_tokens(),
                forall|j: int|
                    0 <= j < tokens.len() ==> (#[trigger] targets[j]) == requested(
                        asked@,
                        fee,
                        tokens[j],
                    ),
                select_for_tokens(records, max_spendable_value, asked@, fee, tokens@.take(k as int))
                    == Ok::<_, WalletTransactionBuilderError>(chosen.deep_view()),
            decreases tokens.len() - k,
        {
            let ghost before = chosen.deep_view();
            proof {
                assert(tokens@.take(k + 1).drop_last() =~= tokens@.take(k as int));
                assert(tokens@.take(k + 1).last() == tokens[k as int]);
                assert(targets[k as int] == requested(asked@, fee, tokens[k as int]));
            }
            match select_spendable_txos_for_value(txos, targets[k], max_spendable_value, tokens[k]) {
                Err(e) => {
                    proof {
                        lemma_select_for_tokens_fails(
                            records,
                            max_spendable_value,
                            asked@,
                            fee,
                            tokens@,
                            k + 1,
                        );
                        assert(tokens@.take(tokens.len() as int) =~= tokens@);
                    }
                    return Err(WalletTransactionBuilderError::WalletDb(e));
                },
                Ok(selected) => {
                    let mut selected = selected;
                    let ghost part = selected.deep_view();
                    proof {
                        lemma_selection_is(
                            part,
                            records,
                            targets[k as int],
                            max_spendable_value,
                            tokens[k as int],
                        );
                    }
                    chosen.append(&mut selected);
                    proof {
                        assert(chosen.deep_view() =~= before + part);
                    }
                },
            }
            k = k + 1;
        }
        proof {
            assert(tokens@.take(k as int) =~= tokens@);
        }
        self.inputs = chosen;
        Ok(())
    }

    /// Adds a recipient. The same recipient may be added again and gets one
    /// output for each time. Fails, and changes nothing, where the outlays of
    /// the token would be worth more than `u64::MAX` together.
    pub fn add_recipient(&mut self, recipient: PublicAddress, value: u64, token_id: u64) -> (outcome:
        Result<(), WalletTransactionBuilderError>)
        ensures
            outcome is Ok <==> total_for(outlay_amounts(old(self)@.outlays), token_id) + value
                <= u64::MAX,
            outcome is Ok ==> final(self)@ == (BuilderView {
                outlays: old(self)@.outlays.push(Outlay { recipient, value, token_id }),
                ..old(self)@
            }),
            outcome is Err ==> outcome == Err::<(), _>(
                WalletTransactionBuilderError::OutboundValueTooLarge,
            ) && final(self)@ == old(self)@,
    {
        let amounts: Vec<Amount> = amounts_of_outlays(&self.outlays);
        let current: u128 = sum_for_token(&amounts, token_id);
        proof {
            lemma_total_for_bound(amounts@, token_id);
            assert(amounts.len() * u64::MAX <= u64::MAX * u64::MAX) by (nonlinear_arith)
                requires
                    amounts.len() <= u64::MAX,
            ;
        }
        if current + value as u128 > u64::MAX as u128 {
            return Err(WalletTransactionBuilderError::OutboundValueTooLarge);
        }
        self.outlays.push(Outlay { recipient, value, token_id });
        Ok(())
    }

    /// Sets the fee. `network_fees` holds the minimum fees of the network, by
    /// token. Fails, and changes nothing, where the fee is below the least fee
    /// of its token, which the error carries.
    pub fn set_fee(&mut self, fee: u64, token_id: u64, network_fees: &BTreeMap<u64, u64>) -> (outcome:
        Result<(), WalletTransactionBuilderError>)
        ensures
            outcome is Ok <==> fee >= least_fee(network_fees@, token_id),
            outcome is Ok ==> final(self)@ == (BuilderView {
                fee: Some(Amount { value: fee, token_id }),
                ..old(self)@
            }),
            outcome is Err ==> outcome == Err::<(), _>(
                WalletTransactionBuilderError::InsufficientFee(
                    least_fee(network_fees@, token_id),
                ),
            ) && final(self)@ == old(self)@,
    {
        broadcast use vstd::std_specs::btree::group_btree_axioms;

        let least: u64 = if token_id == MOB_TOKEN_ID {
            MOB_MINIMUM_FEE
        } else {
            match network_fees.get(&token_id) {
                Some(known) => if *known >= 1 {
                    *known
                } else {
                    1
                },
                None => 1,
            }
        };
        if fee < least {
            return Err(WalletTransactionBuilderError::InsufficientFee(least));
        }
        self.fee = Some(Amount { value: fee, token_id });
        Ok(())
    }

    /// Sets the block version to build for.
    pub fn set_block_version(&mut self, block_version: u32)
        ensures
            final(self)@ == (BuilderView { block_version: Some(block_version), ..old(self)@ }),
    {
        self.block_version = Some(block_version);
    }

    /// Sets the tombstone block. A `tombstone` of 0 asks for the default: the
    /// ledger's number of blocks, `num_blocks_in_ledger`, and ten more. Any
    /// other value is kept as it is; whether it is above the ledger's number
    /// of blocks is decided when the transaction is built.
    pub fn set_tombstone(&mut self, tombstone: u64, num_blocks_in_ledger: u64) -> (outcome: Result<
        (),
        WalletTransactionBuilderError,
    >)
        requires
            tombstone == 0 ==> num_blocks_in_ledger + DEFAULT_NEW_TX_BLOCK_ATTEMPTS <= u64::MAX,
        ensures
            outcome is Ok,
            final(self)@ == (BuilderView {
                tombstone: if tombstone > 0 {
                    tombstone
                } else {
                    (num_blocks_in_ledger + DEFAULT_NEW_TX_BLOCK_ATTEMPTS) as u64
                },
                ..old(self)@
            }),
    {
        let tombstone_block: u64 = if tombstone > 0 {
            tombstone
        } else {
            num_blocks_in_ledger + DEFAULT_NEW_TX_BLOCK_ATTEMPTS
        };
        self.tombstone = tombstone_block;
        Ok(())
    }

    /// The fog report URLs that a fog resolver for this transaction has to
    /// cover: that of the account's change address, then those of the
    /// recipients, each where the address names one.
    pub fn get_fog_resolver(&self, change_address: &PublicAddress) -> (urls: Vec<String>)
        ensures
            urls@ == fog_report_urls(
                seq![*change_address] + self@.outlays.map_values(|o: Outlay| o.recipient),
            ),
    {
        let ghost addresses = seq![*change_address] + self@.outlays.map_values(
            |o: Outlay| o.recipient,
        );
        let mut urls: Vec<String> = Vec::new();
        match extract_fog_uri(change_address) {
            Some(url) => {
                urls.push(url);
            },
            None => {},
        }
        proof {
            lemma_fog_first(*change_address);
            assert(addresses.take(1) =~= seq![*change_address]);
        }
        let mut i: usize = 0;
        while i < self.outlays.len()
            invariant
                i <= self.outlays.len(),
                addresses == seq![*change_address] + self.outlays@.map_values(
                    |o: Outlay| o.recipient,
                ),
                urls@ == fog_report_urls(addresses.take(i + 1)),
            decreases self.outlays.len() - i,
        {
            proof {
                assert(addresses.take(i + 2).drop_last() =~= addresses.take(i + 1));
                assert(addresses.take(i + 2).last() == self.outlays[i as int].recipient);
                lemma_fog_push(addresses.take(i + 1), self.outlays[i as int].recipient);
                assert(addresses.take(i + 1).push(self.outlays[i as int].recipient)
                    =~= addresses.take(i + 2));
            }
            match extract_fog_uri(&self.outlays[i].recipient) {
                Some(url) => {
                    urls.push(url);
                },
                None => {},
            }
            i = i + 1;
        }
        proof {
            assert(addresses.take(i + 1) =~= addresses);
        }
        urls
    }

    /// Whether the builder is ready to build on a ledger of
    /// `num_blocks_in_ledger` blocks: what a build would fail with before any
    /// ring is sampled.
    pub fn validate(&self, num_blocks_in_ledger: u64) -> (outcome: Result<
        (),
        WalletTransactionBuilderError,
    >)
        ensures
            match outcome {
                Ok(()) => self@.readiness_failure(num_blocks_in_ledger) is None,
                Err(e) => self@.readiness_failure(num_blocks_in_ledger) == Some(e),
            },
    {
        if self.tombstone == 0 {
            return Err(WalletTransactionBuilderError::TombstoneNotSet);
        }
        if self.inputs.len() == 0 {
            return Err(WalletTransactionBuilderError::NoInputs);
        }
        if self.outlays.len() == 0 {
            return Err(WalletTransactionBuilderError::NoRecipient);
        }
        if self.tombstone <= num_blocks_in_ledger {
            return Err(WalletTransactionBuilderError::TombstoneNotSet);
        }
        Ok(())
    }

    /// Whether `ring` fits the input at `at`.
    fn check_ring(&self, ring: &Vec<RingMember>, at: usize) -> (fit: bool)
        requires
            at < self@.inputs.len(),
        ensures
            fit == ring_fits(ring.deep_view(), self@.inputs, at as int),
    {
        let own = &self.inputs[at].txo;
        assert(self@.inputs[at as int] == self.inputs[at as int]@);
        if ring.len() != RING_SIZE || count_occurrences(ring, own) > 1 {
            return false;
        }
        let mut j: usize = 0;
        while j < self.inputs.len()
            invariant
                j <= self.inputs.len(),
                at < self.inputs.len(),
                own@ == self@.inputs[at as int].txo,
                forall|i: int|
                    0 <= i < j && (#[trigger] self@.inputs[i]).txo != own@ ==> occurrences(
                        ring.deep_view(),
                        self@.inputs[i].txo,
                    ) == 0,
            decreases self.inputs.len() - j,
        {
            let other = &self.inputs[j].txo;
            assert(self@.inputs[j as int] == self.inputs[j as int]@);
            if !bytes_equal(other, own) && count_occurrences(ring, other) > 0 {
                return false;
            }
            j = j + 1;
        }
        true
    }

    /// Whether every ring fits the input that it is for.
    fn check_rings(&self, rings: &Vec<Vec<RingMember>>) -> (fit: bool)
        requires
            rings.len() == self@.inputs.len(),
        ensures
            fit == self@.rings_fit(self@.inputs.len(), rings.deep_view()),
    {
        let ghost sampled = rings.deep_view();
        let count: usize = rings.len();
        let mut k: usize = 0;
        while k < count
            invariant
                k <= count,
                count == rings.len(),
                count == self@.inputs.len(),
                sampled == rings.deep_view(),
                forall|j: int|
                    0 <= j < k ==> ring_fits(#[trigger] sampled[j], self@.inputs, count - 1 - j),
            decreases count - k,
        {
            assert(sampled[k as int] == rings[k as int].deep_view());
            if !self.check_ring(&rings[k], count - 1 - k) {
                return false;
            }
            k = k + 1;
        }
        true
    }

    /// Decides what the transaction holds, on a ledger of
    /// `num_blocks_in_ledger` blocks. `input_proofs` holds, for each input in
    /// order, the proof that the ledger holds it; `rings` holds one sampled
    /// ring of decoys for each input. Either the whole plan is returned or
    /// one error: nothing is built in part.
    pub fn build(
        &self,
        memo: TransactionMemo,
        input_proofs: Vec<Vec<u8>>,
        rings: Vec<Vec<RingMember>>,
        num_blocks_in_ledger: u64,
    ) -> (outcome: Result<TransactionPlan, WalletTransactionBuilderError>)
        ensures
            match outcome {
                Ok(plan) => {
                    &&& self@.build_failure(
                        num_blocks_in_ledger,
                        input_proofs.len() as nat,
                        rings.deep_view(),
                    ) is None
                    &&& plan@.block_version == self@.block_version
                    &&& plan@.fee == self@.fee_amount()
                    &&& plan@.tombstone_block == self@.tombstone
                    &&& plan@.tombstone_block > num_blocks_in_ledger
                    &&& plan@.memo == memo
                    &&& plan@.outputs == self@.outlays
                    &&& plan@.inputs.len() == self@.inputs.len()
                    &&& forall|i: int|
                        0 <= i < self@.inputs.len() ==> #[trigger] plan@.inputs[i]
                            == planned_input(
                            self@.inputs[i],
                            input_proofs[i]@,
                            rings[self@.inputs.len() - 1 - i].deep_view(),
                        )
                    &&& forall|i: int|
                        0 <= i < self@.inputs.len() ==> hides(
                            #[trigger] plan@.inputs[i],
                            self@.inputs,
                            i,
                        )
                    &&& is_change(
                        plan@.change,
                        amounts_of(self@.inputs),
                        outlay_amounts(self@.outlays),
                        self@.fee_amount(),
                    )
                    &&& balanced(
                        amounts_of(self@.inputs),
                        outlay_amounts(plan@.outputs),
                        plan@.change,
                        plan@.fee,
                    )
                },
                Err(e) => self@.build_failure(
                    num_blocks_in_ledger,
                    input_proofs.len() as nat,
                    rings.deep_view(),
                ) == Some(e),
            },
    {
        self.validate(num_blocks_in_ledger)?;
        if input_proofs.len() != self.inputs.len() || rings.len() != self.inputs.len() {
            return Err(WalletTransactionBuilderError::RingSizeMismatch);
        }
        if !self.check_rings(&rings) {
            return Err(WalletTransactionBuilderError::RingSizeMismatch);
        }
        let ghost sampled = rings.deep_view();
        let fee: Amount = self.fee();
        let input_amounts: Vec<Amount> = txo_amounts(&self.inputs);
        let asked: Vec<Amount> = amounts_of_outlays(&self.outlays);
        let change: Vec<Amount> = match settle(&input_amounts, &asked, fee) {
            Ok(change) => change,
            Err(e) => {
                return Err(e);
            },
        };
        let inputs: Vec<PlannedInput> = assemble_inputs(&self.inputs, &input_proofs, rings);
        let outputs: Vec<Outlay> = clone_outlays(&self.outlays);
        proof {
            lemma_change_balances(change@, input_amounts@, asked@, fee);
        }
        let plan = TransactionPlan {
            block_version: self.block_version,
            fee,
            tombstone_block: self.tombstone,
            memo,
            inputs,
            outputs,
            change,
        };
        proof {
            let count = self@.inputs.len() as int;
            assert forall|i: int| 0 <= i < count implies #[trigger] plan@.inputs[i]
                == planned_input(
                self@.inputs[i],
                input_proofs[i]@,
                rings[count - 1 - i].deep_view(),
            ) && hides(plan@.inputs[i], self@.inputs, i) by {
                assert(plan@.inputs[i] == plan.inputs[i]@);
                assert(self@.inputs[i] == self.inputs[i]@);
                assert(sampled[count - 1 - i] == rings[count - 1 - i].deep_view());
                assert(ring_fits(sampled[count - 1 - i], self@.inputs, count - 1 - (count - 1 - i)));
                lemma_planned_input_integrity(
                    self@.inputs,
                    i,
                    input_proofs[i]@,
                    sampled[count - 1 - i],
                );
            }
        }
        Ok(plan)
    }
}

/// The fog report URL that `address` names, if it names one.
pub fn extract_fog_uri(address: &PublicAddress) -> (url: Option<String>)
    ensures
        url == if address.has_fog() {
            Some(address.fog_report_url)
        } else {
            None::<String>
        },
{
    if address.fog_report_url.as_str().unicode_len() > 0 {
        Some(address.fog_report_url.clone())
    } else {
        None
    }
}

/// The unspent outputs of a list with one more output at its end.
proof fn lemma_unspent_push(txos: Seq<TxoView>, last: TxoView)
    ensures
        unspent(txos.push(last)) == if last.is_unspent() {
            unspent(txos).push(last)
        } else {
            unspent(txos)
        },
{
    reveal(Seq::filter);
    assert(txos.push(last).drop_last() =~= txos);
}

/// The fog report URLs of a single address.
proof fn lemma_fog_first(address: PublicAddress)
    ensures
        fog_report_urls(seq![address]) == if address.has_fog() {
            seq![address.fog_report_url]
        } else {
            Seq::<String>::empty()
        },
{
    let pred = |a: PublicAddress| a.has_fog();
    reveal(Seq::filter);
    assert(seq![address].drop_last() =~= Seq::<PublicAddress>::empty());
    assert(Seq::<PublicAddress>::empty().filter(pred) =~= Seq::<PublicAddress>::empty());
    if address.has_fog() {
        assert(seq![address].filter(pred) =~= seq![address]);
        assert(fog_report_urls(seq![address]) =~= seq![address.fog_report_url]);
    } else {
        assert(seq![address].filter(pred) =~= Seq::<PublicAddress>::empty());
        assert(fog_report_urls(seq![address]) =~= Seq::<String>::empty());
    }
}

/// The fog report URLs of a list with one more address at its end.
proof fn lemma_fog_push(addresses: Seq<PublicAddress>, address: PublicAddress)
    ensures
        fog_report_urls(addresses.push(address)) == if address.has_fog() {
            fog_report_urls(addresses).push(address.fog_report_url)
        } else {
            fog_report_urls(addresses)
        },
{
    let pred = |a: PublicAddress| a.has_fog();
    reveal(Seq::filter);
    assert(addresses.push(address).drop_last() =~= addresses);
    if address.has_fog() {
        assert(addresses.push(address).filter(pred) =~= addresses.filter(pred).push(address));
        assert(fog_report_urls(addresses.push(address)) =~= fog_report_urls(addresses).push(
            address.fog_report_url,
        ));
    } else {
        assert(addresses.push(address).filter(pred) =~= addresses.filter(pred));
    }
}

/// Whether the totals of that many outlays fit in 128 bits with a fee added.
spec fn outlays_len_bound(len: nat) -> bool {
    len * u64::MAX + u64::MAX <= u128::MAX
}

/// A failure for some of the tokens is the failure for all of them.
proof fn lemma_select_for_tokens_fails(
    txos: Seq<TxoView>,
    max_spendable_value: Option<u64>,
    outlays: Seq<Amount>,
    fee: Amount,
    tokens: Seq<u64>,
    some: int,
)
    requires
        0 <= some <= tokens.len(),
        select_for_tokens(txos, max_spendable_value, outlays, fee, tokens.take(some)) is Err,
    ensures
        select_for_tokens(txos, max_spendable_value, outlays, fee, tokens) == select_for_tokens(
            txos,
            max_spendable_value,
            outlays,
            fee,
            tokens.take(some),
        ),
    decreases tokens.len() - some,
{
    if some == tokens.len() {
        assert(tokens.take(some) =~= tokens);
    } else {
        assert(tokens.take(some + 1).drop_last() =~= tokens.take(some));
        lemma_select_for_tokens_fails(txos, max_spendable_value, outlays, fee, tokens, some + 1);
    }
}

} // verus!
