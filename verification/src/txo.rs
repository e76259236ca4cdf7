//! The wallet's record of an output that it owns, and public addresses.

use vstd::prelude::*;
use crate::amount::Amount;

verus! {

/// Whether two byte strings hold the same bytes.
pub fn bytes_equal(a: &Vec<u8>, b: &Vec<u8>) -> (same: bool)
    ensures
        same == (a@ == b@),
{
    if a.len() != b.len() {
        return false;
    }
    let mut i: usize = 0;
    while i < a.len()
        invariant
            i <= a.len(),
            a.len() == b.len(),
            forall|j: int| 0 <= j < i ==> a[j] == b[j],
        decreases a.len() - i,
    {
        if a[i] != b[i] {
            return false;
        }
        i = i + 1;
    }
    assert(a@ =~= b@);
    true
}

/// A public address in its printable form, with the fog report URL that it
/// names. An address without fog has an empty URL.
#[derive(Debug, PartialEq, Eq)]
pub struct PublicAddress {
    pub b58: String,
    pub fog_report_url: String,
}

impl Clone for PublicAddress {
    fn clone(&self) -> (copy: Self)
        ensures
            copy == *self,
    {
        PublicAddress { b58: self.b58.clone(), fog_report_url: self.fog_report_url.clone() }
    }
}

impl PublicAddress {
    /// Whether the address names a fog report server.
    pub open spec fn has_fog(&self) -> bool {
        self.fog_report_url@.len() > 0
    }
}

/// An output that the wallet has recorded as owned by an account.
#[derive(Debug, PartialEq, Eq)]
pub struct Txo {
    /// The wallet's id of the output.
    pub id: String,
    pub value: u64,
    pub token_id: u64,
    /// The output as the ledger holds it, serialized.
    pub txo: Vec<u8>,
    /// The subaddress that the output was sent to; `None` while it is orphaned.
    pub subaddress_index: Option<u64>,
    /// The key image, once it has been computed.
    pub key_image: Option<Vec<u8>>,
    /// The block in which the output was spent; `None` while it is unspent.
    pub spent_block_index: Option<u64>,
}

/// What a [`Txo`] holds.
pub struct TxoView {
    pub id: Seq<char>,
    pub value: u64,
    pub token_id: u64,
    pub txo: Seq<u8>,
    pub subaddress_index: Option<u64>,
    pub key_image: Option<Seq<u8>>,
    pub spent_block_index: Option<u64>,
}

impl View for Txo {
    type V = TxoView;

    open spec fn view(&self) -> TxoView {
        TxoView {
            id: self.id@,
            value: self.value,
            token_id: self.token_id,
            txo: self.txo@,
            subaddress_index: self.subaddress_index,
            key_image: match self.key_image {
                Some(k) => Some(k@),
                None => None,
            },
            spent_block_index: self.spent_block_index,
        }
    }
}

impl DeepView for Txo {
    type V = TxoView;

    open spec fn deep_view(&self) -> TxoView {
        self@
    }
}

impl Clone for Txo {
    fn clone(&self) -> (copy: Self)
        ensures
            copy@ == self@,
    {
        let key_image: Option<Vec<u8>> = match &self.key_image {
            Some(k) => Some(k.clone()),
            None => None,
        };
        Txo {
            id: self.id.clone(),
            value: self.value,
            token_id: self.token_id,
            txo: self.txo.clone(),
            subaddress_index: self.subaddress_index,
            key_image,
            spent_block_index: self.spent_block_index,
        }
    }
}

impl TxoView {
    /// The value of the output as an amount of its token.
    pub open spec fn amount(self) -> Amount {
        Amount { value: self.value, token_id: self.token_id }
    }

    /// Whether the output has not been spent.
    pub open spec fn is_unspent(self) -> bool {
        self.spent_block_index is None
    }
}

/// The amounts of a list of outputs, in order.
pub open spec fn amounts_of(txos: Seq<TxoView>) -> Seq<Amount> {
    txos.map_values(|t: TxoView| t.amount())
}

/// The amounts of the outputs in `txos`, in order.
pub fn txo_amounts(txos: &Vec<Txo>) -> (amounts: Vec<Amount>)
    ensures
        amounts@ == amounts_of(txos.deep_view()),
{
    let mut amounts: Vec<Amount> = Vec::new();
    let mut i: usize = 0;
    while i < txos.len()
        invariant
            i <= txos.len(),
            amounts.len() == i,
            forall|j: int| 0 <= j < i ==> amounts[j] == txos[j]@.amount(),
        decreases txos.len() - i,
    {
        amounts.push(Amount { value: txos[i].value, token_id: txos[i].token_id });
        i = i + 1;
    }
    assert(amounts@ =~= amounts_of(txos.deep_view()));
    amounts
}

} // verus!
