//! The memo policy of a transaction.

use vstd::prelude::*;
use vstd::string::StringSliceAdditionalSpecFns;
use crate::encoding::{hex_decode, hex_decoded, hex_decoding, hex_value, is_hex};
use crate::error::{HexError, WalletTransactionBuilderError};

verus! {

/// The length in bytes of the data that a burn redemption memo carries.
pub const BURN_REDEMPTION_MEMO_DATA_LEN: usize = 64;

/// How the outputs of a transaction get their memos. Exactly one policy is
/// active per build.
#[derive(Clone, Copy, Debug, PartialEq, Eq)]
pub enum TransactionMemo {
    /// Recoverable transaction history memos.
    RTH,
    /// Burn redemption memos, which carry 64 bytes of redemption data.
    BurnRedemption([u8; 64]),
}

impl TransactionMemo {
    /// The policy of burn redemption memos with the redemption data that
    /// `redemption_memo_hex` spells in hexadecimal, which must be exactly 128
    /// digits, for 64 bytes; without a text, with 64 zero bytes.
    pub fn burn_redemption(redemption_memo_hex: Option<&str>) -> (outcome: Result<
        TransactionMemo,
        WalletTransactionBuilderError,
    >)
        ensures
            match outcome {
                Ok(TransactionMemo::BurnRedemption(data)) => match redemption_memo_hex {
                    None => data@ == Seq::new(64, |i: int| 0u8),
                    Some(text) => {
                        &&& text.spec_bytes().len() == 2 * BURN_REDEMPTION_MEMO_DATA_LEN
                        &&& is_hex(text.spec_bytes())
                        &&& data@ == hex_decoding(text.spec_bytes())
                    },
                },
                Ok(TransactionMemo::RTH) => false,
                Err(WalletTransactionBuilderError::InvalidBurnRedemptionMemo(length)) => {
                    &&& redemption_memo_hex matches Some(text)
                    &&& text.spec_bytes().len() != 2 * BURN_REDEMPTION_MEMO_DATA_LEN
                    &&& length == text.spec_bytes().len()
                },
                Err(WalletTransactionBuilderError::FromHexError(e)) => {
                    &&& redemption_memo_hex matches Some(text)
                    &&& text.spec_bytes().len() == 2 * BURN_REDEMPTION_MEMO_DATA_LEN
                    &&& !is_hex(text.spec_bytes())
                    &&& hex_decoded(text.spec_bytes(), Err(e))
                },
                Err(_) => false,
            },
    {
        let mut data: [u8; 64] = [0u8; 64];
        match redemption_memo_hex {
            None => {
                assert(data@ =~= Seq::new(64, |i: int| 0u8));
            },
            Some(text) => {
                let digits: &[u8] = text.as_bytes();
                if digits.len() != 2 * BURN_REDEMPTION_MEMO_DATA_LEN {
                    return Err(
                        WalletTransactionBuilderError::InvalidBurnRedemptionMemo(digits.len()),
                    );
                }
                let bytes: Vec<u8> = match hex_decode(digits) {
                    Ok(bytes) => bytes,
                    Err(e) => {
                        proof {
                            if let HexError::InvalidHexCharacter { c, index } = e {
                                assert(hex_value(digits@[index as int]) is None);
                            }
                        }
                        return Err(WalletTransactionBuilderError::FromHexError(e));
                    },
                };
                let mut i: usize = 0;
                while i < BURN_REDEMPTION_MEMO_DATA_LEN
                    invariant
                        i <= BURN_REDEMPTION_MEMO_DATA_LEN,
                        bytes.len() == BURN_REDEMPTION_MEMO_DATA_LEN,
                        forall|j: int| 0 <= j < i ==> data[j] == bytes[j],
                    decreases BURN_REDEMPTION_MEMO_DATA_LEN - i,
                {
                    data[i] = bytes[i];
                    i = i + 1;
                }
                assert(data@ =~= bytes@);
            },
        }
        Ok(TransactionMemo::BurnRedemption(data))
    }
}

} // verus!
