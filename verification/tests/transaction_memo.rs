use wallet_core::error::{HexError, WalletTransactionBuilderError};
use wallet_core::transaction_memo::{TransactionMemo, BURN_REDEMPTION_MEMO_DATA_LEN};

#[test]
fn a_burn_redemption_memo_carries_64_bytes() {
    assert_eq!(BURN_REDEMPTION_MEMO_DATA_LEN, 64);
    assert_eq!(
        TransactionMemo::burn_redemption(None),
        Ok(TransactionMemo::BurnRedemption([0; 64]))
    );
    let text = "000102030405060708090a0b0c0d0e0f101112131415161718191A1B1C1D1E1F\
                202122232425262728292a2b2c2d2e2f30313233343536373839fafbfcfdfeFF";
    let mut expected = [0u8; 64];
    for (i, byte) in expected.iter_mut().enumerate() {
        *byte = i as u8;
    }
    expected[58] = 0xfa;
    expected[59] = 0xfb;
    expected[60] = 0xfc;
    expected[61] = 0xfd;
    expected[62] = 0xfe;
    expected[63] = 0xff;
    assert_eq!(
        TransactionMemo::burn_redemption(Some(text)),
        Ok(TransactionMemo::BurnRedemption(expected))
    );
}

#[test]
fn a_burn_redemption_memo_of_another_length_is_refused() {
    assert_eq!(
        TransactionMemo::burn_redemption(Some("")),
        Err(WalletTransactionBuilderError::InvalidBurnRedemptionMemo(0))
    );
    assert_eq!(
        TransactionMemo::burn_redemption(Some(&"0".repeat(127))),
        Err(WalletTransactionBuilderError::InvalidBurnRedemptionMemo(127))
    );
    assert_eq!(
        TransactionMemo::burn_redemption(Some(&"0".repeat(130))),
        Err(WalletTransactionBuilderError::InvalidBurnRedemptionMemo(130))
    );
}

#[test]
fn a_burn_redemption_memo_must_be_hexadecimal() {
    let mut text = "0".repeat(128);
    text.replace_range(77..78, "g");
    text.replace_range(100..101, "x");
    assert_eq!(
        TransactionMemo::burn_redemption(Some(&text)),
        Err(WalletTransactionBuilderError::FromHexError(HexError::InvalidHexCharacter {
            c: 'g',
            index: 77
        }))
    );
}
