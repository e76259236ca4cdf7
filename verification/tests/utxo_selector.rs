use wallet_core::error::{FundsShortfall, WalletDbError};
use wallet_core::txo::Txo;
use wallet_core::utxo_selector::select_spendable_txos_for_value;

fn txo(id: &str, value: u64, token_id: u64) -> Txo {
    Txo {
        id: id.to_string(),
        value,
        token_id,
        txo: id.as_bytes().to_vec(),
        subaddress_index: Some(1),
        key_image: None,
        spent_block_index: None,
    }
}

fn spent(id: &str, value: u64, token_id: u64) -> Txo {
    Txo { spent_block_index: Some(3), ..txo(id, value, token_id) }
}

fn ids(txos: &[Txo]) -> Vec<&str> {
    txos.iter().map(|t| t.id.as_str()).collect()
}

#[test]
fn least_valuable_outputs_are_spent_first() {
    let txos = vec![txo("a", 90, 0), txo("b", 70, 0), txo("c", 80, 0)];
    let selected = select_spendable_txos_for_value(&txos, 81, None, 0).unwrap();
    assert_eq!(ids(&selected), vec!["b", "c"]);
    assert_eq!(selected[0], txos[1]);
    let selected = select_spendable_txos_for_value(&txos, 70, None, 0).unwrap();
    assert_eq!(ids(&selected), vec!["b"]);
    let selected = select_spendable_txos_for_value(&txos, 151, None, 0).unwrap();
    assert_eq!(ids(&selected), vec!["b", "c", "a"]);
    let selected = select_spendable_txos_for_value(&txos, 240, None, 0).unwrap();
    assert_eq!(ids(&selected), vec!["b", "c", "a"]);
}

#[test]
fn outputs_of_one_value_keep_their_order() {
    let txos = vec![txo("a", 5, 0), txo("b", 3, 0), txo("c", 5, 0), txo("d", 3, 0), txo("e", 5, 0)];
    let selected = select_spendable_txos_for_value(&txos, 12, None, 0).unwrap();
    assert_eq!(ids(&selected), vec!["b", "d", "a", "c"]);
}

#[test]
fn a_target_of_zero_selects_nothing() {
    let txos = vec![txo("a", 5, 0)];
    assert_eq!(select_spendable_txos_for_value(&txos, 0, None, 0), Ok(vec![]));
    assert_eq!(
        select_spendable_txos_for_value(&vec![], 0, None, 0),
        Err(WalletDbError::NoSpendableTxos)
    );
}

#[test]
fn spent_outputs_and_other_tokens_are_left_out() {
    let txos = vec![spent("a", 1, 0), txo("b", 2, 1), txo("c", 50, 0), spent("d", 3, 0), txo("e", 60, 0)];
    let selected = select_spendable_txos_for_value(&txos, 51, None, 0).unwrap();
    assert_eq!(ids(&selected), vec!["c", "e"]);
    assert_eq!(
        select_spendable_txos_for_value(&txos, 111, None, 0),
        Err(WalletDbError::InsufficientFunds(FundsShortfall {
            token_id: 0,
            required: 111,
            available: 110
        }))
    );
    assert_eq!(
        select_spendable_txos_for_value(&txos, 1, None, 2),
        Err(WalletDbError::NoSpendableTxos)
    );
    assert_eq!(
        select_spendable_txos_for_value(&vec![spent("a", 9, 0)], 1, None, 0),
        Err(WalletDbError::NoSpendableTxos)
    );
}

#[test]
fn the_cap_leaves_outputs_out_altogether() {
    let txos = vec![txo("a", 70, 0), txo("b", 80, 0), txo("c", 90, 0)];
    assert_eq!(
        select_spendable_txos_for_value(&txos, 81, Some(10), 0),
        Err(WalletDbError::NoSpendableTxos)
    );
    assert_eq!(
        select_spendable_txos_for_value(&txos, 81, Some(70), 0),
        Err(WalletDbError::InsufficientFundsUnderMaxSpendable(FundsShortfall {
            token_id: 0,
            required: 81,
            available: 70
        }))
    );
    let selected = select_spendable_txos_for_value(&txos, 81, Some(80), 0).unwrap();
    assert_eq!(ids(&selected), vec!["a", "b"]);
    // An output at the cap may be spent, one above it may not.
    let selected = select_spendable_txos_for_value(&txos, 151, Some(90), 0).unwrap();
    assert_eq!(ids(&selected), vec!["a", "b", "c"]);
    assert_eq!(
        select_spendable_txos_for_value(&txos, 151, Some(89), 0),
        Err(WalletDbError::InsufficientFundsUnderMaxSpendable(FundsShortfall {
            token_id: 0,
            required: 151,
            available: 150
        }))
    );
    // Without the cap the funds would not reach either.
    assert_eq!(
        select_spendable_txos_for_value(&txos, 241, Some(80), 0),
        Err(WalletDbError::InsufficientFunds(FundsShortfall {
            token_id: 0,
            required: 241,
            available: 240
        }))
    );
}

#[test]
fn selected_values_may_exceed_u64_max_together() {
    let txos = vec![txo("a", u64::MAX, 0), txo("b", u64::MAX - 1, 0)];
    let selected = select_spendable_txos_for_value(&txos, u64::MAX, None, 0).unwrap();
    assert_eq!(ids(&selected), vec!["b", "a"]);
}
