use wallet_core::amount::{contains_token, sum_for_token, Amount};
use wallet_core::error::{FundsShortfall, WalletTransactionBuilderError};
use wallet_core::settlement::{collect_tokens, settle, touched_token_list};

fn amounts(pairs: &[(u64, u64)]) -> Vec<Amount> {
    pairs.iter().map(|(value, token_id)| Amount::new(*value, *token_id)).collect()
}

#[test]
fn sums_are_taken_per_token() {
    let list = amounts(&[(1, 0), (u64::MAX, 3), (5, 0), (u64::MAX, 3), (7, 1)]);
    assert_eq!(sum_for_token(&list, 0), 6);
    assert_eq!(sum_for_token(&list, 1), 7);
    assert_eq!(sum_for_token(&list, 3), 2 * (u64::MAX as u128));
    assert_eq!(sum_for_token(&list, 2), 0);
    assert!(contains_token(&list, 3));
    assert!(!contains_token(&list, 2));
    assert!(!contains_token(&vec![], 0));
}

#[test]
fn tokens_are_listed_in_ascending_order() {
    let inputs = amounts(&[(1, 9), (1, 2), (1, 9)]);
    let outlays = amounts(&[(1, 4), (1, 2)]);
    assert_eq!(touched_token_list(&inputs, &outlays, Amount::new(1, 7)), vec![2, 4, 7, 9]);
    assert_eq!(touched_token_list(&vec![], &vec![], Amount::new(1, 7)), vec![7]);
    let mut tokens = vec![1, 5];
    collect_tokens(&mut tokens, &amounts(&[(0, 5), (0, 3), (0, 0), (0, 8), (0, 3)]));
    assert_eq!(tokens, vec![0, 1, 3, 5, 8]);
}

#[test]
fn change_is_what_the_inputs_exceed_the_asked_by() {
    let inputs = amounts(&[(10, 0), (20, 1), (30, 0)]);
    let outlays = amounts(&[(5, 1), (15, 0), (15, 1)]);
    assert_eq!(
        settle(&inputs, &outlays, Amount::new(3, 0)),
        Ok(amounts(&[(22, 0), (0, 1)]))
    );
}

#[test]
fn the_smallest_failing_token_decides() {
    let fee = Amount::new(3, 1);
    // Token 0 has inputs and nothing asked; token 1 is short.
    assert_eq!(
        settle(&amounts(&[(10, 0), (2, 1)]), &vec![], fee),
        Err(WalletTransactionBuilderError::MissingInputsForTokenId(0))
    );
    assert_eq!(
        settle(&amounts(&[(2, 1), (10, 2)]), &vec![], fee),
        Err(WalletTransactionBuilderError::InsufficientInputFunds(FundsShortfall {
            token_id: 1,
            required: 3,
            available: 2
        }))
    );
    assert_eq!(
        settle(&amounts(&[(3, 1)]), &amounts(&[(0, 2)]), fee),
        Err(WalletTransactionBuilderError::MissingInputsForTokenId(2))
    );
    assert_eq!(
        settle(&vec![], &vec![], fee),
        Err(WalletTransactionBuilderError::MissingInputsForTokenId(1))
    );
}

#[test]
fn totals_beyond_u64_max_are_too_large() {
    let fee = Amount::new(1, 0);
    assert_eq!(
        settle(&amounts(&[(u64::MAX, 0), (1, 0)]), &vec![], fee),
        Err(WalletTransactionBuilderError::OutboundValueTooLarge)
    );
    assert_eq!(
        settle(&amounts(&[(u64::MAX, 0)]), &amounts(&[(u64::MAX, 0)]), fee),
        Err(WalletTransactionBuilderError::OutboundValueTooLarge)
    );
    // Too large comes before missing, for one token.
    assert_eq!(
        settle(&amounts(&[(u64::MAX, 5), (u64::MAX, 5), (1, 0)]), &vec![], fee),
        Err(WalletTransactionBuilderError::OutboundValueTooLarge)
    );
    assert_eq!(
        settle(&amounts(&[(u64::MAX, 0)]), &amounts(&[(u64::MAX - 1, 0)]), fee),
        Ok(amounts(&[(0, 0)]))
    );
}
