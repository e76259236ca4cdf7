use wallet_core::error::{LedgerServiceError, WalletTransactionBuilderError};
use wallet_core::mixin::{get_rings, nth_free_index, sample_mixins};
use wallet_core::ring::RING_SIZE;

fn assert_sample(sampled: &[u64], count: usize, excluded: &[u64], num_txos: u64) {
    assert_eq!(sampled.len(), count);
    for (i, index) in sampled.iter().enumerate() {
        assert!(*index < num_txos);
        assert!(!excluded.contains(index));
        assert!(!sampled[..i].contains(index));
    }
}

#[test]
fn nth_free_index_skips_what_is_taken() {
    assert_eq!(nth_free_index(&vec![], 0), 0);
    assert_eq!(nth_free_index(&vec![], 41), 41);
    let taken = vec![0, 1, 4, 6, 7];
    assert_eq!(nth_free_index(&taken, 0), 2);
    assert_eq!(nth_free_index(&taken, 1), 3);
    assert_eq!(nth_free_index(&taken, 2), 5);
    assert_eq!(nth_free_index(&taken, 3), 8);
    assert_eq!(nth_free_index(&taken, 10), 15);
    assert_eq!(nth_free_index(&vec![3], 2), 2);
    assert_eq!(nth_free_index(&vec![3], 3), 4);
    assert_eq!(nth_free_index(&vec![u64::MAX], u64::MAX - 1), u64::MAX - 1);
}

#[test]
fn sampling_all_free_indices_gives_each_once() {
    for _ in 0..50 {
        let excluded = vec![2, 5, 8, 9];
        let mut sampled = sample_mixins(6, &excluded, 10).unwrap();
        assert_sample(&sampled, 6, &excluded, 10);
        sampled.sort();
        assert_eq!(sampled, vec![0, 1, 3, 4, 6, 7]);
    }
}

#[test]
fn samples_are_distinct_and_not_excluded() {
    for round in 0..100u64 {
        let excluded: Vec<u64> = (0..10).map(|i| (i * 7 + round) % 40).collect();
        let sampled = sample_mixins(25, &excluded, 40).unwrap();
        assert_sample(&sampled, 25, &excluded, 40);
    }
    assert_eq!(sample_mixins(0, &vec![], 0), Ok(vec![]));
    assert_eq!(sample_mixins(1, &vec![], 1), Ok(vec![0]));
}

#[test]
fn every_free_index_is_drawn_sometimes() {
    let mut seen = [false; 10];
    for _ in 0..2000 {
        let sampled = sample_mixins(1, &vec![3], 10).unwrap();
        seen[sampled[0] as usize] = true;
    }
    for (index, was_seen) in seen.iter().enumerate() {
        assert_eq!(*was_seen, index != 3);
    }
}

#[test]
fn sample_mixins_checks_the_ledger_size() {
    match sample_mixins(1, &vec![1, 2, 3], 2) {
        Err(LedgerServiceError::InvalidArgument(message)) => {
            assert_eq!(message, "excluded_tx_out_indices exceeds amount of tx outs in ledger")
        }
        other => panic!("Unexpected outcome {:?}", other),
    }
    assert_eq!(sample_mixins(3, &vec![0], 3), Err(LedgerServiceError::InsufficientTxOuts));
    assert_eq!(sample_mixins(1, &vec![0, 1, 2], 3), Err(LedgerServiceError::InsufficientTxOuts));
    assert_eq!(sample_mixins(0, &vec![0, 1, 2], 3), Ok(vec![]));
    let sampled = sample_mixins(2, &vec![0], 3).unwrap();
    assert_sample(&sampled, 2, &[0], 3);
}

#[test]
fn get_rings_checks_the_ledger_size() {
    match get_rings(1, &vec![1, 2, 3], 2) {
        Err(WalletTransactionBuilderError::InvalidArgument(message)) => {
            assert_eq!(message, "excluded_tx_out_indices exceeds amount of tx outs in ledger")
        }
        other => panic!("Unexpected outcome {:?}", other),
    }
    assert_eq!(
        get_rings(1, &vec![5], RING_SIZE as u64),
        Err(WalletTransactionBuilderError::InsufficientTxOuts)
    );
    assert_eq!(
        get_rings(2, &vec![], 2 * RING_SIZE as u64 - 1),
        Err(WalletTransactionBuilderError::InsufficientTxOuts)
    );
    assert_eq!(get_rings(0, &vec![], 0), Ok(vec![]));
}

#[test]
fn get_rings_deals_distinct_indices_to_rings_of_the_ring_size() {
    assert_eq!(RING_SIZE, 11);
    for _ in 0..30 {
        let excluded = vec![0, 17, 30];
        let num_txos = 3 * RING_SIZE as u64 + 3;
        let rings = get_rings(3, &excluded, num_txos).unwrap();
        assert_eq!(rings.len(), 3);
        let mut all: Vec<u64> = Vec::new();
        for ring in rings.iter() {
            assert_eq!(ring.len(), RING_SIZE);
            all.extend(ring.iter());
        }
        assert_sample(&all, 3 * RING_SIZE, &excluded, num_txos);
    }
}

#[test]
fn excluded_indices_may_repeat_or_lie_beyond_the_ledger() {
    for _ in 0..50 {
        let excluded = vec![2, 5, 5, 900];
        let mut sampled = sample_mixins(4, &excluded, 8).unwrap();
        assert_sample(&sampled, 4, &excluded, 8);
        sampled.sort();
        assert!(sampled.iter().all(|index| [0, 1, 3, 4, 6, 7].contains(index)));
    }
    // The room is counted by the length of the list, as it is given.
    assert_eq!(sample_mixins(5, &vec![2, 5, 5, 900], 8), Err(LedgerServiceError::InsufficientTxOuts));
}
