use std::collections::BTreeMap;
use wallet_core::amount::{Amount, MOB_MINIMUM_FEE, MOB_TOKEN_ID};
use wallet_core::ledger::{get_network_block_height, get_network_block_version, get_network_fees};

#[test]
fn the_height_is_one_more_than_the_newest_index() {
    assert_eq!(get_network_block_height(None), Ok(0));
    assert_eq!(get_network_block_height(Some(0)), Ok(1));
    assert_eq!(get_network_block_height(Some(12)), Ok(13));
    assert_eq!(get_network_block_height(Some(u64::MAX - 1)), Ok(u64::MAX));
}

#[test]
fn mob_always_has_at_least_the_least_fee() {
    assert_eq!(MOB_TOKEN_ID, 0);
    assert_eq!(MOB_MINIMUM_FEE, 400_000_000);
    assert_eq!(get_network_fees(&vec![]), BTreeMap::from([(MOB_TOKEN_ID, MOB_MINIMUM_FEE)]));
    assert_eq!(
        get_network_fees(&vec![Amount::new(3, MOB_TOKEN_ID)]),
        BTreeMap::from([(MOB_TOKEN_ID, MOB_MINIMUM_FEE)])
    );
    assert_eq!(
        get_network_fees(&vec![Amount::new(MOB_MINIMUM_FEE + 1, MOB_TOKEN_ID)]),
        BTreeMap::from([(MOB_TOKEN_ID, MOB_MINIMUM_FEE + 1)])
    );
}

#[test]
fn the_highest_reported_fee_of_each_token_counts() {
    let reported = vec![
        Amount::new(1024, 2),
        Amount::new(500_000_000, 0),
        Amount::new(7, 9),
        Amount::new(2048, 2),
        Amount::new(450_000_000, 0),
        Amount::new(0, 5),
        Amount::new(512, 2),
    ];
    assert_eq!(
        get_network_fees(&reported),
        BTreeMap::from([(0, 500_000_000), (2, 2048), (5, 0), (9, 7)])
    );
}

#[test]
fn the_newest_supported_version_that_is_reported_counts() {
    assert_eq!(get_network_block_version(&vec![], 3), 3);
    assert_eq!(get_network_block_version(&vec![1, 2, 1], 3), 2);
    assert_eq!(get_network_block_version(&vec![0], 3), 0);
    assert_eq!(get_network_block_version(&vec![3, 0], 3), 3);
    assert_eq!(get_network_block_version(&vec![2, 4], 3), 3);
}
