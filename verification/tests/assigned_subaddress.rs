use wallet_core::assigned_subaddress::{
    create_next_for_account, find_by_subaddress_spend_public_key, owns_output,
    repair_orphaned_txo, OrphanSighting,
};
use wallet_core::error::WalletDbError;
use wallet_core::txo::Txo;

fn orphan(id: &str) -> Txo {
    Txo {
        id: id.to_string(),
        value: 10,
        token_id: 0,
        txo: id.as_bytes().to_vec(),
        subaddress_index: None,
        key_image: None,
        spent_block_index: None,
    }
}

fn sighting(key: u8, key_image: Option<u8>, spent: Option<u64>) -> OrphanSighting {
    OrphanSighting {
        recovered_spend_public_key: vec![key; 32],
        key_image: key_image.map(|k| vec![k; 32]),
        spent_block_index: spent,
    }
}

#[test]
fn an_owned_orphan_gets_the_subaddress_and_its_key_image() {
    let key = vec![7u8; 32];
    assert!(owns_output(&sighting(7, None, None), &key));
    assert!(!owns_output(&sighting(8, None, None), &key));
    let repaired = repair_orphaned_txo(&orphan("a"), &sighting(7, Some(1), None), 5, &key);
    assert_eq!(
        repaired,
        Txo { subaddress_index: Some(5), key_image: Some(vec![1; 32]), ..orphan("a") }
    );
    // Where the ledger has seen the key image, the output is marked spent.
    let repaired = repair_orphaned_txo(&orphan("a"), &sighting(7, Some(1), Some(44)), 5, &key);
    assert_eq!(
        repaired,
        Txo {
            subaddress_index: Some(5),
            key_image: Some(vec![1; 32]),
            spent_block_index: Some(44),
            ..orphan("a")
        }
    );
}

#[test]
fn a_view_only_account_learns_the_subaddress_only() {
    let key = vec![7u8; 32];
    let repaired = repair_orphaned_txo(&orphan("a"), &sighting(7, None, Some(44)), 5, &key);
    assert_eq!(repaired, Txo { subaddress_index: Some(5), ..orphan("a") });
}

#[test]
fn other_outputs_stay_as_they_are() {
    let key = vec![7u8; 32];
    assert_eq!(
        repair_orphaned_txo(&orphan("a"), &sighting(8, Some(1), Some(44)), 5, &key),
        orphan("a")
    );
    let labeled = Txo { subaddress_index: Some(2), ..orphan("b") };
    assert_eq!(repair_orphaned_txo(&labeled, &sighting(7, Some(1), Some(44)), 5, &key), labeled);
}

#[test]
fn repairing_twice_is_repairing_once() {
    let key = vec![7u8; 32];
    let orphans = vec![orphan("a"), orphan("b"), orphan("c"), orphan("d")];
    let sightings =
        vec![sighting(7, Some(1), Some(3)), sighting(9, Some(2), None), sighting(7, None, None)];
    let (index, once) = create_next_for_account(false, 5, &key, &orphans, &sightings).unwrap();
    assert_eq!(index, 5);
    assert_eq!(
        once,
        vec![
            Txo {
                subaddress_index: Some(5),
                key_image: Some(vec![1; 32]),
                spent_block_index: Some(3),
                ..orphan("a")
            },
            orphan("b"),
            Txo { subaddress_index: Some(5), ..orphan("c") },
            orphan("d"),
        ]
    );
    let (_, twice) = create_next_for_account(false, 5, &key, &once, &sightings).unwrap();
    assert_eq!(twice, once);
    // Nor does a later subaddress take what has been attributed.
    let later =
        vec![sighting(7, Some(8), Some(9)), sighting(9, None, None), sighting(7, Some(8), None)];
    let (_, next) = create_next_for_account(false, 6, &key, &once, &later).unwrap();
    assert_eq!(next, once);
}

#[test]
fn fog_accounts_get_no_further_subaddress() {
    assert_eq!(
        create_next_for_account(true, 5, &vec![7; 32], &vec![orphan("a")], &vec![]),
        Err(WalletDbError::SubaddressesNotSupportedForFOGEnabledAccounts)
    );
}

#[test]
fn exactly_one_entry_must_match() {
    let key = "key".to_string();
    assert_eq!(
        find_by_subaddress_spend_public_key(&vec![], &key),
        Err(WalletDbError::AssignedSubaddressNotFound("key".to_string()))
    );
    assert_eq!(
        find_by_subaddress_spend_public_key(&vec![(3, "account".to_string())], &key),
        Ok((3, "account".to_string()))
    );
    assert_eq!(
        find_by_subaddress_spend_public_key(
            &vec![(3, "account".to_string()), (4, "other".to_string())],
            &key
        ),
        Err(WalletDbError::DuplicateEntries("key".to_string()))
    );
}

#[test]
fn a_record_that_is_marked_spent_is_never_changed() {
    let key = vec![7u8; 32];
    let spent = Txo { spent_block_index: Some(2), ..orphan("a") };
    assert_eq!(repair_orphaned_txo(&spent, &sighting(7, Some(1), Some(44)), 5, &key), spent);
    assert_eq!(repair_orphaned_txo(&spent, &sighting(7, None, None), 5, &key), spent);
}
