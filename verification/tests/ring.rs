use wallet_core::ring::{count_occurrences, merge_real_input, RingMember};

fn member(tx_out: &str, proof: u8) -> RingMember {
    RingMember { tx_out: tx_out.as_bytes().to_vec(), membership_proof: vec![proof] }
}

#[test]
fn the_input_replaces_the_first_member() {
    let mut ring = vec![member("a", 1), member("b", 2), member("c", 3)];
    assert_eq!(merge_real_input(&mut ring, member("x", 9)), 0);
    assert_eq!(ring, vec![member("x", 9), member("b", 2), member("c", 3)]);
}

#[test]
fn the_input_is_appended_to_an_empty_ring() {
    let mut ring = vec![];
    assert_eq!(merge_real_input(&mut ring, member("x", 9)), 0);
    assert_eq!(ring, vec![member("x", 9)]);
}

#[test]
fn a_ring_that_holds_the_input_stays_as_it_is() {
    let mut ring = vec![member("a", 1), member("x", 2), member("c", 3), member("x", 4)];
    assert_eq!(merge_real_input(&mut ring, member("x", 9)), 1);
    assert_eq!(ring, vec![member("a", 1), member("x", 2), member("c", 3), member("x", 4)]);
    let mut ring = vec![member("x", 1)];
    assert_eq!(merge_real_input(&mut ring, member("x", 9)), 0);
    assert_eq!(ring, vec![member("x", 1)]);
}

#[test]
fn outputs_are_told_apart_by_all_their_bytes() {
    let mut ring = vec![member("xy", 1), member("", 2), member("y", 3)];
    assert_eq!(merge_real_input(&mut ring, member("x", 9)), 0);
    assert_eq!(ring, vec![member("x", 9), member("", 2), member("y", 3)]);
}

#[test]
fn occurrences_are_counted_by_the_output() {
    let ring = vec![member("a", 1), member("x", 2), member("c", 3), member("x", 4)];
    assert_eq!(count_occurrences(&ring, &b"x".to_vec()), 2);
    assert_eq!(count_occurrences(&ring, &b"a".to_vec()), 1);
    assert_eq!(count_occurrences(&ring, &b"".to_vec()), 0);
    assert_eq!(count_occurrences(&vec![], &b"x".to_vec()), 0);
}
