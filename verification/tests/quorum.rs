use espresso_core::quorum::{
    check_threshold, select_quorum, select_signer, tally_signers, InsufficientWeight, U256,
};

fn w(x: u128) -> U256 {
    U256::from_u128(x)
}

#[test]
fn tally_counts_only_valid_signers() {
    let stakes = vec![w(10), w(20), w(30), w(40)];
    let valid = vec![true, false, true, false];
    let (bits, acc) = tally_signers(&stakes, &valid);
    assert_eq!(bits, valid);
    assert_eq!(acc, w(40));
}

#[test]
fn tally_empty_table() {
    let (bits, acc) = tally_signers(&vec![], &vec![]);
    assert!(bits.is_empty());
    assert_eq!(acc, U256::zero());
}

#[test]
fn threshold_reached_and_missed() {
    assert_eq!(check_threshold(w(40), w(40)), Ok(()));
    assert_eq!(check_threshold(w(41), w(40)), Ok(()));
    assert_eq!(
        check_threshold(w(39), w(40)),
        Err(InsufficientWeight { accumulated: w(39), threshold: w(40) })
    );
    let big = U256 { hi: 1, lo: 0 };
    assert_eq!(check_threshold(big, w(u128::MAX)), Ok(()));
    assert!(check_threshold(w(u128::MAX), big).is_err());
}

#[test]
fn select_signer_adds_stake_once() {
    let stakes = vec![w(5), w(7), w(11)];
    let mut bits = vec![false; 3];
    let mut acc = U256::zero();
    select_signer(&mut bits, &mut acc, &stakes, 1);
    assert_eq!(bits, vec![false, true, false]);
    assert_eq!(acc, w(7));
    select_signer(&mut bits, &mut acc, &stakes, 1);
    assert_eq!(acc, w(7));
    select_signer(&mut bits, &mut acc, &stakes, 2);
    assert_eq!(bits, vec![false, true, true]);
    assert_eq!(acc, w(18));
}

#[test]
fn everyone_signing_gives_total_stake() {
    let stakes = vec![w(3), w(0), w(9), w(1 << 100)];
    let (_, acc) = tally_signers(&stakes, &vec![true; 4]);
    assert_eq!(acc, w(3 + 9 + (1u128 << 100)));
    let (_, none) = tally_signers(&stakes, &vec![false; 4]);
    assert_eq!(none, U256::zero());
}

#[test]
fn sums_carry_past_128_bits() {
    let stakes = vec![w(u128::MAX), w(2), U256 { hi: 3, lo: u128::MAX }];
    let (_, acc) = tally_signers(&stakes, &vec![true; 3]);
    // (2^128 - 1) + 2 + (3 * 2^128 + 2^128 - 1) = 5 * 2^128
    assert_eq!(acc, U256 { hi: 5, lo: 0 });
    assert_eq!(w(1).add(w(u128::MAX)), U256 { hi: 1, lo: 0 });
    assert!(w(1).lt(&U256 { hi: 1, lo: 0 }));
    assert!(!U256 { hi: 1, lo: 0 }.lt(&w(u128::MAX)));
}

#[test]
fn quorum_draws_stop_at_the_threshold() {
    let stakes = vec![w(5), w(7), w(11)];
    let (bits, acc, used) = select_quorum(&stakes, w(12), &vec![1, 1, 0, 2, 2]);
    assert_eq!(bits, vec![true, true, false]);
    assert_eq!(acc, w(12));
    assert_eq!(used, 3);
    let (bits, acc, used) = select_quorum(&stakes, w(100), &vec![2, 0]);
    assert_eq!(bits, vec![true, false, true]);
    assert_eq!(acc, w(16));
    assert_eq!(used, 2);
    let (bits, acc, used) = select_quorum(&stakes, w(0), &vec![2]);
    assert_eq!(bits, vec![false, false, false]);
    assert_eq!(acc, w(0));
    assert_eq!(used, 0);
}
