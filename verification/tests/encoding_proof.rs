use espresso_core::encoding_proof::{
    check_bad_encoding_proof, collect_raw_shares, ends_namespace_search, namespace_search_result,
    NamespaceAttemptError, RawShareProofs,
};
use espresso_core::vid_ns::VidError;

fn ranged(start: usize, end: usize, proofs: Vec<&'static str>) -> RawShareProofs<&'static str> {
    RawShareProofs { range: start..end, mt_proofs: proofs }
}

#[test]
fn takes_exactly_threshold_pairs_in_order() {
    let shares = vec![ranged(0, 2, vec!["p0", "p1"]), ranged(2, 4, vec!["p2", "p3"])];
    assert_eq!(
        collect_raw_shares(shares, 10, 3),
        Ok(vec![(0, "p0"), (1, "p1"), (2, "p2")])
    );
}

#[test]
fn too_few_pairs() {
    let shares = vec![ranged(0, 2, vec!["p0", "p1"])];
    assert_eq!(collect_raw_shares(shares, 10, 3), Err(VidError::InsufficientShares));
}

#[test]
fn range_and_proofs_zip_to_the_shorter() {
    let shares = vec![ranged(0, 5, vec!["p0"]), ranged(5, 6, vec!["p5", "extra"])];
    assert_eq!(collect_raw_shares(shares, 10, 2), Ok(vec![(0, "p0"), (5, "p5")]));
}

#[test]
fn repeated_index_is_invalid() {
    let shares = vec![ranged(0, 2, vec!["a", "b"]), ranged(1, 3, vec!["c", "d"])];
    assert_eq!(collect_raw_shares(shares, 10, 4), Err(VidError::InvalidShare));
}

#[test]
fn index_beyond_total_weight_is_invalid() {
    let shares = vec![ranged(3, 5, vec!["a", "b"])];
    assert_eq!(collect_raw_shares(shares, 3, 2), Err(VidError::InvalidShare));
    // an index equal to the total weight passes this check
    let shares = vec![ranged(2, 4, vec!["a", "b"])];
    assert_eq!(collect_raw_shares(shares, 3, 2), Ok(vec![(2, "a"), (3, "b")]));
}

#[test]
fn pairs_after_the_threshold_are_not_examined() {
    let shares = vec![ranged(0, 2, vec!["a", "b"]), ranged(0, 1, vec!["dup"])];
    assert_eq!(collect_raw_shares(shares, 10, 2), Ok(vec![(0, "a"), (1, "b")]));
}

#[test]
fn bad_encoding_proof_shape() {
    // wrong number of raw shares
    assert_eq!(
        check_bad_encoding_proof(&vec![0, 1], 2, 4, 3, false, &vec![true, true]),
        Err(VidError::InvalidParam)
    );
    // polynomial of too high a degree
    assert_eq!(
        check_bad_encoding_proof(&vec![0, 1], 3, 4, 2, false, &vec![true, true]),
        Err(VidError::InvalidParam)
    );
    // re-encoding gives the committed root: the encoding was right
    assert_eq!(
        check_bad_encoding_proof(&vec![0, 1], 2, 4, 2, true, &vec![true, true]),
        Ok(false)
    );
}

#[test]
fn bad_encoding_proof_raw_shares() {
    assert_eq!(check_bad_encoding_proof(&vec![0, 3], 2, 4, 2, false, &vec![true, true]), Ok(true));
    // an index equal to the total weight is out of range here
    assert_eq!(
        check_bad_encoding_proof(&vec![0, 4], 2, 4, 2, false, &vec![true, true]),
        Err(VidError::InvalidShare)
    );
    assert_eq!(
        check_bad_encoding_proof(&vec![1, 1], 2, 4, 2, false, &vec![true, true]),
        Err(VidError::InvalidShare)
    );
    // a failing Merkle proof before a bad index makes the proof invalid
    assert_eq!(
        check_bad_encoding_proof(&vec![0, 9], 2, 4, 2, false, &vec![false, true]),
        Ok(false)
    );
    // a bad index before a failing Merkle proof is an error
    assert_eq!(
        check_bad_encoding_proof(&vec![9, 0], 2, 4, 2, false, &vec![true, false]),
        Err(VidError::InvalidShare)
    );
}

#[test]
fn namespace_search_stops_at_a_proof_or_a_fatal_error() {
    assert_eq!(namespace_search_result::<u8>(false, vec![Ok(1)]), Err(VidError::InsufficientShares));
    assert_eq!(
        namespace_search_result(true, vec![Err(NamespaceAttemptError::Other), Err(NamespaceAttemptError::Known(VidError::InvalidParam)), Ok(7u8), Ok(8)]),
        Ok(7)
    );
    assert_eq!(
        namespace_search_result::<u8>(true, vec![Err(NamespaceAttemptError::Other), Err(NamespaceAttemptError::Known(VidError::IndexOutOfBound)), Ok(8)]),
        Err(VidError::IndexOutOfBound)
    );
    assert_eq!(
        namespace_search_result::<u8>(true, vec![Err(NamespaceAttemptError::Other), Err(NamespaceAttemptError::Known(VidError::InvalidParam))]),
        Err(VidError::InvalidParam)
    );
    assert_eq!(namespace_search_result::<u8>(true, vec![]), Err(VidError::InvalidParam));
    assert!(ends_namespace_search::<u8>(&Err(NamespaceAttemptError::Known(VidError::InvalidShare))));
    assert!(!ends_namespace_search::<u8>(&Err(NamespaceAttemptError::Other)));
}
