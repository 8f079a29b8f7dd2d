use espresso_core::vid_ns::{
    AvidMCommit, AvidMNsProof, AvidMNsProofV1, AvidMShare, IncorrectEncodingProof, NsAvidMScheme,
    NsAvidMShare, NsProof, VidError,
};
use espresso_core::vid_ns::recovered_payload;

fn commit(b: u8) -> AvidMCommit {
    AvidMCommit { commit: [b; 32] }
}

fn share(index: u32, len: usize, content: &str) -> AvidMShare<String> {
    AvidMShare { index, payload_byte_len: len, content: content.to_string() }
}

/// Two namespaces dispersed to three storage nodes.
fn sample() -> Vec<NsAvidMShare<String>> {
    let ns_lens = vec![15usize, 33];
    let ns_commits = vec![commit(1), commit(2)];
    let disperses = vec![
        vec![share(0, 15, "a0"), share(1, 15, "a1"), share(2, 15, "a2")],
        vec![share(0, 33, "b0"), share(1, 33, "b1"), share(2, 33, "b2")],
    ];
    NsAvidMScheme::assemble_shares(&ns_lens, &ns_commits, disperses)
}

#[test]
fn assemble_transposes_namespaces() {
    let shares = sample();
    assert_eq!(shares.len(), 3);
    for (j, s) in shares.iter().enumerate() {
        assert_eq!(s.num_nss(), 2);
        assert_eq!(s.ns_lens(), &[15, 33][..]);
        assert_eq!(s.ns_commits(), &[commit(1), commit(2)][..]);
        assert_eq!(s.payload_byte_len(), 48);
        let inner = s.inner_ns_share(1).unwrap();
        assert_eq!(inner.content, format!("b{j}"));
        assert_eq!(inner.payload_byte_len, 33);
        // every node carries its own index
        assert_eq!(inner.index, j as u32);
    }
}

#[test]
fn assemble_skips_missing_shares() {
    let disperses = vec![vec![share(4, 1, "x0"), share(5, 1, "x1")], vec![share(4, 2, "y0")]];
    let shares = NsAvidMScheme::assemble_shares(&vec![1, 2], &vec![commit(0), commit(9)], disperses);
    assert_eq!(shares.len(), 2);
    assert!(shares[0].contains_ns(1));
    assert!(!shares[1].contains_ns(1));
    assert_eq!(shares[1].inner_ns_share(1), None);
    assert_eq!(shares[0].inner_ns_share(0).unwrap().index, 4);
    assert_eq!(shares[1].inner_ns_share(0).unwrap().index, 5);
    assert_eq!(NsAvidMScheme::check_share_shape(&shares[1]), Err(VidError::InvalidShare));
    assert_eq!(NsAvidMScheme::check_share_shape(&shares[0]), Ok(()));
}

#[test]
fn share_accessors() {
    let shares = sample();
    let s = &shares[2];
    assert_eq!(*s.ns_commit(1), commit(2));
    assert_eq!(s.ns_len(0), 15);
    assert!(s.contains_ns(1));
    assert!(!s.contains_ns(2));
    assert_eq!(s.inner_ns_share(2), None);
    let empty: NsAvidMShare<String> = NsAvidMShare::empty(3);
    assert_eq!(empty.num_nss(), 0);
    assert_eq!(empty.payload_byte_len(), 0);
}

#[test]
fn recover_inputs() {
    let shares = sample();
    let (c, inner) = NsAvidMScheme::ns_recover_inputs(0, &shares).unwrap();
    assert_eq!(c, commit(1));
    assert_eq!(inner.iter().map(|s| s.content.clone()).collect::<Vec<_>>(), vec!["a0", "a1", "a2"]);
    assert_eq!(NsAvidMScheme::ns_recover_inputs(2, &shares), Err(VidError::IndexOutOfBound));
    let none: Vec<NsAvidMShare<String>> = vec![];
    assert_eq!(NsAvidMScheme::ns_recover_inputs(0, &none), Err(VidError::InsufficientShares));
}

#[test]
fn namespace_table() {
    let table = vec![0usize..15, 15..48, 48..48];
    assert_eq!(NsAvidMScheme::ns_lens_of(&table), vec![15, 33, 0]);
    let payload: Vec<u8> = (0..48).collect();
    assert_eq!(NsAvidMScheme::ns_payload(&payload, &table[1]), (15..48).collect::<Vec<u8>>());
    assert_eq!(NsAvidMScheme::ns_payload(&payload, &table[2]), Vec::<u8>::new());
}

#[test]
fn namespace_proof_versions() {
    let p = NsProof { ns_index: 1, ns_payload: vec![1, 2], ns_proof: 7u8 };
    let v1: AvidMNsProofV1<u8, ()> = AvidMNsProofV1::from(AvidMNsProof(p.clone()));
    assert_eq!(v1, AvidMNsProofV1::CorrectEncoding(p.clone()));
    assert_eq!(AvidMNsProof::try_from(v1), Ok(AvidMNsProof(p)));
    let bad: AvidMNsProofV1<u8, ()> = AvidMNsProofV1::IncorrectEncoding(());
    assert_eq!(AvidMNsProof::try_from(bad), Err(IncorrectEncodingProof));
}

#[test]
fn bad_encoding_inputs_checks() {
    let shares = sample();
    assert_eq!(
        NsAvidMScheme::bad_encoding_inputs::<String>(0, &[], true),
        Err(VidError::InsufficientShares)
    );
    assert_eq!(
        NsAvidMScheme::bad_encoding_inputs(2, &shares, true),
        Err(VidError::IndexOutOfBound)
    );
    assert_eq!(
        NsAvidMScheme::bad_encoding_inputs(1, &shares, false),
        Err(VidError::InvalidParam)
    );
    let (c, inner) = NsAvidMScheme::bad_encoding_inputs(1, &shares, true).unwrap();
    assert_eq!(c, commit(2));
    assert_eq!(inner, vec![share(0, 33, "b0"), share(1, 33, "b1"), share(2, 33, "b2")]);
    // a share missing the namespace is found even when the root does not match
    let disperses = vec![vec![share(4, 1, "x0"), share(5, 1, "x1")], vec![share(4, 2, "y0")]];
    let partial = NsAvidMScheme::assemble_shares(&vec![1, 2], &vec![commit(0), commit(9)], disperses);
    assert_eq!(
        NsAvidMScheme::bad_encoding_inputs(1, &partial, false),
        Err(VidError::IndexOutOfBound)
    );
}

#[test]
fn shares_of_a_covering_table_sum_to_the_payload() {
    let table = [0usize..15, 15..48];
    let disperses = vec![
        (0..9u32).map(|j| share(j, 15, "a")).collect::<Vec<_>>(),
        (0..9u32).map(|j| share(j, 33, "b")).collect::<Vec<_>>(),
    ];
    let payload = vec![7u8; 48];
    let shares = NsAvidMScheme::shares_of_table(&payload, &table, &vec![commit(1), commit(2)], disperses);
    assert_eq!(shares.len(), 9);
    for (j, s) in shares.iter().enumerate() {
        assert_eq!(s.ns_lens(), &[15, 33][..]);
        assert_eq!(s.num_nss(), 2);
        assert_eq!(s.payload_byte_len(), payload.len());
        assert_eq!(s.inner_ns_share(0).unwrap().index, j as u32);
    }
}

#[test]
fn recovery_joins_namespaces_in_order() {
    assert_eq!(recovered_payload(false, vec![Ok(vec![1])]), Err(VidError::InsufficientShares));
    assert_eq!(recovered_payload(true, vec![Ok(vec![1, 2]), Ok(vec![]), Ok(vec![3])]), Ok(vec![1, 2, 3]));
    assert_eq!(
        recovered_payload(true, vec![Ok(vec![1]), Err(VidError::IndexOutOfBound), Err(VidError::InvalidShare)]),
        Err(VidError::IndexOutOfBound)
    );
    assert_eq!(recovered_payload(true, vec![]), Ok(vec![]));
}
