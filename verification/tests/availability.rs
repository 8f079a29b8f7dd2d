use espresso_core::availability::{NsProof as VersionedNsProof, TxSource};
use espresso_core::vid_ns::{AvidMNsProof, AvidMNsProofV1, NsProof as PayloadProof};
use espresso_core::availability::{
    ns_proof_correct_only, ns_proof_first_stage, ns_proof_legacy, ns_proof_flavor, incorrect_encoding_answer, required_block_number, STATUS_BAD_REQUEST, ns_proof_second_stage,
    v1_shares, NsProofAnswer, NsProofError, NsProofFlavor, NsProofStep, VidShareVersion,
    STATUS_INTERNAL_SERVER_ERROR, STATUS_NOT_FOUND,
};
use espresso_core::block_info::{
    AvailableBlockHeaderInputV2, AvailableBlockHeaderInputV2Either,
    AvailableBlockHeaderInputV2Legacy,
};

#[test]
fn flavor_by_api_version() {
    assert_eq!(ns_proof_flavor(1, 0), NsProofFlavor::CorrectEncodingOnly);
    assert_eq!(ns_proof_flavor(1, 1), NsProofFlavor::WithIncorrectEncoding);
    assert_eq!(ns_proof_flavor(1, 7), NsProofFlavor::WithIncorrectEncoding);
    assert_eq!(ns_proof_flavor(0, 1), NsProofFlavor::Legacy);
    assert_eq!(ns_proof_flavor(2, 0), NsProofFlavor::Legacy);
}

#[test]
fn error_statuses() {
    assert_eq!(NsProofError::NamespaceNotFound.status(), STATUS_NOT_FOUND);
    assert_eq!(NsProofError::SharesUnavailable.status(), 404);
    assert_eq!(NsProofError::UnsupportedVidVersion.status(), 404);
    assert_eq!(NsProofError::ProofFailed.status(), 404);
    assert_eq!(
        NsProofError::IncorrectEncodingProofFailed.status(),
        STATUS_INTERNAL_SERVER_ERROR
    );
    assert_eq!(STATUS_INTERNAL_SERVER_ERROR, 500);
}

#[test]
fn first_stage_answers_or_collects() {
    assert_eq!(
        ns_proof_first_stage::<u8, u8>(false, Some((1, vec![2]))),
        NsProofStep::Fail(NsProofError::NamespaceNotFound)
    );
    assert_eq!(
        ns_proof_first_stage::<u8, u8>(true, None),
        NsProofStep::CollectShares
    );
    assert_eq!(
        ns_proof_first_stage(true, Some((7u8, vec![3u8, 4]))),
        NsProofStep::Answer(NsProofAnswer { proof: Some(7u8), transactions: vec![3u8, 4] })
    );
}

#[test]
fn second_stage_outcomes() {
    assert_eq!(
        ns_proof_second_stage::<u8, u8>(false, Some(1)),
        Err(NsProofError::SharesUnavailable)
    );
    assert_eq!(
        ns_proof_second_stage::<u8, u8>(true, None),
        Err(NsProofError::IncorrectEncodingProofFailed)
    );
    assert_eq!(
        ns_proof_second_stage::<u8, u8>(true, Some(9)),
        Ok(NsProofAnswer { proof: Some(9), transactions: vec![] })
    );
}

#[test]
fn correct_only_outcomes() {
    assert_eq!(
        ns_proof_correct_only::<u8, u8>(false, None),
        Ok(NsProofAnswer { proof: None, transactions: vec![] })
    );
    assert_eq!(ns_proof_correct_only::<u8, u8>(true, None), Err(NsProofError::ProofFailed));
    assert_eq!(
        ns_proof_correct_only(true, Some((5u8, vec![6u8]))),
        Ok(NsProofAnswer { proof: Some(5u8), transactions: vec![6u8] })
    );
}

#[test]
fn keeps_second_scheme_shares_in_order() {
    let shares = vec![
        VidShareVersion::V1(1u32),
        VidShareVersion::V0("a"),
        VidShareVersion::V1(2u32),
        VidShareVersion::V0("b"),
        VidShareVersion::V1(3u32),
    ];
    assert_eq!(v1_shares(shares), vec![1, 2, 3]);
    assert!(v1_shares::<u8, u8>(vec![VidShareVersion::V0(1)]).is_empty());
}

#[test]
fn header_input_selection() {
    let current: AvailableBlockHeaderInputV2Either<u8, u16, u32> =
        AvailableBlockHeaderInputV2Either::Current(AvailableBlockHeaderInputV2 {
            fee_signature: 1,
            sender: 2,
        });
    assert_eq!(
        current.validate_signature_and_get_input(true, false),
        Some(AvailableBlockHeaderInputV2 { fee_signature: 1, sender: 2 })
    );
    assert_eq!(current.validate_signature_and_get_input(false, true), None);

    let legacy: AvailableBlockHeaderInputV2Either<u8, u16, u32> =
        AvailableBlockHeaderInputV2Either::Legacy(AvailableBlockHeaderInputV2Legacy {
            vid_commitment: 9,
            fee_signature: 3,
            message_signature: 4,
            sender: 5,
        });
    let expected = Some(AvailableBlockHeaderInputV2 { fee_signature: 3, sender: 5 });
    assert_eq!(legacy.validate_signature_and_get_input(true, false), expected);
    assert_eq!(legacy.validate_signature_and_get_input(false, true), expected);
    assert_eq!(legacy.validate_signature_and_get_input(false, false), None);
}

#[test]
fn legacy_outcomes() {
    assert_eq!(
        ns_proof_legacy::<u8, u8>(false, false, None),
        Ok(NsProofAnswer { proof: None, transactions: vec![] })
    );
    assert_eq!(
        ns_proof_legacy::<u8, u8>(true, false, Some((1, vec![]))),
        Err(NsProofError::UnsupportedVidVersion)
    );
    assert_eq!(ns_proof_legacy::<u8, u8>(true, true, None), Err(NsProofError::ProofFailed));
    assert_eq!(
        ns_proof_legacy(true, true, Some((2u8, vec![3u8]))),
        Ok(NsProofAnswer { proof: Some(2u8), transactions: vec![3u8] })
    );
}

#[test]
fn incorrect_encoding_endpoint_outcomes() {
    assert_eq!(required_block_number(Some(12)), Ok(12));
    assert_eq!(required_block_number(None), Err(NsProofError::BlockNumberRequired));
    assert_eq!(NsProofError::BlockNumberRequired.status(), STATUS_BAD_REQUEST);
    assert_eq!(STATUS_BAD_REQUEST, 400);
    assert_eq!(incorrect_encoding_answer(false, true, Some(1u8)), Err(NsProofError::SharesUnavailable));
    assert_eq!(incorrect_encoding_answer(true, false, Some(1u8)), Err(NsProofError::UnsupportedVidVersion));
    assert_eq!(
        incorrect_encoding_answer::<u8>(true, true, None),
        Err(NsProofError::IncorrectEncodingProofFailed)
    );
    assert_eq!(incorrect_encoding_answer(true, true, Some(5u8)), Ok(5u8));
}

#[test]
fn namespace_proofs_export_from_their_version() {
    let inner = || PayloadProof { ns_index: 0, ns_payload: vec![4, 5], ns_proof: "mt" };
    let v0: VersionedNsProof<u8, &str, ()> = VersionedNsProof::V0(7);
    assert_eq!(v0.tx_source(), TxSource::Legacy(&7));
    assert!(v0.matches_common(false));
    assert!(!v0.matches_common(true));
    let v1: VersionedNsProof<u8, &str, ()> = VersionedNsProof::V1(AvidMNsProof(inner()));
    assert_eq!(v1.tx_source(), TxSource::Payload(&[4, 5][..]));
    assert!(v1.matches_common(true));
    let v11: VersionedNsProof<u8, &str, ()> =
        VersionedNsProof::V1_1(AvidMNsProofV1::CorrectEncoding(inner()));
    assert_eq!(v11.tx_source(), TxSource::Payload(&[4, 5][..]));
    let bad: VersionedNsProof<u8, &str, ()> =
        VersionedNsProof::V1_1(AvidMNsProofV1::IncorrectEncoding(()));
    assert_eq!(bad.tx_source(), TxSource::Nothing);
    assert!(!bad.matches_common(false));
}
