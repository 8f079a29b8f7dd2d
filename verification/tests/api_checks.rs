use espresso_core::api_checks::{
    check_share_request, check_stake_table_epoch, check_transaction_size, collect_share_response,
    collected_shares, public_env_lines, EpochBeyondCurrent, ShareRequestRefused, ShareRequestEnd, ShareRequestError, TransactionTooLarge,
};
use espresso_core::availability::VidShareVersion;

#[test]
fn transaction_size_limit() {
    assert_eq!(check_transaction_size(10, 10), Ok(()));
    assert_eq!(
        check_transaction_size(11, 10),
        Err(TransactionTooLarge { txn_size: 11, max_block_size: 10 })
    );
}

#[test]
fn stake_table_epoch_limit() {
    assert_eq!(check_stake_table_epoch(Some(6), Some(5)), Ok(()));
    assert_eq!(check_stake_table_epoch(None, None), Ok(()));
    assert_eq!(check_stake_table_epoch(None, Some(5)), Ok(()));
    assert_eq!(
        check_stake_table_epoch(Some(7), Some(5)),
        Err(EpochBeyondCurrent { requested: Some(7), highest: Some(6) })
    );
    assert_eq!(
        check_stake_table_epoch(Some(0), None),
        Err(EpochBeyondCurrent { requested: Some(0), highest: None })
    );
}

#[test]
fn share_collection_outcomes() {
    assert_eq!(collected_shares::<u8, String>(ShareRequestEnd::TimedOut, vec![1, 2]), Ok(vec![1, 2]));
    assert_eq!(
        collected_shares::<u8, String>(ShareRequestEnd::Failed("x".into()), vec![1]),
        Err(ShareRequestError::RequestFailed("x".to_string()))
    );
    assert_eq!(
        collected_shares::<u8, String>(ShareRequestEnd::Completed, vec![]),
        Err(ShareRequestError::UnexpectedCompletion)
    );
}

#[test]
fn env_lines() {
    let keys = vec!["A".to_string(), "B".to_string()];
    let values = vec![Some("1".to_string()), None];
    assert_eq!(public_env_lines(&keys, &values), vec!["A=1".to_string(), "B=".to_string()]);
}

#[test]
fn share_requests_refuse_first_scheme_data() {
    assert_eq!(check_share_request(false, true, true), Err(ShareRequestRefused::V0TotalWeight));
    assert_eq!(check_share_request(true, false, false), Err(ShareRequestRefused::InvalidParam));
    assert_eq!(check_share_request(true, true, false), Err(ShareRequestRefused::V0Verification));
    assert_eq!(check_share_request(true, true, true), Ok(()));
}

#[test]
fn only_verified_second_scheme_shares_are_kept() {
    let mut kept: Vec<u32> = vec![];
    assert!(collect_share_response(&mut kept, VidShareVersion::<&str, u32>::V1(1), true));
    assert!(!collect_share_response(&mut kept, VidShareVersion::<&str, u32>::V1(2), false));
    assert!(!collect_share_response(&mut kept, VidShareVersion::<&str, u32>::V0("old"), true));
    assert!(collect_share_response(&mut kept, VidShareVersion::<&str, u32>::V1(3), true));
    assert_eq!(kept, vec![1, 3]);
}
