use espresso_core::builder_options::parse_duration;
use espresso_core::deployer::{
    multisig_upgrade_step, MultisigUpgrade, UpgradeError, UpgradeInitData, UpgradePlan,
    confirm_timelock_operation, link_library, ownership_transferable, timelock_for,
    transfer_ownership_args, upgrade_proxy_args, CliTarget, LinkError, TransferOwnershipParams,
    OperationState, Signer, TimelockKind, TimelockOperationFailure, TimelockOperationType,
    ProxyContract,
};
use espresso_core::mock_ledger::{MockSystemParam, STAKE_TABLE_CAPACITY_FOR_TEST};
use espresso_core::protocol::{
    after_request_action, next_request_action, recipient_batches, request_error, should_retry,
    RequestAction, RequestError, RequestFailure, RequestPhase, RequestType,
};
use espresso_core::prover::{check_gas_price, needs_update, GasPriceTooHigh};
use espresso_core::stake_table::{
    event_key, EventSortingError, ExpectedStakeTableError, StakeTableContractVersion,
    UnsupportedStakeTableVersion,
};
use espresso_core::storage_metrics::{NoHistogram, PersistenceMetricsValue, StorageMetricsValue};
use std::time::Duration;

#[test]
fn durations() {
    assert_eq!(parse_duration("9s"), Ok(Duration::from_secs(9)));
    assert_eq!(parse_duration("2d"), Ok(Duration::from_secs(60 * 60 * 24 * 2)));
    assert_eq!(parse_duration("99:59:59"), Ok(Duration::from_secs(99 * 3600 + 59 * 60 + 59)));
    assert!(parse_duration("nonsense").is_err());
    assert!(parse_duration(&"1".repeat(65)).is_err());
}

#[test]
fn stake_table_versions() {
    assert_eq!(StakeTableContractVersion::try_from_major_version(1), Ok(StakeTableContractVersion::V1));
    assert_eq!(StakeTableContractVersion::try_from_major_version(2), Ok(StakeTableContractVersion::V2));
    assert_eq!(
        StakeTableContractVersion::try_from_major_version(3),
        Err(UnsupportedStakeTableVersion { major_version: 3 })
    );
    assert_eq!(StakeTableContractVersion::default(), StakeTableContractVersion::V2);
}

#[test]
fn stake_table_errors() {
    let e = ExpectedStakeTableError::SchnorrKeyAlreadyUsed("KEY".to_string());
    assert_eq!(e.message(), "Schnorr key already used: KEY");
    assert_eq!(event_key(Some(3), Some(4)), Ok((3, 4)));
    assert_eq!(event_key(None, Some(4)), Err(EventSortingError::MissingBlockNumber));
    assert_eq!(event_key(Some(3), None), Err(EventSortingError::MissingLogIndex));
}

#[test]
fn request_protocol_helpers() {
    assert!(should_retry(&RequestError::Timeout));
    assert!(!should_retry(&RequestError::Other("x".into())));
    assert!(!should_retry(&RequestError::InvalidRequest("x".into())));
    assert_eq!(recipient_batches(7, 3), vec![(0, 3), (3, 6), (6, 7)]);
    assert_eq!(recipient_batches(6, 3), vec![(0, 3), (3, 6)]);
    assert_eq!(recipient_batches(0, 3), vec![]);
}

#[test]
fn deployer_helpers() {
    let target = CliTarget {
        rpc_url: "http://localhost:8545/".to_string(),
        token_address: "0xaa".to_string(),
        stake_table_address: "0xbb".to_string(),
    };
    let common = [
        "--rpc-url", "http://localhost:8545/", "--token-address", "0xaa",
        "--stake-table-address", "0xbb", "--account-index", "0",
    ];
    let mut ledger: Vec<String> = common.iter().map(|s| s.to_string()).collect();
    ledger.push("--ledger".to_string());
    assert_eq!(target.args(Signer::Ledger, "m"), ledger);
    let mut mnemonic: Vec<String> = common.iter().map(|s| s.to_string()).collect();
    mnemonic.push("--mnemonic".to_string());
    mnemonic.push("test junk".to_string());
    assert_eq!(target.args(Signer::Mnemonic, "test junk"), mnemonic);
    let ph = b"__$lib$__";
    assert_eq!(link_library(b"aa__$lib$__bb", ph, b"1234"), Ok(b"aa1234bb".to_vec()));
    assert_eq!(link_library(b"aabb", ph, b"1234"), Err(LinkError::PlaceholderNotFound));
    assert_eq!(link_library(b"__$lib$____$lib$__", ph, b"1"), Err(LinkError::PlaceholderNotUnique));
    assert_eq!(link_library(b"ab", ph, b"1"), Err(LinkError::PlaceholderNotFound));
}

#[test]
fn prover_decisions() {
    assert_eq!(check_gas_price(None, 100), Ok(()));
    assert_eq!(check_gas_price(Some(100), 100), Ok(()));
    assert_eq!(check_gas_price(Some(100), 101), Err(GasPriceTooHigh { current: 101, max: 100 }));
    assert!(needs_update(4, 5));
    assert!(!needs_update(5, 5));
}

#[test]
fn mock_params_and_metrics() {
    assert_eq!(MockSystemParam::init().st_cap(), STAKE_TABLE_CAPACITY_FOR_TEST);
    assert_eq!(STAKE_TABLE_CAPACITY_FOR_TEST, 10);
    let m = StorageMetricsValue::<NoHistogram>::default();
    assert_eq!(m.append_vid_duration, NoHistogram);
    let p = PersistenceMetricsValue::<NoHistogram>::default();
    assert_eq!(p.internal_append_quorum2_duration, NoHistogram);
}

#[test]
fn histograms_are_named_after_what_they_time() {
    let seconds = Some("seconds".to_string());
    let m = StorageMetricsValue::new(|name: String, unit: Option<String>| (name, unit));
    assert_eq!(m.append_vid_duration, ("append_vid_duration".to_string(), seconds.clone()));
    assert_eq!(m.append_da_duration, ("append_da_duration".to_string(), seconds.clone()));
    assert_eq!(m.append_quorum_duration, ("append_quorum_duration".to_string(), seconds.clone()));
    let p = PersistenceMetricsValue::new(|name: String, unit: Option<String>| (name, unit));
    assert_eq!(p.internal_append_vid_duration, ("internal_append_vid_duration".to_string(), seconds.clone()));
    assert_eq!(p.internal_append_vid2_duration, ("internal_append_vid2_duration".to_string(), seconds.clone()));
    assert_eq!(p.internal_append_da_duration, ("internal_append_da_duration".to_string(), seconds.clone()));
    assert_eq!(p.internal_append_da2_duration, ("internal_append_da2_duration".to_string(), seconds.clone()));
    assert_eq!(p.internal_append_quorum2_duration, ("internal_append_quorum2_duration".to_string(), seconds));
}

#[test]
fn timelock_owners() {
    assert_eq!(timelock_for(ProxyContract::FeeContractProxy), Some(TimelockKind::Ops));
    assert_eq!(timelock_for(ProxyContract::EspTokenProxy), Some(TimelockKind::SafeExit));
    assert_eq!(timelock_for(ProxyContract::LightClientProxy), Some(TimelockKind::Ops));
    assert_eq!(timelock_for(ProxyContract::StakeTableProxy), Some(TimelockKind::Ops));
    assert_eq!(timelock_for(ProxyContract::Other), None);
}

#[test]
fn timelock_confirmation() {
    let none = OperationState { pending: false, ready: false, done: false };
    let pending = OperationState { pending: true, ready: false, done: false };
    let ready = OperationState { pending: false, ready: true, done: false };
    let done = OperationState { pending: false, ready: false, done: true };
    for op in [TimelockOperationType::Schedule, TimelockOperationType::Execute, TimelockOperationType::Cancel] {
        assert_eq!(confirm_timelock_operation(op, false, done), Err(TimelockOperationFailure::TxFailed));
    }
    assert_eq!(confirm_timelock_operation(TimelockOperationType::Schedule, true, pending), Ok(()));
    assert_eq!(confirm_timelock_operation(TimelockOperationType::Schedule, true, ready), Ok(()));
    assert_eq!(
        confirm_timelock_operation(TimelockOperationType::Schedule, true, done),
        Err(TimelockOperationFailure::NotScheduled)
    );
    assert_eq!(confirm_timelock_operation(TimelockOperationType::Execute, true, done), Ok(()));
    assert_eq!(
        confirm_timelock_operation(TimelockOperationType::Execute, true, pending),
        Err(TimelockOperationFailure::NotExecuted)
    );
    assert_eq!(confirm_timelock_operation(TimelockOperationType::Cancel, true, none), Ok(()));
}

fn strings(v: &[&str]) -> Vec<String> {
    v.iter().map(|s| s.to_string()).collect()
}

#[test]
fn multisig_script_arguments() {
    assert_eq!(
        upgrade_proxy_args("0x01", "0x02", "0x", "https://rpc", "0x03", true),
        strings(&[
            "upgradeProxy.ts", "--from-rust", "--proxy", "0x01", "--impl", "0x02", "--init-data",
            "0x", "--rpc-url", "https://rpc", "--safe-address", "0x03", "--dry-run", "true",
        ])
    );
    let params = TransferOwnershipParams {
        new_owner: "0x04".to_string(),
        rpc_url: "https://rpc".to_string(),
        safe_addr: "0x05".to_string(),
        use_hardware_wallet: true,
        dry_run: false,
    };
    assert_eq!(
        transfer_ownership_args("0x06", &params),
        strings(&[
            "transferOwnership.ts", "--from-rust", "--proxy", "0x06", "--new-owner", "0x04",
            "--rpc-url", "https://rpc", "--safe-address", "0x05", "--dry-run", "false",
            "--use-hardware-wallet", "true",
        ])
    );
    assert!(ownership_transferable(ProxyContract::EspTokenProxy));
    assert!(!ownership_transferable(ProxyContract::Other));
}

#[test]
fn multisig_upgrade_decisions() {
    let lc = MultisigUpgrade::LightClientV2;
    let tok = MultisigUpgrade::EspTokenV2;
    let st = MultisigUpgrade::StakeTableV2;
    for t in [lc, tok, st] {
        assert_eq!(multisig_upgrade_step(t, false, true, true, false, false), Err(UpgradeError::ProxyNotFound));
    }
    // light client: owner must be a contract unless dry run; dry run deploys nothing
    assert_eq!(multisig_upgrade_step(lc, true, false, true, false, false), Err(UpgradeError::OwnerNotContract));
    assert_eq!(
        multisig_upgrade_step(lc, true, false, false, true, false),
        Ok(UpgradePlan { deploy: false, init_data: UpgradeInitData::InitializeV2 })
    );
    assert_eq!(
        multisig_upgrade_step(lc, true, true, false, false, true),
        Ok(UpgradePlan { deploy: true, init_data: UpgradeInitData::Empty })
    );
    // token: never any init data
    assert_eq!(
        multisig_upgrade_step(tok, true, true, false, false, false),
        Ok(UpgradePlan { deploy: true, init_data: UpgradeInitData::Empty })
    );
    assert_eq!(
        multisig_upgrade_step(tok, true, false, false, true, false),
        Ok(UpgradePlan { deploy: false, init_data: UpgradeInitData::Empty })
    );
    // stake table: owner must be the multisig, and the implementation is always deployed
    assert_eq!(multisig_upgrade_step(st, true, true, false, false, false), Err(UpgradeError::NotOwnedByMultisig));
    assert_eq!(multisig_upgrade_step(st, true, false, true, false, false), Err(UpgradeError::OwnerNotContract));
    assert_eq!(
        multisig_upgrade_step(st, true, false, true, true, false),
        Ok(UpgradePlan { deploy: true, init_data: UpgradeInitData::InitializeV2 })
    );
}

fn walk(request_type: RequestType) -> Vec<RequestAction> {
    let mut phase = RequestPhase::Start;
    let mut actions = vec![];
    loop {
        let a = next_request_action(request_type, phase);
        actions.push(a);
        match after_request_action(a) {
            Some(p) => phase = p,
            None => return actions,
        }
    }
}

#[test]
fn request_steps_in_order() {
    let head = [RequestAction::Hash, RequestAction::Register, RequestAction::Serialize];
    let mut broadcast = head.to_vec();
    broadcast.extend([RequestAction::SendBroadcast, RequestAction::AwaitResponse]);
    assert_eq!(walk(RequestType::Broadcast), broadcast);
    let mut batched = head.to_vec();
    batched.extend([
        RequestAction::FetchResponders,
        RequestAction::SendBatches,
        RequestAction::AwaitResponse,
    ]);
    assert_eq!(walk(RequestType::Batched), batched);
}

#[test]
fn request_failures() {
    assert_eq!(request_error(RequestFailure::Deadline), RequestError::Timeout);
    assert_eq!(
        request_error(RequestFailure::Serialize("x".to_string())),
        RequestError::InvalidRequest("failed to serialize request message: x".to_string())
    );
    assert_eq!(
        request_error(RequestFailure::Responders("y".to_string())),
        RequestError::InvalidRequest("failed to get expected responders for request: y".to_string())
    );
    assert_eq!(
        request_error(RequestFailure::Broadcast("z".to_string())),
        RequestError::Other("failed to send broadcast message: z".to_string())
    );
    assert_eq!(
        request_error(RequestFailure::ChannelClosed),
        RequestError::Other("channel was closed".to_string())
    );
    assert_eq!(
        request_error(RequestFailure::Downcast("w".to_string())),
        RequestError::Other("failed to downcast response to expected type: w".to_string())
    );
}
