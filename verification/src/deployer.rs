use vstd::prelude::*;

verus! {

/// Types of timelock operations
#[derive(Debug, Clone, Copy, PartialEq, Eq, Structural)]
pub enum TimelockOperationType {
    Schedule,
    Execute,
    Cancel,
}

/// The timelock that owns an upgradable proxy.
#[derive(Debug, Clone, Copy, PartialEq, Eq, Structural)]
pub enum TimelockKind {
    /// The operations timelock
    Ops,
    /// The timelock that leaves users time to exit safely
    SafeExit,
}

/// The upgradable proxy contracts, which timelock operations and ownership transfers
/// are aimed at.
#[derive(Debug, Clone, Copy, PartialEq, Eq, Structural)]
pub enum ProxyContract {
    FeeContractProxy,
    EspTokenProxy,
    LightClientProxy,
    StakeTableProxy,
    /// Any other contract: not a proxy, and none of its operations go through a timelock
    Other,
}

/// The kind of timelock that owns the target's proxy: the token's is the safe-exit
/// timelock, the fee contract's, light client's and stake table's the operations
/// timelock. Other contracts have none.
pub fn timelock_for(target: ProxyContract) -> (r: Option<TimelockKind>)
    ensures
        r == match target {
            ProxyContract::EspTokenProxy => Some(TimelockKind::SafeExit),
            ProxyContract::FeeContractProxy | ProxyContract::LightClientProxy
            | ProxyContract::StakeTableProxy => Some(TimelockKind::Ops),
            ProxyContract::Other => None::<TimelockKind>,
        },
{
    match target {
        ProxyContract::FeeContractProxy => Some(TimelockKind::Ops),
        ProxyContract::EspTokenProxy => Some(TimelockKind::SafeExit),
        ProxyContract::LightClientProxy => Some(TimelockKind::Ops),
        ProxyContract::StakeTableProxy => Some(TimelockKind::Ops),
        ProxyContract::Other => None,
    }
}

/// Why a timelock operation is reported as failed after its transaction was sent.
#[derive(Debug, Clone, Copy, PartialEq, Eq, Structural)]
pub enum TimelockOperationFailure {
    /// The transaction was mined but reverted
    TxFailed,
    /// A scheduled operation is neither pending nor ready
    NotScheduled,
    /// An executed operation is not done
    NotExecuted,
}

/// What the timelock reports of an operation after its transaction was mined.
#[derive(Debug, Clone, Copy, PartialEq, Eq, Structural)]
pub struct OperationState {
    pub pending: bool,
    pub ready: bool,
    pub done: bool,
}

/// Confirm a timelock operation once its transaction is mined: the transaction must
/// have succeeded; a scheduled operation must then be pending or ready, an executed one
/// done. A cancellation needs only the transaction's success.
pub fn confirm_timelock_operation(
    op: TimelockOperationType,
    tx_success: bool,
    state: OperationState,
) -> (r: Result<(), TimelockOperationFailure>)
    ensures
        !tx_success ==> r == Err::<(), TimelockOperationFailure>(TimelockOperationFailure::TxFailed),
        tx_success ==> r == match op {
            TimelockOperationType::Schedule => if state.pending || state.ready {
                Ok(())
            } else {
                Err(TimelockOperationFailure::NotScheduled)
            },
            TimelockOperationType::Execute => if state.done {
                Ok(())
            } else {
                Err(TimelockOperationFailure::NotExecuted)
            },
            TimelockOperationType::Cancel => Ok::<(), TimelockOperationFailure>(()),
        },
{
    if !tx_success {
        return Err(TimelockOperationFailure::TxFailed);
    }
    match op {
        TimelockOperationType::Schedule => {
            if state.pending || state.ready {
                Ok(())
            } else {
                Err(TimelockOperationFailure::NotScheduled)
            }
        },
        TimelockOperationType::Execute => {
            if state.done {
                Ok(())
            } else {
                Err(TimelockOperationFailure::NotExecuted)
            }
        },
        TimelockOperationType::Cancel => Ok(()),
    }
}

/// Parameters for upgrading the light client to its second version
#[derive(Debug, Clone, Copy, PartialEq, Eq, Structural)]
pub struct LightClientV2UpgradeParams {
    pub blocks_per_epoch: u64,
    pub epoch_start_block: u64,
}

/// How the staking command line signs transactions.
#[derive(Debug, Clone, Copy, PartialEq, Eq, Structural)]
pub enum Signer {
    Ledger,
    Mnemonic,
}

/// Where the staking command line under test is pointed: the chain's RPC endpoint and
/// the addresses of the token and stake table contracts.
#[derive(Debug, Clone, PartialEq, Eq)]
pub struct CliTarget {
    pub rpc_url: String,
    pub token_address: String,
    pub stake_table_address: String,
}

/// The command-line arguments that select a signer: `--ledger`, or `--mnemonic`
/// followed by the phrase.
pub open spec fn signer_args_spec(signer: Signer, mnemonic: Seq<char>) -> Seq<Seq<char>> {
    match signer {
        Signer::Mnemonic => seq!["--mnemonic"@, mnemonic],
        Signer::Ledger => seq!["--ledger"@],
    }
}

impl CliTarget {
    /// The arguments that point the command line at this target, with the first
    /// account of the given signer.
    pub fn args(&self, signer: Signer, mnemonic: &str) -> (r: Vec<String>)
        ensures
            r@.map_values(|a: String| a@) == seq![
                "--rpc-url"@,
                self.rpc_url@,
                "--token-address"@,
                self.token_address@,
                "--stake-table-address"@,
                self.stake_table_address@,
                "--account-index"@,
                "0"@,
            ] + signer_args_spec(signer, mnemonic@),
    {
        let mut r: Vec<String> = Vec::new();
        r.push(String::from_str("--rpc-url"));
        r.push(self.rpc_url.clone());
        r.push(String::from_str("--token-address"));
        r.push(self.token_address.clone());
        r.push(String::from_str("--stake-table-address"));
        r.push(self.stake_table_address.clone());
        r.push(String::from_str("--account-index"));
        r.push(String::from_str("0"));
        match signer {
            Signer::Mnemonic => {
                r.push(String::from_str("--mnemonic"));
                r.push(mnemonic.to_string());
            },
            Signer::Ledger => {
                r.push(String::from_str("--ledger"));
            },
        }
        proof {
            assert(r@.map_values(|a: String| a@) =~= seq![
                "--rpc-url"@,
                self.rpc_url@,
                "--token-address"@,
                self.token_address@,
                "--stake-table-address"@,
                self.stake_table_address@,
                "--account-index"@,
                "0"@,
            ] + signer_args_spec(signer, mnemonic@));
        }
        r
    }
}

/// The proxy upgrades that are proposed to a Safe multisig.
#[derive(Debug, Clone, Copy, PartialEq, Eq, Structural)]
pub enum MultisigUpgrade {
    /// The light client proxy, to its second version
    LightClientV2,
    /// The token proxy, to its second version
    EspTokenV2,
    /// The stake table proxy, to its second version
    StakeTableV2,
}

/// The initialization data that goes with an upgrade proposal.
#[derive(Debug, Clone, Copy, PartialEq, Eq, Structural)]
pub enum UpgradeInitData {
    /// None (`0x`): the proxy is initialized already, or the version has no reinitializer
    Empty,
    /// A call of the new version's `initializeV2`
    InitializeV2,
}

/// What an upgrade proposal does before it calls the upgrade script.
#[derive(Debug, Clone, Copy, PartialEq, Eq, Structural)]
pub struct UpgradePlan {
    /// Whether the new implementation is deployed (otherwise placeholder addresses
    /// stand for it)
    pub deploy: bool,
    /// The initialization data proposed with the upgrade
    pub init_data: UpgradeInitData,
}

/// Why an upgrade proposal is refused.
#[derive(Debug, Clone, Copy, PartialEq, Eq, Structural)]
pub enum UpgradeError {
    /// The proxy to upgrade is not among the deployed contracts
    ProxyNotFound,
    /// The stake table proxy is not owned by the given multisig
    NotOwnedByMultisig,
    /// The proxy's owner is not a contract, so not a multisig wallet
    OwnerNotContract,
}

/// Decide an upgrade proposal from what the chain says of the proxy: whether it was
/// found, whether its owner is the given multisig (asked for the stake table only) and
/// a contract (asked only outside a dry run), and whether it is initialized for the new
/// version already.
///
/// A missing proxy is refused. The stake table's owner must be the multisig. Outside a
/// dry run the owner must be a contract; for the token an owner that is not a contract
/// is a fatal error, which the caller rules out before the call. The light client and
/// the token deploy their new implementation only outside a dry run; the stake table
/// always does. The token has no reinitializer; the others send empty initialization
/// data to a proxy initialized already, and a call of `initializeV2` otherwise.
pub fn multisig_upgrade_step(
    target: MultisigUpgrade,
    proxy_found: bool,
    owner_is_contract: bool,
    owner_is_multisig: bool,
    dry_run: bool,
    already_initialized: bool,
) -> (r: Result<UpgradePlan, UpgradeError>)
    requires
        proxy_found && target == MultisigUpgrade::EspTokenV2 && !dry_run ==> owner_is_contract,
    ensures
        !proxy_found ==> r == Err::<UpgradePlan, UpgradeError>(UpgradeError::ProxyNotFound),
        r == Err::<UpgradePlan, UpgradeError>(UpgradeError::NotOwnedByMultisig) <==> proxy_found
            && target == MultisigUpgrade::StakeTableV2 && !owner_is_multisig,
        r == Err::<UpgradePlan, UpgradeError>(UpgradeError::OwnerNotContract) <==> proxy_found
            && (target == MultisigUpgrade::StakeTableV2 ==> owner_is_multisig) && !dry_run
            && !owner_is_contract,
        r is Ok <==> proxy_found && (target == MultisigUpgrade::StakeTableV2 ==> owner_is_multisig)
            && (dry_run || owner_is_contract),
        r matches Ok(plan) ==> {
            &&& plan.deploy == (target == MultisigUpgrade::StakeTableV2 || !dry_run)
            &&& (plan.init_data == UpgradeInitData::Empty <==> (target
                == MultisigUpgrade::EspTokenV2 || already_initialized))
        },
{
    if !proxy_found {
        return Err(UpgradeError::ProxyNotFound);
    }
    match target {
        MultisigUpgrade::StakeTableV2 => {
            if !owner_is_multisig {
                return Err(UpgradeError::NotOwnedByMultisig);
            }
            if !dry_run && !owner_is_contract {
                return Err(UpgradeError::OwnerNotContract);
            }
            let init_data = if already_initialized {
                UpgradeInitData::Empty
            } else {
                UpgradeInitData::InitializeV2
            };
            Ok(UpgradePlan { deploy: true, init_data })
        },
        MultisigUpgrade::LightClientV2 => {
            if !dry_run && !owner_is_contract {
                return Err(UpgradeError::OwnerNotContract);
            }
            let init_data = if already_initialized {
                UpgradeInitData::Empty
            } else {
                UpgradeInitData::InitializeV2
            };
            Ok(UpgradePlan { deploy: !dry_run, init_data })
        },
        MultisigUpgrade::EspTokenV2 => {
            Ok(UpgradePlan { deploy: !dry_run, init_data: UpgradeInitData::Empty })
        },
    }
}

/// `"true"` or `"false"`.
pub open spec fn bool_text(b: bool) -> Seq<char> {
    if b {
        "true"@
    } else {
        "false"@
    }
}

fn bool_string(b: bool) -> (r: String)
    ensures
        r@ == bool_text(b),
{
    if b {
        String::from_str("true")
    } else {
        String::from_str("false")
    }
}

/// The arguments of the script that proposes a proxy upgrade to the multisig.
pub fn upgrade_proxy_args(
    proxy: &str,
    new_impl: &str,
    init_data: &str,
    rpc_url: &str,
    safe_address: &str,
    dry_run: bool,
) -> (r: Vec<String>)
    ensures
        r@.map_values(|a: String| a@) == seq![
            "upgradeProxy.ts"@,
            "--from-rust"@,
            "--proxy"@,
            proxy@,
            "--impl"@,
            new_impl@,
            "--init-data"@,
            init_data@,
            "--rpc-url"@,
            rpc_url@,
            "--safe-address"@,
            safe_address@,
            "--dry-run"@,
            bool_text(dry_run),
        ],
{
    let mut r: Vec<String> = Vec::new();
    r.push(String::from_str("upgradeProxy.ts"));
    r.push(String::from_str("--from-rust"));
    r.push(String::from_str("--proxy"));
    r.push(proxy.to_string());
    r.push(String::from_str("--impl"));
    r.push(new_impl.to_string());
    r.push(String::from_str("--init-data"));
    r.push(init_data.to_string());
    r.push(String::from_str("--rpc-url"));
    r.push(rpc_url.to_string());
    r.push(String::from_str("--safe-address"));
    r.push(safe_address.to_string());
    r.push(String::from_str("--dry-run"));
    r.push(bool_string(dry_run));
    proof {
        assert(r@.map_values(|a: String| a@) =~= seq![
            "upgradeProxy.ts"@,
            "--from-rust"@,
            "--proxy"@,
            proxy@,
            "--impl"@,
            new_impl@,
            "--init-data"@,
            init_data@,
            "--rpc-url"@,
            rpc_url@,
            "--safe-address"@,
            safe_address@,
            "--dry-run"@,
            bool_text(dry_run),
        ]);
    }
    r
}

/// Parameters of a transfer of a proxy's ownership from the multisig to a timelock;
/// addresses as text.
#[derive(Debug, Clone, PartialEq, Eq)]
pub struct TransferOwnershipParams {
    pub new_owner: String,
    pub rpc_url: String,
    pub safe_addr: String,
    pub use_hardware_wallet: bool,
    pub dry_run: bool,
}

/// Only the upgradable proxies can have their ownership transferred.
pub fn ownership_transferable(contract: ProxyContract) -> (r: bool)
    ensures
        r <==> contract != ProxyContract::Other,
{
    match contract {
        ProxyContract::Other => false,
        _ => true,
    }
}

/// The arguments of the script that proposes an ownership transfer to the multisig.
pub fn transfer_ownership_args(proxy: &str, params: &TransferOwnershipParams) -> (r: Vec<String>)
    ensures
        r@.map_values(|a: String| a@) == seq![
            "transferOwnership.ts"@,
            "--from-rust"@,
            "--proxy"@,
            proxy@,
            "--new-owner"@,
            params.new_owner@,
            "--rpc-url"@,
            params.rpc_url@,
            "--safe-address"@,
            params.safe_addr@,
            "--dry-run"@,
            bool_text(params.dry_run),
            "--use-hardware-wallet"@,
            bool_text(params.use_hardware_wallet),
        ],
{
    let mut r: Vec<String> = Vec::new();
    r.push(String::from_str("transferOwnership.ts"));
    r.push(String::from_str("--from-rust"));
    r.push(String::from_str("--proxy"));
    r.push(proxy.to_string());
    r.push(String::from_str("--new-owner"));
    r.push(params.new_owner.clone());
    r.push(String::from_str("--rpc-url"));
    r.push(params.rpc_url.clone());
    r.push(String::from_str("--safe-address"));
    r.push(params.safe_addr.clone());
    r.push(String::from_str("--dry-run"));
    r.push(bool_string(params.dry_run));
    r.push(String::from_str("--use-hardware-wallet"));
    r.push(bool_string(params.use_hardware_wallet));
    proof {
        assert(r@.map_values(|a: String| a@) =~= seq![
            "transferOwnership.ts"@,
            "--from-rust"@,
            "--proxy"@,
            proxy@,
            "--new-owner"@,
            params.new_owner@,
            "--rpc-url"@,
            params.rpc_url@,
            "--safe-address"@,
            params.safe_addr@,
            "--dry-run"@,
            bool_text(params.dry_run),
            "--use-hardware-wallet"@,
            bool_text(params.use_hardware_wallet),
        ]);
    }
    r
}

/// Whether `pat` occurs in `s` at position `i`.
pub open spec fn occurs_at(s: Seq<u8>, pat: Seq<u8>, i: int) -> bool {
    0 <= i && i + pat.len() <= s.len() && s.subrange(i, i + pat.len()) == pat
}

/// Number of non-overlapping occurrences of `pat` in `s` from position `i` on, found
/// left to right.
pub open spec fn count_matches(s: Seq<u8>, pat: Seq<u8>, i: int) -> nat
    decreases s.len() - i,
{
    if pat.len() == 0 || i < 0 || i + pat.len() > s.len() {
        0
    } else if occurs_at(s, pat, i) {
        1 + count_matches(s, pat, i + pat.len())
    } else {
        count_matches(s, pat, i + 1)
    }
}

/// The first occurrence of `pat` in `s` at or after `i`.
pub open spec fn first_match(s: Seq<u8>, pat: Seq<u8>, i: int) -> Option<int>
    decreases s.len() - i,
{
    if pat.len() == 0 || i < 0 || i + pat.len() > s.len() {
        None
    } else if occurs_at(s, pat, i) {
        Some(i)
    } else {
        first_match(s, pat, i + 1)
    }
}

/// Why a contract's bytecode could not be linked to its library.
#[derive(Debug, Clone, Copy, PartialEq, Eq, Structural)]
pub enum LinkError {
    /// The bytecode holds no placeholder for the library's address
    PlaceholderNotFound,
    /// The bytecode holds the placeholder more than once
    PlaceholderNotUnique,
}

/// Link hex-encoded bytecode to a library: the one occurrence of `placeholder` is
/// replaced by the library's hex-encoded `address`. No occurrence, or more than one,
/// is an error.
pub fn link_library(bytecode: &[u8], placeholder: &[u8], address: &[u8]) -> (r: Result<
    Vec<u8>,
    LinkError,
>)
    requires
        placeholder@.len() > 0,
    ensures
        count_matches(bytecode@, placeholder@, 0) == 0 ==> r == Err::<Vec<u8>, LinkError>(
            LinkError::PlaceholderNotFound,
        ),
        count_matches(bytecode@, placeholder@, 0) > 1 ==> r == Err::<Vec<u8>, LinkError>(
            LinkError::PlaceholderNotUnique,
        ),
        count_matches(bytecode@, placeholder@, 0) == 1 ==> (r matches Ok(v) && first_match(
            bytecode@,
            placeholder@,
            0,
        ) matches Some(p) && v@ == bytecode@.subrange(0, p) + address@ + bytecode@.subrange(
            p + placeholder@.len(),
            bytecode@.len() as int,
        )),
{
    let n = bytecode.len();
    let m = placeholder.len();
    if m > n {
        return Err(LinkError::PlaceholderNotFound);
    }
    let last = n - m;
    let mut i: usize = 0;
    let mut count: usize = 0;
    let mut first: usize = 0;
    while i <= last && count < 2
        invariant
            n == bytecode@.len(),
            m == placeholder@.len(),
            m > 0,
            last == n - m,
            i <= n,
            count <= 2,
            count < 2 ==> count_matches(bytecode@, placeholder@, 0) == count_matches(
                bytecode@,
                placeholder@,
                i as int,
            ) + count,
            count == 2 ==> count_matches(bytecode@, placeholder@, 0) >= 2,
            count == 0 ==> first_match(bytecode@, placeholder@, 0) == first_match(
                bytecode@,
                placeholder@,
                i as int,
            ),
            count >= 1 ==> first_match(bytecode@, placeholder@, 0) == Some(first as int) && first
                + m <= n,
        decreases n + 2 - i - count,
    {
        let at = matches_at(bytecode, placeholder, i);
        if at {
            if count == 0 {
                first = i;
            }
            count = count + 1;
            i = i + m;
        } else {
            i = i + 1;
        }
    }
    if count == 0 {
        return Err(LinkError::PlaceholderNotFound);
    }
    if count >= 2 {
        return Err(LinkError::PlaceholderNotUnique);
    }
    let mut out: Vec<u8> = Vec::new();
    let mut k: usize = 0;
    while k < first
        invariant
            k <= first,
            first + m <= n,
            n == bytecode@.len(),
            out@ == bytecode@.subrange(0, k as int),
        decreases first - k,
    {
        out.push(bytecode[k]);
        proof {
            assert(bytecode@.subrange(0, k + 1) =~= bytecode@.subrange(0, k as int).push(bytecode@[k as int]));
        }
        k = k + 1;
    }
    let mut a: usize = 0;
    while a < address.len()
        invariant
            a <= address@.len(),
            out@ == bytecode@.subrange(0, first as int) + address@.subrange(0, a as int),
        decreases address@.len() - a,
    {
        out.push(address[a]);
        proof {
            assert(address@.subrange(0, a + 1) =~= address@.subrange(0, a as int).push(address@[a as int]));
            assert(bytecode@.subrange(0, first as int) + address@.subrange(0, a + 1) =~= (
                bytecode@.subrange(0, first as int) + address@.subrange(0, a as int)).push(address@[a as int]));
        }
        a = a + 1;
    }
    proof {
        assert(address@.subrange(0, address@.len() as int) =~= address@);
    }
    let mut k: usize = first + m;
    let ghost base = out@;
    while k < n
        invariant
            first + m <= k <= n,
            n == bytecode@.len(),
            out@ == base + bytecode@.subrange(first + m, k as int),
        decreases n - k,
    {
        out.push(bytecode[k]);
        proof {
            assert(bytecode@.subrange(first + m, k + 1) =~= bytecode@.subrange(first + m, k as int).push(bytecode@[k as int]));
        }
        k = k + 1;
    }
    Ok(out)
}

/// Whether `pat` occurs in `s` at position `i`.
fn matches_at(s: &[u8], pat: &[u8], i: usize) -> (r: bool)
    ensures
        r == occurs_at(s@, pat@, i as int),
{
    let n = s.len();
    if i > n || pat.len() > n - i {
        return false;
    }
    let mut k: usize = 0;
    while k < pat.len()
        invariant
            n == s@.len(),
            i + pat@.len() <= n,
            k <= pat@.len(),
            forall|j: int| 0 <= j < k ==> s@[i + j] == pat@[j],
        decreases pat@.len() - k,
    {
        if s[i + k] != pat[k] {
            proof {
                assert(s@.subrange(i as int, i + pat@.len())[k as int] != pat@[k as int]);
            }
            return false;
        }
        k = k + 1;
    }
    proof {
        assert(s@.subrange(i as int, i + pat@.len()) =~= pat@);
    }
    true
}

} // verus!
