use vstd::prelude::*;

pub mod bounded_deque;
pub mod named_semaphore;
pub mod transaction;
pub mod vid_ns;
pub mod leaf_chain;
pub mod epoch_catchup;
pub mod stake_table;
pub mod builder_options;
pub mod deployer;
pub mod protocol;
pub mod ns_iter;
pub mod api_checks;
pub mod mock_ledger;
pub mod prover;
pub mod storage_metrics;
pub mod quorum;
pub mod availability;
pub mod block_info;
pub mod encoding_proof;
pub mod keygen;
pub mod outgoing;
pub mod serving;

verus! {
}
