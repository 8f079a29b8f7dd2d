use crate::availability::VidShareVersion;
use vstd::prelude::*;

verus! {

/// A submitted transaction is larger than a block may be.
#[derive(Debug, Clone, Copy, PartialEq, Eq, Structural)]
pub struct TransactionTooLarge {
    pub txn_size: u64,
    pub max_block_size: u64,
}

/// Accept a transaction for submission only if its payload fits in a block.
pub fn check_transaction_size(txn_size: u64, max_block_size: u64) -> (r: Result<(), TransactionTooLarge>)
    ensures
        txn_size <= max_block_size ==> r is Ok,
        txn_size > max_block_size ==> r == Err::<(), TransactionTooLarge>(
            TransactionTooLarge { txn_size, max_block_size },
        ),
{
    if txn_size > max_block_size {
        Err(TransactionTooLarge { txn_size, max_block_size })
    } else {
        Ok(())
    }
}

/// A stake table was requested for an epoch later than the one after the current.
#[derive(Debug, Clone, Copy, PartialEq, Eq, Structural)]
pub struct EpochBeyondCurrent {
    pub requested: Option<u64>,
    pub highest: Option<u64>,
}

/// Order on optional epochs: no epoch comes before every epoch.
pub open spec fn epoch_le(a: Option<u64>, b: Option<u64>) -> bool {
    match (a, b) {
        (None, _) => true,
        (Some(_), None) => false,
        (Some(x), Some(y)) => x <= y,
    }
}

/// The latest epoch whose stake table can be served: the one after the current epoch
/// (none while epochs have not started).
pub open spec fn highest_servable(current: Option<u64>) -> Option<u64> {
    match current {
        None => None,
        Some(e) => Some((e + 1) as u64),
    }
}

/// Serve a stake table only up to the epoch after the current one.
pub fn check_stake_table_epoch(requested: Option<u64>, current: Option<u64>) -> (r: Result<
    (),
    EpochBeyondCurrent,
>)
    requires
        current matches Some(e) ==> e < u64::MAX,
    ensures
        epoch_le(requested, highest_servable(current)) ==> r is Ok,
        !epoch_le(requested, highest_servable(current)) ==> r == Err::<(), EpochBeyondCurrent>(
            EpochBeyondCurrent { requested, highest: highest_servable(current) },
        ),
{
    let highest = match current {
        None => None,
        Some(e) => Some(e + 1),
    };
    let beyond = match (requested, highest) {
        (None, _) => false,
        (Some(_), None) => true,
        (Some(x), Some(y)) => x > y,
    };
    if beyond {
        Err(EpochBeyondCurrent { requested, highest })
    } else {
        Ok(())
    }
}

/// How a request for shares ended.
#[derive(Debug, Clone, PartialEq, Eq)]
pub enum ShareRequestEnd<E> {
    /// The time allowed for collecting shares ran out
    TimedOut,
    /// The request itself failed
    Failed(E),
    /// The request completed, which collecting shares never does
    Completed,
}

/// Why no shares are returned.
#[derive(Debug, Clone, PartialEq, Eq)]
pub enum ShareRequestError<E> {
    /// The request failed
    RequestFailed(E),
    /// The request completed although every response is turned away
    UnexpectedCompletion,
}

/// The result of collecting shares: running out of time is the normal end and yields
/// the shares gathered so far; a failed request passes its error on.
pub fn collected_shares<S, E>(end: ShareRequestEnd<E>, collected: Vec<S>) -> (r: Result<
    Vec<S>,
    ShareRequestError<E>,
>)
    ensures
        end is TimedOut ==> (r matches Ok(v) && v@ == collected@),
        end matches ShareRequestEnd::Failed(e) ==> r == Err::<Vec<S>, ShareRequestError<E>>(
            ShareRequestError::RequestFailed(e),
        ),
        end is Completed ==> r == Err::<Vec<S>, ShareRequestError<E>>(
            ShareRequestError::UnexpectedCompletion,
        ),
{
    match end {
        ShareRequestEnd::TimedOut => Ok(collected),
        ShareRequestEnd::Failed(e) => Err(ShareRequestError::RequestFailed(e)),
        ShareRequestEnd::Completed => Err(ShareRequestError::UnexpectedCompletion),
    }
}

/// Why shares are not even asked for.
#[derive(Debug, Clone, Copy, PartialEq, Eq, Structural)]
pub enum ShareRequestRefused {
    /// The block was dispersed with the first VID scheme, whose total weight is not
    /// known here
    V0TotalWeight,
    /// The dispersal parameters cannot be made from the total weight
    InvalidParam,
    /// The payload commitment is of the first VID scheme, whose shares cannot be verified
    V0Verification,
}

/// Before any request for shares: the block's common data and its payload commitment
/// must be of the second VID scheme, and its parameters must be valid (`param_ok`), in
/// that order.
pub fn check_share_request(common_is_v1: bool, param_ok: bool, payload_hash_is_v1: bool) -> (r:
    Result<(), ShareRequestRefused>)
    ensures
        r == (if !common_is_v1 {
            Err(ShareRequestRefused::V0TotalWeight)
        } else if !param_ok {
            Err(ShareRequestRefused::InvalidParam)
        } else if !payload_hash_is_v1 {
            Err(ShareRequestRefused::V0Verification)
        } else {
            Ok(())
        }),
{
    if !common_is_v1 {
        Err(ShareRequestRefused::V0TotalWeight)
    } else if !param_ok {
        Err(ShareRequestRefused::InvalidParam)
    } else if !payload_hash_is_v1 {
        Err(ShareRequestRefused::V0Verification)
    } else {
        Ok(())
    }
}

/// Take in one response to a request for shares: it is kept only if it is a share of
/// the second VID scheme that verified against the payload commitment (`verified`);
/// anything else is turned away. Returns whether it was kept.
pub fn collect_share_response<A, S>(
    collected: &mut Vec<S>,
    response: VidShareVersion<A, S>,
    verified: bool,
) -> (kept: bool)
    ensures
        kept == (response is V1 && verified),
        kept ==> (response matches VidShareVersion::V1(s) && final(collected)@ == old(
            collected,
        )@.push(s)),
        !kept ==> final(collected)@ == old(collected)@,
{
    match response {
        VidShareVersion::V1(s) => {
            if verified {
                collected.push(s);
                true
            } else {
                false
            }
        },
        VidShareVersion::V0(_) => false,
    }
}

/// `key=value` lines for the public configuration variables, a missing value written
/// as empty.
pub fn public_env_lines(keys: &Vec<String>, values: &Vec<Option<String>>) -> (r: Vec<String>)
    requires
        keys@.len() == values@.len(),
    ensures
        r@.len() == keys@.len(),
        forall|i: int|
            0 <= i < r@.len() ==> #[trigger] r@[i]@ == keys@[i]@ + "="@ + match values@[i] {
                Some(v) => v@,
                None => Seq::<char>::empty(),
            },
{
    let mut r: Vec<String> = Vec::new();
    let mut i: usize = 0;
    while i < keys.len()
        invariant
            keys@.len() == values@.len(),
            i <= keys@.len(),
            r@.len() == i,
            forall|j: int|
                0 <= j < i ==> #[trigger] r@[j]@ == keys@[j]@ + "="@ + match values@[j] {
                    Some(v) => v@,
                    None => Seq::<char>::empty(),
                },
        decreases keys@.len() - i,
    {
        let mut line = keys[i].clone();
        line.append("=");
        match &values[i] {
            Some(v) => line.append(v.as_str()),
            None => {},
        }
        proof {
            match values@[i as int] {
                Some(v) => {},
                None => {
                    assert(keys@[i as int]@ + "="@ + Seq::<char>::empty() =~= keys@[i as int]@ + "="@);
                },
            }
        }
        r.push(line);
        i = i + 1;
    }
    r
}

} // verus!
