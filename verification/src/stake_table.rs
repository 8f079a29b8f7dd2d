use vstd::prelude::*;

verus! {

/// Major versions of the stake table contract.
#[derive(Debug, Clone, Copy, PartialEq, Eq, Structural)]
pub enum StakeTableContractVersion {
    V1,
    V2,
}

impl Default for StakeTableContractVersion {
    /// The current contract version.
    fn default() -> (r: Self)
        ensures
            r == StakeTableContractVersion::V2,
    {
        StakeTableContractVersion::V2
    }
}

/// The contract reported a major version this library does not know.
#[derive(Debug, Clone, Copy, PartialEq, Eq, Structural)]
pub struct UnsupportedStakeTableVersion {
    pub major_version: u8,
}

impl StakeTableContractVersion {
    /// Map the major version the contract reports to a known contract version.
    pub fn try_from_major_version(major_version: u8) -> (r: Result<
        StakeTableContractVersion,
        UnsupportedStakeTableVersion,
    >)
        ensures
            major_version == 1 ==> r == Ok::<StakeTableContractVersion, UnsupportedStakeTableVersion>(
                StakeTableContractVersion::V1,
            ),
            major_version == 2 ==> r == Ok::<StakeTableContractVersion, UnsupportedStakeTableVersion>(
                StakeTableContractVersion::V2,
            ),
            major_version != 1 && major_version != 2 ==> r == Err::<
                StakeTableContractVersion,
                UnsupportedStakeTableVersion,
            >(UnsupportedStakeTableVersion { major_version }),
    {
        match major_version {
            1 => Ok(StakeTableContractVersion::V1),
            2 => Ok(StakeTableContractVersion::V2),
            _ => Err(UnsupportedStakeTableVersion { major_version }),
        }
    }
}

/// Errors of stake table processing that callers are expected to handle.
#[derive(Debug, Clone, PartialEq, Eq)]
pub enum ExpectedStakeTableError {
    /// The Schnorr key (printed) is already used by another validator
    SchnorrKeyAlreadyUsed(String),
}

impl ExpectedStakeTableError {
    /// The error's message.
    pub fn message(&self) -> (r: String)
        ensures
            match self {
                ExpectedStakeTableError::SchnorrKeyAlreadyUsed(k) => r@ == "Schnorr key already used: "@
                    + k@,
            },
    {
        match self {
            ExpectedStakeTableError::SchnorrKeyAlreadyUsed(k) => {
                let mut m = String::from_str("Schnorr key already used: ");
                m.append(k.as_str());
                m
            },
        }
    }
}

/// Errors when ordering stake table events by their position in the L1 chain.
#[derive(Debug, Clone, Copy, PartialEq, Eq, Structural)]
pub enum EventSortingError {
    /// A log lacks its block number
    MissingBlockNumber,
    /// A log lacks its index within the block
    MissingLogIndex,
}

/// The position of an event log in the L1 chain: (block number, log index).
pub type EventKey = (u64, u64);

/// The key by which stake table events are ordered, from what the log carries.
pub fn event_key(block_number: Option<u64>, log_index: Option<u64>) -> (r: Result<
    EventKey,
    EventSortingError,
>)
    ensures
        block_number is None ==> r == Err::<EventKey, EventSortingError>(
            EventSortingError::MissingBlockNumber,
        ),
        block_number is Some && log_index is None ==> r == Err::<EventKey, EventSortingError>(
            EventSortingError::MissingLogIndex,
        ),
        (block_number, log_index) matches (Some(b), Some(i)) ==> r == Ok::<
            EventKey,
            EventSortingError,
        >((b, i)),
{
    match block_number {
        None => Err(EventSortingError::MissingBlockNumber),
        Some(b) => match log_index {
            None => Err(EventSortingError::MissingLogIndex),
            Some(i) => Ok((b, i)),
        },
    }
}

} // verus!
