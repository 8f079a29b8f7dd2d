use vstd::prelude::*;

verus! {

/// Stake table capacity used for testing
pub const STAKE_TABLE_CAPACITY_FOR_TEST: usize = 10;

/// Mock for system parameter of the mock ledger
#[derive(Debug, Clone, Copy, PartialEq, Eq, Structural)]
pub struct MockSystemParam {
    /// max capacity of stake table
    st_cap: usize,
}

impl MockSystemParam {
    /// The stake table capacity.
    pub closed spec fn capacity(&self) -> usize {
        self.st_cap
    }

    /// Init the system parameters
    pub fn init() -> (r: Self)
        ensures
            r.capacity() == STAKE_TABLE_CAPACITY_FOR_TEST,
    {
        Self { st_cap: STAKE_TABLE_CAPACITY_FOR_TEST }
    }

    /// The stake table capacity.
    pub fn st_cap(&self) -> (r: usize)
        ensures
            r == self.capacity(),
    {
        self.st_cap
    }
}

} // verus!
