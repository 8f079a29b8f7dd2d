use std::collections::HashSet;
use vstd::prelude::*;

verus! {

broadcast use vstd::std_specs::hash::group_hash_axioms;

/// What a request for an epoch's membership finds.
#[derive(Clone, Copy, Debug, PartialEq, Eq, Structural)]
pub enum MembershipLookup {
    /// The membership can be used now
    Ready,
    /// The table is missing and a catchup for the epoch is already running
    CatchupInProgress,
    /// The table is missing and nobody is fetching it: start a catchup
    StartCatchup,
}

/// Decide a membership request: without an epoch, or with the needed table already
/// present, the membership is ready; otherwise a catchup is joined or started.
///
/// `has_table` is whether the membership has the table the request needs (the
/// randomized stake table for a full membership, the plain stake table otherwise).
pub fn membership_lookup(epoch: Option<u64>, has_table: bool, catchup_in_progress: bool) -> (r:
    MembershipLookup)
    ensures
        epoch is None ==> r == MembershipLookup::Ready,
        epoch is Some ==> (has_table ==> r == MembershipLookup::Ready),
        epoch is Some && !has_table && catchup_in_progress ==> r
            == MembershipLookup::CatchupInProgress,
        epoch is Some && !has_table && !catchup_in_progress ==> r == MembershipLookup::StartCatchup,
{
    match epoch {
        None => MembershipLookup::Ready,
        Some(_) => {
            if has_table {
                MembershipLookup::Ready
            } else if catchup_in_progress {
                MembershipLookup::CatchupInProgress
            } else {
                MembershipLookup::StartCatchup
            }
        },
    }
}

/// The epoch whose root block determines the stake table of `epoch`: two epochs back,
/// saturating at zero.
pub fn root_epoch(epoch: u64) -> (r: u64)
    ensures
        r == if epoch >= 2 { (epoch - 2) as u64 } else { 0u64 },
{
    epoch.saturating_sub(2)
}

/// What another task's catchup of the epoch being examined came to, if one runs.
#[derive(Clone, Copy, Debug, PartialEq, Eq, Structural)]
pub enum OtherCatchup {
    /// Nobody else is fetching this epoch
    NotRunning,
    /// Another task fetched it
    Succeeded,
    /// Another task tried and failed
    Failed,
}

/// One step of planning a catchup.
#[derive(Clone, Copy, Debug, PartialEq, Eq, Structural)]
pub enum CatchupStep {
    /// Every table the requested epoch needs is present or being fetched: stop planning
    Done,
    /// The examined epoch lacks its table and is at most the second epoch: the initial
    /// stake table is missing, the catchup fails
    InitialTableMissing,
    /// Examine `next` (after claiming the examined epoch for this catchup, if `claim`)
    Next { next: u64, claim: bool },
    /// Another task's fetch of the examined epoch failed: examine it again
    Retry,
}

/// One step of the catchup planner for `epoch`, examining `try_epoch`.
///
/// Walking back from the epoch before the requested one, the planner claims every
/// epoch whose stake table is missing and stops at the first one it has, provided that
/// one is at least two epochs back (the requested epoch's root must be present).
/// Reaching the first or second epoch without a table means the initial table is
/// missing. An epoch that another task is fetching is waited for: its success ends the
/// planning, its failure makes the planner look again.
pub open spec fn catchup_step_spec(
    epoch: u64,
    first_epoch: u64,
    try_epoch: u64,
    has_table: bool,
    other: OtherCatchup,
) -> CatchupStep {
    if has_table {
        if try_epoch <= root_epoch_spec(epoch) {
            CatchupStep::Done
        } else {
            CatchupStep::Next { next: sat_dec(try_epoch), claim: false }
        }
    } else if try_epoch <= first_epoch + 1 {
        CatchupStep::InitialTableMissing
    } else {
        match other {
            OtherCatchup::NotRunning => CatchupStep::Next { next: sat_dec(try_epoch), claim: true },
            OtherCatchup::Succeeded => CatchupStep::Done,
            OtherCatchup::Failed => CatchupStep::Retry,
        }
    }
}

/// Whether the planner has to ask about another task's catchup of `try_epoch`: only when
/// the epoch lacks its table and lies after the second epoch (else the step does not
/// depend on it).
pub fn needs_claim(first_epoch: u64, try_epoch: u64, has_table: bool) -> (r: bool)
    requires
        first_epoch < u64::MAX,
    ensures
        r == (!has_table && try_epoch > first_epoch + 1),
        !r ==> forall|epoch: u64, a: OtherCatchup, b: OtherCatchup|
            #![trigger catchup_step_spec(epoch, first_epoch, try_epoch, has_table, a), catchup_step_spec(epoch, first_epoch, try_epoch, has_table, b)]
            catchup_step_spec(epoch, first_epoch, try_epoch, has_table, a) == catchup_step_spec(
                epoch,
                first_epoch,
                try_epoch,
                has_table,
                b,
            ),
{
    !has_table && try_epoch > first_epoch + 1
}

/// Execute one planning step; see [`catchup_step_spec`].
pub fn catchup_step(
    epoch: u64,
    first_epoch: u64,
    try_epoch: u64,
    has_table: bool,
    other: OtherCatchup,
) -> (r: CatchupStep)
    requires
        first_epoch < u64::MAX,
    ensures
        r == catchup_step_spec(epoch, first_epoch, try_epoch, has_table, other),
        has_table && (try_epoch == 0 || try_epoch + 2 <= epoch) ==> r == CatchupStep::Done,
        has_table && try_epoch > 0 && try_epoch + 2 > epoch ==> r == (CatchupStep::Next {
            next: (try_epoch - 1) as u64,
            claim: false,
        }),
{
    proof {
        lemma_present_root_ends_planning(epoch, first_epoch, try_epoch, has_table, other);
    }
    if has_table {
        if try_epoch <= epoch.saturating_sub(2) {
            CatchupStep::Done
        } else {
            CatchupStep::Next { next: try_epoch.saturating_sub(1), claim: false }
        }
    } else {
        if try_epoch <= first_epoch + 1 {
            return CatchupStep::InitialTableMissing;
        }
        match other {
            OtherCatchup::NotRunning => CatchupStep::Next {
                next: try_epoch.saturating_sub(1),
                claim: true,
            },
            OtherCatchup::Succeeded => CatchupStep::Done,
            OtherCatchup::Failed => CatchupStep::Retry,
        }
    }
}

/// `epoch - 2`, saturating at zero.
pub open spec fn root_epoch_spec(epoch: u64) -> u64 {
    if epoch >= 2 { (epoch - 2) as u64 } else { 0u64 }
}

/// `e - 1`, saturating at zero.
pub open spec fn sat_dec(e: u64) -> u64 {
    if e >= 1 { (e - 1) as u64 } else { 0u64 }
}

/// Planning never claims the first or second epoch, only claims epochs whose table
/// is missing, and every step that moves on moves to a strictly earlier epoch; a retry
/// happens only after another task's failed fetch.
pub proof fn lemma_claims_move_back(
    epoch: u64,
    first_epoch: u64,
    try_epoch: u64,
    has_table: bool,
    other: OtherCatchup,
)
    ensures
        catchup_step_spec(epoch, first_epoch, try_epoch, has_table, other) matches CatchupStep::Next {
            next,
            claim,
        } ==> next < try_epoch && (claim ==> try_epoch > first_epoch + 1 && !has_table),
        catchup_step_spec(epoch, first_epoch, try_epoch, has_table, other) is Retry ==> !has_table
            && other == OtherCatchup::Failed,
        catchup_step_spec(epoch, first_epoch, try_epoch, has_table, other) is Done ==> (has_table
            && try_epoch <= root_epoch_spec(epoch)) || other == OtherCatchup::Succeeded,
{
}

/// An examined epoch whose stake table is present and that lies at or before the
/// requested epoch's root (two epochs back, or epoch 0) ends the planning, whatever
/// else holds; a present table after the root moves the walk one epoch back without
/// claiming it. A missing table at the first or second epoch fails the catchup; a
/// missing table later is claimed and the walk moves one epoch back when no other task
/// is fetching it, ends the planning when another task fetched it, and is looked at
/// again when that task failed.
pub proof fn lemma_present_root_ends_planning(
    epoch: u64,
    first_epoch: u64,
    try_epoch: u64,
    has_table: bool,
    other: OtherCatchup,
)
    ensures
        has_table && (try_epoch == 0 || try_epoch + 2 <= epoch) ==> catchup_step_spec(
            epoch,
            first_epoch,
            try_epoch,
            has_table,
            other,
        ) == CatchupStep::Done,
        has_table && try_epoch > 0 && try_epoch + 2 > epoch ==> catchup_step_spec(
            epoch,
            first_epoch,
            try_epoch,
            has_table,
            other,
        ) == (CatchupStep::Next { next: (try_epoch - 1) as u64, claim: false }),
        !has_table && try_epoch <= first_epoch + 1 ==> catchup_step_spec(
            epoch,
            first_epoch,
            try_epoch,
            has_table,
            other,
        ) == CatchupStep::InitialTableMissing,
        !has_table && try_epoch > first_epoch + 1 ==> (catchup_step_spec(
            epoch,
            first_epoch,
            try_epoch,
            has_table,
            other,
        ) == CatchupStep::Done <==> other == OtherCatchup::Succeeded),
        !has_table && try_epoch > first_epoch + 1 && other == OtherCatchup::NotRunning
            ==> catchup_step_spec(epoch, first_epoch, try_epoch, has_table, other) == (
        CatchupStep::Next { next: (try_epoch - 1) as u64, claim: true }),
        !has_table && try_epoch > first_epoch + 1 && other == OtherCatchup::Failed
            ==> catchup_step_spec(epoch, first_epoch, try_epoch, has_table, other)
            == CatchupStep::Retry,
{
}

/// Why the randomness of an epoch cannot be had during a catchup.
#[derive(Clone, Copy, Debug, PartialEq, Eq, Structural)]
pub enum DrbError {
    /// The stake table of the epoch two back (the root epoch) is missing
    RootStakeTableMissing,
    /// The membership of the epoch after the root epoch is missing
    DrbStakeTableMissing,
    /// The certificate signatures of the root leaf could not be serialized
    SignaturesNotSerialized,
}

/// Where the randomness of an epoch comes from during a catchup.
#[derive(Clone, Copy, Debug, PartialEq, Eq, Structural)]
pub enum DrbSource {
    /// The result recorded at the transition block of the epoch before
    Fetched,
    /// Computed from the seed of the root leaf's certificate signatures
    Computed,
}

/// Decide how an epoch's randomness is had: the root epoch's stake table and the
/// membership after it must be there (else an error, in that order); a result that can
/// be fetched is preferred over computing one.
pub fn drb_source(root_stake_table: bool, drb_stake_table: bool, drb_fetchable: bool) -> (r: Result<
    DrbSource,
    DrbError,
>)
    ensures
        r == (if !root_stake_table {
            Err(DrbError::RootStakeTableMissing)
        } else if !drb_stake_table {
            Err(DrbError::DrbStakeTableMissing)
        } else if drb_fetchable {
            Ok(DrbSource::Fetched)
        } else {
            Ok(DrbSource::Computed)
        }),
{
    if !root_stake_table {
        Err(DrbError::RootStakeTableMissing)
    } else if !drb_stake_table {
        Err(DrbError::DrbStakeTableMissing)
    } else if drb_fetchable {
        Ok(DrbSource::Fetched)
    } else {
        Ok(DrbSource::Computed)
    }
}

/// The seed of a randomness computation from the serialized signatures of the root
/// leaf's certificate (`None` when they could not be serialized).
pub fn drb_seed(serialized: Option<Vec<u8>>) -> (r: Result<[u8; 32], DrbError>)
    ensures
        serialized is None ==> r == Err::<[u8; 32], DrbError>(DrbError::SignaturesNotSerialized),
        serialized matches Some(b) ==> (r matches Ok(seed) && forall|i: int|
            0 <= i < 32 ==> #[trigger] seed@[i] == if i < b@.len() {
                b@[i]
            } else {
                0u8
            }),
{
    match serialized {
        None => Err(DrbError::SignaturesNotSerialized),
        Some(b) => Ok(drb_seed_input(b.as_slice())),
    }
}

/// The 32-byte seed of a randomness computation derived from serialized signatures:
/// their first 32 bytes, zero-padded when there are fewer.
pub fn drb_seed_input(bytes: &[u8]) -> (r: [u8; 32])
    ensures
        forall|i: int|
            0 <= i < 32 ==> #[trigger] r@[i] == if i < bytes@.len() { bytes@[i] } else { 0u8 },
{
    let mut seed = [0u8; 32];
    let len = if bytes.len() < 32 { bytes.len() } else { 32 };
    let mut i: usize = 0;
    while i < len
        invariant
            i <= len,
            len <= 32,
            len == if bytes@.len() < 32 { bytes@.len() } else { 32 },
            seed@.len() == 32,
            forall|k: int| 0 <= k < i ==> #[trigger] seed@[k] == bytes@[k],
            forall|k: int| i <= k < 32 ==> #[trigger] seed@[k] == 0u8,
        decreases len - i,
    {
        seed[i] = bytes[i];
        i = i + 1;
    }
    seed
}

/// The epochs for which a membership under test has its stake table, and those for
/// which it also has the randomness that fixes its leaders.
pub struct CatchupEpochs {
    epochs: HashSet<u64>,
    drbs: HashSet<u64>,
}

impl CatchupEpochs {
    /// Epochs with a stake table.
    pub closed spec fn tables(&self) -> Set<u64> {
        self.epochs@
    }

    /// Epochs with a randomized stake table.
    pub closed spec fn randomized(&self) -> Set<u64> {
        self.drbs@
    }

    pub fn new() -> (r: Self)
        ensures
            r.tables() == Set::<u64>::empty(),
            r.randomized() == Set::<u64>::empty(),
    {
        CatchupEpochs { epochs: HashSet::new(), drbs: HashSet::new() }
    }

    pub fn has_stake_table(&self, epoch: u64) -> (r: bool)
        ensures
            r == self.tables().contains(epoch),
    {
        self.epochs.contains(&epoch)
    }

    pub fn has_randomized_stake_table(&self, epoch: u64) -> (r: bool)
        ensures
            r == self.randomized().contains(epoch),
    {
        self.drbs.contains(&epoch)
    }

    /// Whether a read of the stake table of `epoch` is allowed: always without an
    /// epoch, otherwise only when the table is present.
    pub fn stake_table_available(&self, epoch: Option<u64>) -> (r: bool)
        ensures
            r == match epoch {
                None => true,
                Some(e) => self.tables().contains(e),
            },
    {
        match epoch {
            None => true,
            Some(e) => self.epochs.contains(&e),
        }
    }

    /// Whether a leader lookup for `epoch` is allowed: always without an epoch,
    /// otherwise only when the randomized table is present.
    pub fn randomized_stake_table_available(&self, epoch: Option<u64>) -> (r: bool)
        ensures
            r == match epoch {
                None => true,
                Some(e) => self.randomized().contains(e),
            },
    {
        match epoch {
            None => true,
            Some(e) => self.drbs.contains(&e),
        }
    }

    /// Record the randomness of `epoch`.
    pub fn add_drb_result(&mut self, epoch: u64)
        ensures
            final(self).randomized() == old(self).randomized().insert(epoch),
            final(self).tables() == old(self).tables(),
    {
        self.drbs.insert(epoch);
    }

    /// The first epoch and the one after it have both tables from the start.
    pub fn set_first_epoch(&mut self, epoch: u64)
        requires
            epoch < u64::MAX,
        ensures
            final(self).tables() == old(self).tables().insert(epoch).insert((epoch + 1) as u64),
            final(self).randomized() == old(self).randomized().insert(epoch).insert(
                (epoch + 1) as u64,
            ),
    {
        self.epochs.insert(epoch);
        self.epochs.insert(epoch + 1);
        self.drbs.insert(epoch);
        self.drbs.insert(epoch + 1);
    }

    /// Record the stake table of `epoch`, once its root is known.
    pub fn add_epoch_root(&mut self, epoch: u64)
        ensures
            final(self).tables() == old(self).tables().insert(epoch),
            final(self).randomized() == old(self).randomized(),
    {
        self.epochs.insert(epoch);
    }
}

/// What a wait for an epoch's catchup comes to.
#[derive(Clone, Copy, Debug, PartialEq, Eq, Structural)]
pub enum CatchupWait {
    /// A catchup for the epoch runs: wait for its outcome
    WaitForCatchup,
    /// No catchup runs, and the epoch's stake table is present
    Ready,
    /// No catchup runs, and the epoch's stake table is missing: an error
    Unavailable,
}

/// Decide a wait for the catchup of an epoch: a running catchup is waited for;
/// otherwise the stake table is either there or the wait fails.
pub fn catchup_wait(catchup_in_progress: bool, has_stake_table: bool) -> (r: CatchupWait)
    ensures
        catchup_in_progress ==> r == CatchupWait::WaitForCatchup,
        !catchup_in_progress && has_stake_table ==> r == CatchupWait::Ready,
        !catchup_in_progress && !has_stake_table ==> r == CatchupWait::Unavailable,
{
    if catchup_in_progress {
        CatchupWait::WaitForCatchup
    } else if has_stake_table {
        CatchupWait::Ready
    } else {
        CatchupWait::Unavailable
    }
}

/// The epochs whose catchup is running.
pub struct CatchupsInProgress {
    epochs: HashSet<u64>,
}

impl CatchupsInProgress {
    /// The epochs being caught up.
    pub closed spec fn running(&self) -> Set<u64> {
        self.epochs@
    }

    pub fn new() -> (r: Self)
        ensures
            r.running() == Set::<u64>::empty(),
    {
        CatchupsInProgress { epochs: HashSet::new() }
    }

    /// Whether a catchup for `epoch` runs.
    pub fn contains(&self, epoch: u64) -> (r: bool)
        ensures
            r == self.running().contains(epoch),
    {
        self.epochs.contains(&epoch)
    }

    /// Claim `epoch` for a new catchup; `false`, and nothing changes, when one already
    /// runs.
    pub fn claim(&mut self, epoch: u64) -> (r: bool)
        ensures
            r == !old(self).running().contains(epoch),
            final(self).running() == old(self).running().insert(epoch),
    {
        if self.epochs.contains(&epoch) {
            proof {
                assert(old(self).running().insert(epoch) =~= old(self).running());
            }
            false
        } else {
            self.epochs.insert(epoch);
            true
        }
    }

    /// A catchup for `epoch` finished.
    pub fn complete(&mut self, epoch: u64)
        ensures
            final(self).running() == old(self).running().remove(epoch),
    {
        self.epochs.remove(&epoch);
    }

    /// A catchup failed: none of the epochs it had claimed is being caught up any more.
    pub fn cancel_all(&mut self, epochs: &Vec<u64>)
        ensures
            final(self).running() == old(self).running().difference(epochs@.to_set()),
    {
        let mut i: usize = 0;
        while i < epochs.len()
            invariant
                i <= epochs@.len(),
                self.running() == old(self).running().difference(
                    epochs@.subrange(0, i as int).to_set(),
                ),
            decreases epochs@.len() - i,
        {
            self.epochs.remove(&epochs[i]);
            proof {
                assert(epochs@.subrange(0, i + 1).to_set() =~= epochs@.subrange(0, i as int).to_set().insert(
                    epochs@[i as int],
                )) by {
                    assert(epochs@.subrange(0, i + 1) =~= epochs@.subrange(0, i as int).push(
                        epochs@[i as int],
                    ));
                    epochs@.subrange(0, i as int).lemma_push_to_set_commute(epochs@[i as int]);
                }
                assert(self.running() =~= old(self).running().difference(
                    epochs@.subrange(0, i + 1).to_set(),
                ));
            }
            i = i + 1;
        }
        proof {
            assert(epochs@.subrange(0, epochs@.len() as int) =~= epochs@);
        }
    }
}

/// Catchups do not duplicate each other's work: once an epoch is claimed it stays
/// claimed, so every further claim of it fails, until its catchup completes or is
/// cancelled; completing or cancelling frees it for a new claim.
pub proof fn lemma_claim_is_exclusive(
    before: CatchupsInProgress,
    claimed: CatchupsInProgress,
    freed: CatchupsInProgress,
    epoch: u64,
)
    requires
        claimed.running() == before.running().insert(epoch),
        freed.running() == claimed.running().remove(epoch),
    ensures
        claimed.running().contains(epoch),
        !freed.running().contains(epoch),
{
}

/// What became of the epoch that a catchup fetched last: its stake table and its
/// randomness were both fetched (or computed) and stored, or one of them failed.
#[derive(Clone, Copy, Debug, PartialEq, Eq, Structural)]
pub enum FetchEvent {
    Fetched,
    Failed,
}

/// What a catchup tells the tasks waiting on its epochs after a fetch.
#[derive(Clone, Debug, PartialEq, Eq)]
pub enum FetchNotice {
    /// This epoch's membership is ready
    Succeeded(u64),
    /// The catchup failed: each of these epochs gets the error
    Failed(Vec<u64>),
}

/// The fetch phase of a catchup: the epochs it claimed and has still to fetch, in the
/// order the planner found them, newest first, so the oldest is fetched first.
pub struct CatchupFetch {
    pending: Vec<u64>,
}

/// A plan lists its epochs newest first.
pub open spec fn newest_first(s: Seq<u64>) -> bool {
    forall|i: int, j: int| 0 <= i < j < s.len() ==> s[i] > s[j]
}

impl CatchupFetch {
    /// The epochs still to fetch, newest first.
    pub closed spec fn pending(&self) -> Seq<u64> {
        self.pending@
    }

    /// Start fetching the epochs of a plan (newest first: the requested epoch, then the
    /// earlier epochs it claimed).
    pub fn new(plan: Vec<u64>) -> (r: Self)
        ensures
            r.pending() == plan@,
    {
        CatchupFetch { pending: plan }
    }

    /// The epoch to fetch next: the last one planned, which in a plan listed newest
    /// first is the oldest left; `None` when all are fetched.
    pub fn next_epoch(&self) -> (r: Option<u64>)
        ensures
            self.pending().len() == 0 ==> r is None,
            self.pending().len() > 0 ==> r == Some(self.pending().last()),
            newest_first(self.pending()) ==> (r matches Some(e) ==> forall|k: int|
                0 <= k < self.pending().len() ==> e <= #[trigger] self.pending()[k]),
    {
        let n = self.pending.len();
        if n == 0 {
            None
        } else {
            Some(self.pending[n - 1])
        }
    }

    /// Record what became of the epoch fetched last (the one `next_epoch` named).
    ///
    /// On success that epoch is done: it leaves the plan and is no longer being caught
    /// up, and its waiters are told it succeeded. On failure the catchup ends: every
    /// epoch still planned, that one included, leaves the plan and is no longer being
    /// caught up, and each of their waiters is told of the failure once.
    pub fn on_fetch(&mut self, running: &mut CatchupsInProgress, event: FetchEvent) -> (r:
        FetchNotice)
        requires
            old(self).pending().len() > 0,
        ensures
            event == FetchEvent::Fetched ==> {
                &&& r == FetchNotice::Succeeded(old(self).pending().last())
                &&& final(self).pending() == old(self).pending().drop_last()
                &&& final(running).running() == old(running).running().remove(
                    old(self).pending().last(),
                )
            },
            event == FetchEvent::Failed ==> {
                &&& r matches FetchNotice::Failed(v) && v@ == old(self).pending()
                &&& final(self).pending().len() == 0
                &&& final(running).running() == old(running).running().difference(
                    old(self).pending().to_set(),
                )
            },
    {
        match event {
            FetchEvent::Fetched => {
                let e = self.pending.pop().unwrap();
                running.complete(e);
                FetchNotice::Succeeded(e)
            },
            FetchEvent::Failed => {
                running.cancel_all(&self.pending);
                let mut failed: Vec<u64> = Vec::new();
                std::mem::swap(&mut failed, &mut self.pending);
                FetchNotice::Failed(failed)
            },
        }
    }

    /// Give up before fetching anything (the planning failed): every planned epoch is
    /// released and its waiters are told of the failure.
    pub fn abandon(&mut self, running: &mut CatchupsInProgress) -> (r: Vec<u64>)
        ensures
            r@ == old(self).pending(),
            final(self).pending().len() == 0,
            final(running).running() == old(running).running().difference(
                old(self).pending().to_set(),
            ),
    {
        running.cancel_all(&self.pending);
        let mut failed: Vec<u64> = Vec::new();
        std::mem::swap(&mut failed, &mut self.pending);
        failed
    }
}

/// Whatever the outcome, a fetch releases the epochs it reports on: the epoch that
/// succeeded, or every epoch told of a failure, is no longer being caught up, and each
/// planned epoch is reported exactly once over the whole catchup (it is reported when
/// it leaves the plan, and it leaves the plan once).
pub proof fn lemma_fetch_releases(
    before: Seq<u64>,
    after: Seq<u64>,
    running_before: Set<u64>,
    running_after: Set<u64>,
    succeeded: bool,
)
    requires
        before.len() > 0,
        succeeded ==> after == before.drop_last() && running_after == running_before.remove(
            before.last(),
        ),
        !succeeded ==> after.len() == 0 && running_after == running_before.difference(
            before.to_set(),
        ),
    ensures
        succeeded ==> !running_after.contains(before.last()) && after.push(before.last())
            == before,
        !succeeded ==> forall|k: int|
            0 <= k < before.len() ==> !running_after.contains(#[trigger] before[k]),
{
    if succeeded {
        assert(after.push(before.last()) =~= before);
    } else {
        assert forall|k: int| 0 <= k < before.len() implies !running_after.contains(
            #[trigger] before[k],
        ) by {
            assert(before.to_set().contains(before[k]));
        }
    }
}

/// Why a catchup could not be planned.
#[derive(Clone, Copy, Debug, PartialEq, Eq, Structural)]
pub enum PlanError {
    /// The membership's first epoch is not set
    FirstEpochNotSet,
    /// An epoch at or before the second lacks its stake table
    InitialTableMissing,
}

/// How planning stands after a step.
#[derive(Clone, Copy, Debug, PartialEq, Eq, Structural)]
pub enum PlanProgress {
    /// Examine the next epoch
    Continue,
    /// The plan is complete
    Done,
    /// The initial stake table is missing: the catchup fails
    Failed,
}

/// The planning phase of a catchup to `epoch`: walking back from the epoch before it,
/// collecting the epochs to fetch, newest first.
pub struct CatchupPlanner {
    epoch: u64,
    first_epoch: u64,
    try_epoch: u64,
    plan: Vec<u64>,
}

impl CatchupPlanner {
    /// The epoch being caught up to.
    pub closed spec fn target(&self) -> u64 {
        self.epoch
    }

    /// The membership's first epoch.
    pub closed spec fn first(&self) -> u64 {
        self.first_epoch
    }

    /// The epoch examined next.
    pub closed spec fn examined(&self) -> u64 {
        self.try_epoch
    }

    /// The epochs to fetch so far, newest first.
    pub closed spec fn planned(&self) -> Seq<u64> {
        self.plan@
    }

    /// The plan starts with the target, lists epochs newest first, and everything in it
    /// lies after the epoch examined next.
    pub closed spec fn wf(&self) -> bool {
        &&& self.plan@.len() > 0
        &&& self.plan@[0] == self.epoch
        &&& newest_first(self.plan@)
        &&& self.first_epoch < u64::MAX
        &&& self.try_epoch < self.epoch || (self.epoch == 0 && self.try_epoch == 0)
        &&& self.plan@.len() > 1 ==> self.plan@.last() > self.try_epoch
    }

    /// Start planning a catchup to `epoch`: the epoch itself is always fetched, and the
    /// walk starts at the epoch before it. Without a first epoch no plan can be made;
    /// the epoch's claim is then handed back for release.
    pub fn start(epoch: u64, first_epoch: Option<u64>) -> (r: Result<Self, (PlanError, CatchupFetch)>)
        requires
            first_epoch matches Some(f) ==> f < u64::MAX,
        ensures
            first_epoch is None ==> (r matches Err((e, f)) && e == PlanError::FirstEpochNotSet
                && f.pending() == seq![epoch]),
            first_epoch matches Some(f) ==> (r matches Ok(p) && p.wf() && p.target() == epoch
                && p.first() == f && p.examined() == sat_dec(epoch) && p.planned() == seq![epoch]),
    {
        let mut plan: Vec<u64> = Vec::new();
        plan.push(epoch);
        match first_epoch {
            None => Err((PlanError::FirstEpochNotSet, CatchupFetch::new(plan))),
            Some(f) => {
                let p = CatchupPlanner {
                    epoch,
                    first_epoch: f,
                    try_epoch: epoch.saturating_sub(1),
                    plan,
                };
                proof {
                    assert(p.plan@ =~= seq![epoch]);
                }
                Ok(p)
            },
        }
    }

    /// The epoch to examine now.
    pub fn examined_epoch(&self) -> (r: u64)
        ensures
            r == self.examined(),
    {
        self.try_epoch
    }

    /// Whether examining the current epoch needs to know of another task's catchup of
    /// it (see [`needs_claim`]).
    pub fn asks_other(&self, has_table: bool) -> (r: bool)
        requires
            self.wf(),
        ensures
            r == (!has_table && self.examined() > self.first() + 1),
    {
        needs_claim(self.first_epoch, self.try_epoch, has_table)
    }

    /// Take one planning step for the examined epoch (see [`catchup_step_spec`]): a
    /// claimed epoch joins the plan, and the walk moves back, retries, ends or fails.
    pub fn advance(&mut self, has_table: bool, other: OtherCatchup) -> (r: PlanProgress)
        requires
            old(self).wf(),
        ensures
            final(self).wf(),
            final(self).target() == old(self).target(),
            final(self).first() == old(self).first(),
            match catchup_step_spec(
                old(self).target(),
                old(self).first(),
                old(self).examined(),
                has_table,
                other,
            ) {
                CatchupStep::Done => r == PlanProgress::Done && final(self).planned() == old(
                    self,
                ).planned() && final(self).examined() == old(self).examined(),
                CatchupStep::InitialTableMissing => r == PlanProgress::Failed
                    && final(self).planned() == old(self).planned() && final(self).examined()
                    == old(self).examined(),
                CatchupStep::Retry => r == PlanProgress::Continue && final(self).planned() == old(
                    self,
                ).planned() && final(self).examined() == old(self).examined(),
                CatchupStep::Next { next, claim } => r == PlanProgress::Continue
                    && final(self).examined() == next && final(self).planned() == if claim {
                    old(self).planned().push(old(self).examined())
                } else {
                    old(self).planned()
                },
            },
    {
        let step = catchup_step(self.epoch, self.first_epoch, self.try_epoch, has_table, other);
        proof {
            lemma_claims_move_back(self.epoch, self.first_epoch, self.try_epoch, has_table, other);
        }
        match step {
            CatchupStep::Done => PlanProgress::Done,
            CatchupStep::InitialTableMissing => PlanProgress::Failed,
            CatchupStep::Retry => PlanProgress::Continue,
            CatchupStep::Next { next, claim } => {
                if claim {
                    let ghost old_plan = self.plan@;
                    let t = self.try_epoch;
                    proof {
                        assert(t < self.epoch);
                        assert(old_plan.last() > t);
                    }
                    self.plan.push(t);
                    proof {
                        assert forall|i: int, j: int| 0 <= i < j < self.plan@.len() implies
                            self.plan@[i] > self.plan@[j] by {
                            if j == old_plan.len() {
                                assert(old_plan[i] >= old_plan.last());
                            }
                        }
                    }
                }
                self.try_epoch = next;
                PlanProgress::Continue
            },
        }
    }

    /// The fetch phase that the finished (or failed) planning hands over: its plan,
    /// newest first, so epochs are fetched oldest first.
    pub fn into_fetch(self) -> (r: CatchupFetch)
        requires
            self.wf(),
        ensures
            r.pending() == self.planned(),
            newest_first(r.pending()),
    {
        CatchupFetch::new(self.plan)
    }
}

} // verus!
