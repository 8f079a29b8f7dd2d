use espresso_core::epoch_catchup::{
    drb_seed, drb_source, CatchupPlanner, DrbError, DrbSource, PlanError, PlanProgress,
};
use espresso_core::epoch_catchup::{
    catchup_step, catchup_wait, drb_seed_input, membership_lookup, root_epoch, CatchupEpochs,
    CatchupStep, CatchupWait, CatchupsInProgress, MembershipLookup, OtherCatchup,
    CatchupFetch, FetchEvent, FetchNotice, needs_claim,
};

#[test]
fn lookup_decisions() {
    assert_eq!(membership_lookup(None, false, false), MembershipLookup::Ready);
    assert_eq!(membership_lookup(Some(3), true, true), MembershipLookup::Ready);
    assert_eq!(membership_lookup(Some(3), false, true), MembershipLookup::CatchupInProgress);
    assert_eq!(membership_lookup(Some(3), false, false), MembershipLookup::StartCatchup);
}

#[test]
fn root_epochs() {
    assert_eq!(root_epoch(10), 8);
    assert_eq!(root_epoch(1), 0);
    assert_eq!(root_epoch(0), 0);
}

/// Plan a catchup to `epoch` against the epochs that have a table.
fn plan(epoch: u64, first: u64, tables: &[u64]) -> Result<Vec<u64>, ()> {
    let mut claimed = vec![epoch];
    let mut t = epoch.saturating_sub(1);
    loop {
        match catchup_step(epoch, first, t, tables.contains(&t), OtherCatchup::NotRunning) {
            CatchupStep::Done => return Ok(claimed),
            CatchupStep::InitialTableMissing => return Err(()),
            CatchupStep::Next { next, claim } => {
                if claim {
                    claimed.push(t);
                }
                t = next;
            },
            CatchupStep::Retry => unreachable!(),
        }
    }
}

#[test]
fn catchup_plans() {
    // tables for 1..=5: catching up to 10 fetches 6..=9 as well
    assert_eq!(plan(10, 1, &[1, 2, 3, 4, 5]), Ok(vec![10, 9, 8, 7, 6]));
    // the table right before is present but the root (8) is needed
    assert_eq!(plan(10, 1, &[1, 2, 3, 4, 5, 6, 7, 8, 9]), Ok(vec![10]));
    // nothing but the first epoch: the second is missing
    assert_eq!(plan(5, 1, &[1]), Err(()));
}

#[test]
fn catchup_other_tasks() {
    assert_eq!(catchup_step(10, 1, 7, false, OtherCatchup::Succeeded), CatchupStep::Done);
    assert_eq!(catchup_step(10, 1, 7, false, OtherCatchup::Failed), CatchupStep::Retry);
    assert_eq!(
        catchup_step(10, 1, 7, false, OtherCatchup::NotRunning),
        CatchupStep::Next { next: 6, claim: true }
    );
    assert_eq!(catchup_step(10, 1, 2, false, OtherCatchup::NotRunning), CatchupStep::InitialTableMissing);
}

#[test]
fn drb_seed_pads_and_truncates() {
    let short = drb_seed_input(&[1, 2, 3]);
    let mut expected = [0u8; 32];
    expected[..3].copy_from_slice(&[1, 2, 3]);
    assert_eq!(short, expected);
    let long: Vec<u8> = (0..40).collect();
    let seed = drb_seed_input(&long);
    assert_eq!(&seed[..], &long[..32]);
}

#[test]
fn catchup_epochs_bookkeeping() {
    let mut e = CatchupEpochs::new();
    assert!(!e.has_stake_table(1));
    assert!(e.stake_table_available(None));
    assert!(!e.stake_table_available(Some(1)));
    e.set_first_epoch(1);
    assert!(e.has_stake_table(1) && e.has_stake_table(2));
    assert!(e.has_randomized_stake_table(1) && e.has_randomized_stake_table(2));
    e.add_epoch_root(3);
    assert!(e.has_stake_table(3));
    assert!(!e.has_randomized_stake_table(3));
    assert!(!e.randomized_stake_table_available(Some(3)));
    e.add_drb_result(3);
    assert!(e.has_randomized_stake_table(3));
    assert!(e.randomized_stake_table_available(Some(3)));
}

#[test]
fn waiting_for_a_catchup() {
    assert_eq!(catchup_wait(true, false), CatchupWait::WaitForCatchup);
    assert_eq!(catchup_wait(true, true), CatchupWait::WaitForCatchup);
    assert_eq!(catchup_wait(false, true), CatchupWait::Ready);
    assert_eq!(catchup_wait(false, false), CatchupWait::Unavailable);
}

#[test]
fn catchups_in_progress() {
    let mut running = CatchupsInProgress::new();
    assert!(running.claim(10));
    assert!(!running.claim(10));
    assert!(running.claim(9));
    assert!(running.claim(8));
    running.complete(8);
    assert!(!running.contains(8));
    running.cancel_all(&vec![10, 9, 7]);
    assert!(!running.contains(10) && !running.contains(9));
    assert!(running.claim(10));
}

#[test]
fn fetch_phase_goes_oldest_first_and_releases() {
    let mut running = CatchupsInProgress::new();
    for e in [10u64, 9, 8] {
        assert!(running.claim(e));
    }
    let mut f = CatchupFetch::new(vec![10, 9, 8]);
    assert_eq!(f.next_epoch(), Some(8));
    assert_eq!(f.on_fetch(&mut running, FetchEvent::Fetched), FetchNotice::Succeeded(8));
    assert!(!running.contains(8));
    assert_eq!(f.next_epoch(), Some(9));
    assert_eq!(f.on_fetch(&mut running, FetchEvent::Failed), FetchNotice::Failed(vec![10, 9]));
    assert!(!running.contains(9) && !running.contains(10));
    assert_eq!(f.next_epoch(), None);

    assert!(running.claim(5));
    let mut g = CatchupFetch::new(vec![5]);
    assert_eq!(g.abandon(&mut running), vec![5]);
    assert!(!running.contains(5));
    assert_eq!(g.next_epoch(), None);
}

#[test]
fn other_catchups_matter_only_for_missing_later_epochs() {
    assert!(needs_claim(1, 5, false));
    assert!(!needs_claim(1, 5, true));
    assert!(!needs_claim(1, 2, false));
}

#[test]
fn drb_sources() {

    assert_eq!(drb_source(false, true, true), Err(DrbError::RootStakeTableMissing));
    assert_eq!(drb_source(true, false, true), Err(DrbError::DrbStakeTableMissing));
    assert_eq!(drb_source(true, true, true), Ok(DrbSource::Fetched));
    assert_eq!(drb_source(true, true, false), Ok(DrbSource::Computed));
    assert_eq!(drb_seed(None), Err(DrbError::SignaturesNotSerialized));
    let mut expected = [0u8; 32];
    expected[0] = 1;
    expected[1] = 2;
    assert_eq!(drb_seed(Some(vec![1, 2])), Ok(expected));
}

#[test]
fn planner_builds_the_plan_newest_first() {
    // tables present for epochs 1..=5; catch up to 9 from first epoch 1
    let mut p = CatchupPlanner::start(9, Some(1)).ok().unwrap();
    let mut steps = 0;
    loop {
        let e = p.examined_epoch();
        let present = e <= 5;
        // no other catchup runs: asking would report `NotRunning`
        assert_eq!(p.asks_other(present), !present && e > 2);
        let other = OtherCatchup::NotRunning;
        match p.advance(present, other) {
            PlanProgress::Continue => steps += 1,
            PlanProgress::Done => break,
            PlanProgress::Failed => panic!("planning failed"),
        }
        assert!(steps < 20);
    }
    let mut f = p.into_fetch();
    assert_eq!(f.next_epoch(), Some(6));
    let mut running = CatchupsInProgress::new();
    let mut order = vec![];
    while let Some(e) = f.next_epoch() {
        order.push(e);
        f.on_fetch(&mut running, FetchEvent::Fetched);
    }
    assert_eq!(order, vec![6, 7, 8, 9]);

    match CatchupPlanner::start(9, None) {
        Err((PlanError::FirstEpochNotSet, mut claimed)) => {
            assert_eq!(claimed.abandon(&mut running), vec![9]);
        },
        _ => panic!("expected the first epoch to be required"),
    }
    // missing initial tables: epoch 2 lacks its table
    let mut q = CatchupPlanner::start(4, Some(1)).ok().unwrap();
    let mut out = PlanProgress::Continue;
    while out == PlanProgress::Continue {
        out = q.advance(false, OtherCatchup::NotRunning);
    }
    assert_eq!(out, PlanProgress::Failed);
}
