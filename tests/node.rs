use tangle_sync::budget::IterationBudget;
use tangle_sync::sync_status::{forward_confirmed_milestone_changed, forward_latest_milestone_changed, SyncStatusResponse};
use tangle_sync::version_checker::{VersionChecker, CHECK_INTERVAL_SEC};

#[test]
fn budget_yields_after_each_period() {
    let mut b = IterationBudget::new(3);
    let polls: Vec<bool> = (0..8).map(|_| b.poll_step()).collect();
    assert_eq!(polls, vec![true, true, true, false, true, true, true, false]);
    assert_eq!(b.budget(), 3);
}

#[test]
fn zero_budget_always_yields() {
    let mut b = IterationBudget::new(0);
    assert!(!b.poll_step());
    assert!(!b.poll_step());
}

#[test]
fn sync_status_events() {
    assert_eq!(forward_latest_milestone_changed(10, 7), SyncStatusResponse { lmi: 10, cmi: 7 });
    assert_eq!(forward_confirmed_milestone_changed(8, 10), SyncStatusResponse { lmi: 10, cmi: 8 });
}

#[test]
fn version_check_interval() {
    let v = VersionChecker::default();
    assert_eq!(v.interval_secs(), 3600);
    assert_eq!(CHECK_INTERVAL_SEC, 3600);
}
