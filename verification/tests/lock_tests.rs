use snug::lock::{
    LockAttempt, LockDecision, LockGuard, LockTable, lock_decision, lock_file_name,
    parse_lock_pid,
};

#[test]
fn pid_parse_plain_and_trimmed() {
    assert_eq!(parse_lock_pid("1234"), Some(1234));
    assert_eq!(parse_lock_pid("1234\n"), Some(1234));
    assert_eq!(parse_lock_pid("  42 \t"), Some(42));
    assert_eq!(parse_lock_pid("0"), Some(0));
}

#[test]
fn pid_parse_rejects_garbage() {
    assert_eq!(parse_lock_pid(""), None);
    assert_eq!(parse_lock_pid("   \n"), None);
    assert_eq!(parse_lock_pid("abc"), None);
    assert_eq!(parse_lock_pid("12a4"), None);
    assert_eq!(parse_lock_pid("12 34"), None);
    assert_eq!(parse_lock_pid("-5"), None);
}

#[test]
fn pid_parse_range() {
    assert_eq!(parse_lock_pid("4294967295"), Some(u32::MAX));
    assert_eq!(parse_lock_pid("4294967296"), None);
    assert_eq!(parse_lock_pid("99999999999999999999"), None);
}

#[test]
fn decision_table() {
    assert_eq!(lock_decision(false, None, false), LockDecision::Create);
    assert_eq!(lock_decision(true, None, false), LockDecision::RemoveStaleThenCreate);
    assert_eq!(
        lock_decision(true, Some(77), true),
        LockDecision::AlreadyHeld { pid: 77 }
    );
    assert_eq!(lock_decision(true, Some(77), false), LockDecision::RemoveStaleThenCreate);
}

#[test]
fn mutual_exclusion_while_owner_lives() {
    let mut t = LockTable::new();
    // first acquisition wins
    assert_eq!(t.try_acquire("DP-1", 100, false), LockAttempt::Acquired);
    // a concurrent second attempt loses while the owner is alive
    assert_eq!(t.try_acquire("DP-1", 200, true), LockAttempt::HeldBy { pid: 100 });
    // exactly one success: the first still holds
    assert_eq!(t.try_acquire("DP-1", 300, true), LockAttempt::HeldBy { pid: 100 });
}

#[test]
fn stale_lock_is_taken_over() {
    let mut t = LockTable::new();
    assert_eq!(t.try_acquire("DP-1", 100, false), LockAttempt::Acquired);
    // the owner died: the next attempt succeeds and replaces the entry
    assert_eq!(t.try_acquire("DP-1", 200, false), LockAttempt::Acquired);
    assert_eq!(t.try_acquire("DP-1", 300, true), LockAttempt::HeldBy { pid: 200 });
}

#[test]
fn locks_are_per_display() {
    let mut t = LockTable::new();
    assert_eq!(t.try_acquire("DP-1", 100, true), LockAttempt::Acquired);
    assert_eq!(t.try_acquire("DP-2", 200, true), LockAttempt::Acquired);
    assert_eq!(t.try_acquire("DP-1", 300, true), LockAttempt::HeldBy { pid: 100 });
    assert_eq!(t.try_acquire("DP-2", 300, true), LockAttempt::HeldBy { pid: 200 });
}

#[test]
fn release_frees_the_display() {
    let mut t = LockTable::new();
    assert_eq!(t.try_acquire("DP-1", 100, true), LockAttempt::Acquired);
    t.release("DP-1");
    assert_eq!(t.try_acquire("DP-1", 200, true), LockAttempt::Acquired);
}

#[test]
fn guard_acquires_and_releases() {
    let mut t = LockTable::new();
    let g = LockGuard::new(&mut t, "eDP-1", 41, false);
    let g = g.expect("free lock must be acquired");
    assert_eq!(g.display, "eDP-1");
    // blocked while held and alive
    assert!(LockGuard::new(&mut t, "eDP-1", 52, true).is_none());
    g.release(&mut t);
    assert!(LockGuard::new(&mut t, "eDP-1", 52, true).is_some());
}

#[test]
fn lock_file_name_shape() {
    assert_eq!(lock_file_name("DP-1"), "snug-DP-1.lock");
    assert_eq!(lock_file_name(""), "snug-.lock");
}
