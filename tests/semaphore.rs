use wifi_shim::semaphore::{Semaphore, SemaphoreTable, TakeStep, MAX_SEMAPHORES, WAIT_FOREVER};

#[test]
fn fresh_semaphore_takes_init_times() {
    let mut t = SemaphoreTable::new();
    let h = t.semphr_create(5, 3);
    assert_ne!(h, 0);
    for _ in 0..3 {
        assert_eq!(t.semphr_take(h, 0, 1), TakeStep::Acquired);
    }
    assert_eq!(t.semphr_take(h, 0, 1), TakeStep::Expired);
}

#[test]
fn zero_init_does_not_take() {
    let mut t = SemaphoreTable::new();
    let h = t.semphr_create(1, 0);
    assert_eq!(t.semphr_take(h, 10, 0), TakeStep::Pending);
    assert_eq!(t.semphr_take(h, 10, 11), TakeStep::Expired);
}

#[test]
fn give_stops_at_max() {
    let mut t = SemaphoreTable::new();
    let h = t.semphr_create(2, 1);
    assert_eq!(t.semphr_give(h), 1);
    assert_eq!(t.semphr_give(h), 0);
    assert_eq!(t.semphr_give(h), 0);
    for _ in 0..2 {
        assert_eq!(t.semphr_take(h, 0, 1), TakeStep::Acquired);
    }
    assert_eq!(t.semphr_take(h, 0, 1), TakeStep::Expired);
}

#[test]
fn semaphore_round_trip_scenario() {
    let mut t = SemaphoreTable::new();
    let h = t.semphr_create(1, 1);
    assert_eq!(t.semphr_take(h, 5, 0), TakeStep::Acquired);
    assert_eq!(t.semphr_take(h, 5, 0), TakeStep::Pending);
    assert_eq!(t.semphr_take(h, 5, 6), TakeStep::Expired);
    assert_eq!(t.semphr_give(h), 1);
    assert_eq!(t.semphr_take(h, 5, 0), TakeStep::Acquired);
}

#[test]
fn gives_wake_as_many_takes() {
    let mut t = SemaphoreTable::new();
    let h = t.semphr_create(4, 0);
    let mut given = 0;
    for _ in 0..3 {
        given += t.semphr_give(h);
    }
    assert_eq!(given, 3);
    for _ in 0..3 {
        assert_eq!(t.semphr_take(h, WAIT_FOREVER, 1000), TakeStep::Acquired);
    }
    assert_eq!(t.semphr_take(h, WAIT_FOREVER, u32::MAX), TakeStep::Pending);
}

#[test]
fn init_above_max_is_refused() {
    let mut t = SemaphoreTable::new();
    assert_eq!(t.semphr_create(1, 2), 0);
}

#[test]
fn table_full_gives_null_handle() {
    let mut t = SemaphoreTable::new();
    for i in 0..MAX_SEMAPHORES {
        assert_eq!(t.semphr_create(1, 0), i + 1);
    }
    assert_eq!(t.semphr_create(1, 0), 0);
    t.semphr_delete(3);
    assert_eq!(t.semphr_create(1, 1), 3);
}

#[test]
fn deleted_handle_fails() {
    let mut t = SemaphoreTable::new();
    let h = t.semphr_create(1, 1);
    t.semphr_delete(h);
    assert_eq!(t.semphr_take(h, WAIT_FOREVER, 0), TakeStep::Expired);
    assert_eq!(t.semphr_give(h), 0);
    assert_eq!(t.semphr_give(0), 0);
    assert_eq!(t.semphr_create(2, 0), h);
}

#[test]
fn semaphore_value_steps() {
    let mut s = Semaphore::new(1, 0);
    assert!(!s.try_take());
    assert!(s.give());
    assert_eq!(s.count, 1);
    assert!(!s.give());
    assert!(s.try_take());
    assert_eq!(s.count, 0);
}

#[test]
fn finite_timeout_expires_when_reached() {
    let mut t = SemaphoreTable::new();
    let h = t.semphr_create(1, 0);
    assert_eq!(t.semphr_take(h, 0, 0), TakeStep::Expired);
    assert_eq!(t.semphr_take(h, 10, 9), TakeStep::Pending);
    assert_eq!(t.semphr_take(h, 10, 10), TakeStep::Expired);
    assert_eq!(t.semphr_give(h), 1);
    assert_eq!(t.semphr_take(h, 0, 0), TakeStep::Acquired);
}
