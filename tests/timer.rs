use wifi_shim::timer::{TimerTable, ESP_ERR_INVALID_ARG, ESP_ERR_NO_MEM, ESP_OK, MAX_TIMERS};

#[test]
fn one_shot_fires_once_after_delay() {
    let mut t = TimerTable::new();
    assert!(t.timer_setfn(0x1000, 11, 22));
    assert!(t.timer_arm(0x1000, 10, false, 0));
    assert!(t.poll(9_999).is_empty());
    assert_eq!(t.poll(10_000), vec![(11, 22)]);
    for now in [10_001u64, 20_000, 1_000_000] {
        assert!(t.poll(now).is_empty());
    }
}

#[test]
fn repeating_scenario() {
    let mut t = TimerTable::new();
    assert!(t.timer_setfn(0x2000, 1, 2));
    assert!(t.timer_arm(0x2000, 10, true, 0));
    let mut count = 0;
    for ms in 0..=35u64 {
        count += t.poll(ms * 1000).len();
    }
    assert!(count >= 3);
    assert!(t.timer_disarm(0x2000));
    for ms in 36..=85u64 {
        assert!(t.poll(ms * 1000).is_empty());
    }
}

#[test]
fn rearm_replaces_schedule() {
    let mut t = TimerTable::new();
    assert!(t.timer_setfn(5, 7, 8));
    assert!(t.timer_arm_us(5, 100, false, 0));
    assert!(t.timer_arm_us(5, 500, false, 0));
    assert!(t.poll(100).is_empty());
    assert_eq!(t.poll(500), vec![(7, 8)]);
    assert!(t.poll(1000).is_empty());
}

#[test]
fn zero_timeout_fires_at_next_poll() {
    let mut t = TimerTable::new();
    assert!(t.timer_setfn(5, 7, 8));
    assert!(t.timer_arm(5, 0, false, 42));
    assert_eq!(t.poll(42), vec![(7, 8)]);
}

#[test]
fn disarm_unknown_or_idle_is_harmless() {
    let mut t = TimerTable::new();
    assert!(!t.timer_disarm(9));
    assert!(t.timer_setfn(9, 1, 1));
    assert!(t.timer_disarm(9));
    assert!(t.timer_disarm(9));
    assert!(t.poll(u64::MAX).is_empty());
}

#[test]
fn done_forgets_timer() {
    let mut t = TimerTable::new();
    assert!(t.timer_setfn(3, 1, 2));
    assert!(t.timer_arm(3, 1, true, 0));
    assert!(t.timer_done(3));
    assert!(!t.timer_arm(3, 1, true, 0));
    assert!(t.poll(5_000).is_empty());
    assert!(!t.timer_done(3));
}

#[test]
fn setfn_keeps_one_entry_per_handle() {
    let mut t = TimerTable::new();
    assert!(t.timer_setfn(4, 1, 2));
    assert!(t.timer_setfn(4, 3, 4));
    assert!(t.timer_arm(4, 1, false, 0));
    assert_eq!(t.poll(1_000), vec![(3, 4)]);
}

#[test]
fn fired_callbacks_in_slot_order() {
    let mut t = TimerTable::new();
    assert!(t.timer_setfn(1, 10, 0));
    assert!(t.timer_setfn(2, 20, 0));
    assert!(t.timer_arm_us(2, 5, false, 0));
    assert!(t.timer_arm_us(1, 7, false, 0));
    assert_eq!(t.poll(10), vec![(10, 0), (20, 0)]);
}

#[test]
fn deadline_saturates() {
    let mut t = TimerTable::new();
    assert!(t.timer_setfn(1, 10, 0));
    assert!(t.timer_arm_us(1, 5, false, u64::MAX - 2));
    assert!(t.poll(u64::MAX - 1).is_empty());
    assert_eq!(t.poll(u64::MAX), vec![(10, 0)]);
}

#[test]
fn esp_timer_lifecycle() {
    let mut t = TimerTable::new();
    assert_eq!(t.esp_timer_start_once(77, 10, 0), ESP_ERR_INVALID_ARG);
    assert_eq!(t.esp_timer_create(77, 5, 6), ESP_OK);
    assert_eq!(t.esp_timer_start_once(77, 10, 0), ESP_OK);
    assert_eq!(t.poll(10), vec![(5, 6)]);
    assert!(t.poll(20).is_empty());
    assert_eq!(t.esp_timer_start_once(77, 10, 20), ESP_OK);
    assert_eq!(t.esp_timer_stop(77), ESP_OK);
    assert!(t.poll(100).is_empty());
    assert_eq!(t.esp_timer_delete(77), ESP_OK);
    assert_eq!(t.esp_timer_delete(77), ESP_ERR_INVALID_ARG);
    assert_eq!(t.esp_timer_stop(77), ESP_ERR_INVALID_ARG);
}

#[test]
fn timer_table_full() {
    let mut t = TimerTable::new();
    for id in 0..MAX_TIMERS {
        assert_eq!(t.esp_timer_create(id + 100, 0, 0), ESP_OK);
    }
    assert_eq!(t.esp_timer_create(1, 0, 0), ESP_ERR_NO_MEM);
    assert!(!t.timer_setfn(1, 0, 0));
    assert_eq!(t.esp_timer_create(100, 9, 9), ESP_OK);
}

#[test]
fn freed_slot_is_reused() {
    let mut t = TimerTable::new();
    for id in 0..MAX_TIMERS {
        assert_eq!(t.esp_timer_create(id + 100, 0, 0), ESP_OK);
    }
    assert_eq!(t.esp_timer_create(1, 0, 0), ESP_ERR_NO_MEM);
    assert_eq!(t.esp_timer_delete(105), ESP_OK);
    assert_eq!(t.esp_timer_create(1, 3, 4), ESP_OK);
    assert_eq!(t.esp_timer_start_once(1, 10, 0), ESP_OK);
    assert_eq!(t.poll(10), vec![(3, 4)]);
    assert_eq!(t.esp_timer_create(2, 0, 0), ESP_ERR_NO_MEM);
}

#[test]
fn many_lifetimes_never_exhaust() {
    let mut t = TimerTable::new();
    for id in 0..(4 * MAX_TIMERS) {
        assert!(t.timer_setfn(id + 1, 9, id));
        assert!(t.timer_arm_us(id + 1, 1, false, 0));
        assert_eq!(t.poll(1), vec![(9, id)]);
        assert!(t.timer_done(id + 1));
    }
}
