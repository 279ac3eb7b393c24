use kcore::time::{on_tick, sleep_deadline, MonotonicTime, WakeupList};

#[test]
fn ticks_never_decrease() {
    let mut t = MonotonicTime::new(1000);
    assert_eq!(t.tick_freq(), 1000);
    let mut last = t.get();
    assert_eq!(last, 0);
    for _ in 0..50 {
        let now = t.increment();
        assert!(now >= last);
        assert_eq!(now, last + 1);
        assert_eq!(t.get(), now);
        last = now;
    }
}

#[test]
fn sleep_deadline_values() {
    assert_eq!(sleep_deadline(0, 100, 1000), 100);
    assert_eq!(sleep_deadline(5, 1000, 1024), 1029);
    assert_eq!(sleep_deadline(7, 10, 50), 7);
    assert_eq!(sleep_deadline(u64::MAX - 1, 1000, 1000), u64::MAX);
}

#[test]
fn wakeups_fire_in_deadline_order() {
    let mut list = WakeupList::new();
    list.register_wakeup(20, 2);
    list.register_wakeup(10, 1);
    list.register_wakeup(20, 3);
    list.register_wakeup(5, 0);
    assert_eq!(list.wakeup_if_necessary(4), Vec::<u64>::new());
    assert_eq!(list.wakeup_if_necessary(10), vec![0, 1]);
    assert_eq!(list.wakeup_if_necessary(19), Vec::<u64>::new());
    assert_eq!(list.wakeup_if_necessary(20), vec![2, 3]);
    assert_eq!(list.wakeup_if_necessary(100), Vec::<u64>::new());
}

#[test]
fn waker_fires_at_exact_deadline() {
    let mut list = WakeupList::new();
    list.register_wakeup(7, 42);
    assert_eq!(list.wakeup_if_necessary(7), vec![42]);
}

#[test]
fn sleep_resumes_after_deadline() {
    let mut time = MonotonicTime::new(1000);
    let mut list = WakeupList::new();
    let deadline = sleep_deadline(time.get(), 100, time.tick_freq());
    assert_eq!(deadline, 100);
    list.register_wakeup(deadline, 9);
    for _ in 0..99 {
        assert!(on_tick(&mut time, &mut list).is_empty());
    }
    assert_eq!(time.get(), 99);
    assert_eq!(on_tick(&mut time, &mut list), vec![9]);
    assert_eq!(time.get(), 100);
}
