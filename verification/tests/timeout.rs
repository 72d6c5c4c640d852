use cyphera_kernel::process_model::Pid;
use cyphera_kernel::timeout::{
    cancel_callback, drop_pid, next_deadline_ns, register, register_callback, unregister,
    wake_expired, wake_expired_callbacks, CallbackDeadlines, Deadlines,
};

fn pid(raw: u32) -> Pid {
    Pid::from_raw(raw)
}

#[test]
fn register_inserts_in_ascending_deadline_order() {
    let mut g = Deadlines::new();
    register(&mut g, 300, pid(1));
    register(&mut g, 100, pid(2));
    register(&mut g, 200, pid(3));
    assert_eq!(g.entries.len(), 3);
    assert_eq!(g.entries[0].0, 100);
    assert_eq!(g.entries[1].0, 200);
    assert_eq!(g.entries[2].0, 300);
}

#[test]
fn register_replaces_existing_pid_entry() {
    let mut g = Deadlines::new();
    register(&mut g, 500, pid(1));
    register(&mut g, 200, pid(1));
    assert_eq!(g.entries.len(), 1);
    assert_eq!(g.entries[0].0, 200);
}

#[test]
fn unregister_returns_true_when_present() {
    let mut g = Deadlines::new();
    register(&mut g, 100, pid(1));
    assert!(unregister(&mut g, pid(1)));
    assert!(!unregister(&mut g, pid(1)));
}

#[test]
fn unregister_returns_false_when_missing() {
    let mut g = Deadlines::new();
    assert!(!unregister(&mut g, pid(99)));
}

#[test]
fn next_deadline_ns_empty_is_none() {
    let g = Deadlines::new();
    assert_eq!(next_deadline_ns(&g), None);
}

#[test]
fn next_deadline_ns_returns_earliest() {
    let mut g = Deadlines::new();
    register(&mut g, 500, pid(1));
    register(&mut g, 100, pid(2));
    register(&mut g, 300, pid(3));
    assert_eq!(next_deadline_ns(&g), Some(100));
}

#[test]
fn wake_expired_drains_only_past_deadlines() {
    let mut g = Deadlines::new();
    register(&mut g, 100, pid(1));
    register(&mut g, 200, pid(2));
    register(&mut g, 300, pid(3));
    let woken = wake_expired(&mut g, 200);
    assert_eq!(g.entries.len(), 1);
    assert_eq!(g.entries[0].0, 300);
    assert_eq!(woken, vec![pid(1), pid(2)]);
}

#[test]
fn wake_expired_with_now_zero_is_noop() {
    let mut g = Deadlines::new();
    register(&mut g, 100, pid(1));
    register(&mut g, 200, pid(2));
    let woken = wake_expired(&mut g, 0);
    assert_eq!(g.entries.len(), 2);
    assert!(woken.is_empty());
}

#[test]
fn wake_expired_with_huge_now_drains_all() {
    let mut g = Deadlines::new();
    for i in 1..=10u64 {
        register(&mut g, i * 100, pid(i as u32));
    }
    wake_expired(&mut g, u64::MAX);
    assert!(g.entries.is_empty());
}

#[test]
fn drop_pid_removes_all_entries_for_pid() {
    let mut g = Deadlines::new();
    register(&mut g, 100, pid(1));
    register(&mut g, 200, pid(2));
    drop_pid(&mut g, pid(1));
    assert_eq!(g.entries.len(), 1);
    assert_eq!(g.entries[0].1, pid(2));
}

#[test]
fn callback_register_and_cancel() {
    fn dummy(_: u64) {}
    let mut g: CallbackDeadlines<fn(u64)> = CallbackDeadlines::new();
    register_callback(&mut g, 100, 0xaa, dummy);
    register_callback(&mut g, 200, 0xbb, dummy);
    assert_eq!(g.entries.len(), 2);
    cancel_callback(&mut g, 0xaa);
    assert_eq!(g.entries.len(), 1);
    assert_eq!(g.entries[0].key, 0xbb);
}

#[test]
fn callback_fire_invokes_with_key() {
    fn record(k: u64) -> u64 {
        k
    }
    let mut fired_with_key: u64 = 0;
    let mut g: CallbackDeadlines<fn(u64) -> u64> = CallbackDeadlines::new();
    register_callback(&mut g, 100, 0xc0ffee, record);
    for e in wake_expired_callbacks(&mut g, 200) {
        fired_with_key = (e.callback)(e.key);
    }
    assert_eq!(fired_with_key, 0xc0ffee);
    assert!(g.entries.is_empty());
}

#[test]
fn a_registered_process_is_woken_at_its_deadline() {
    let mut g = Deadlines::new();
    register(&mut g, 100, pid(7));
    assert!(wake_expired(&mut g, 99).is_empty());
    assert_eq!(wake_expired(&mut g, 100), vec![pid(7)]);
    assert!(wake_expired(&mut g, 100).is_empty());
}

#[test]
fn unregistering_undoes_registering() {
    let mut g = Deadlines::new();
    register(&mut g, 100, pid(1));
    register(&mut g, 50, pid(2));
    assert!(unregister(&mut g, pid(2)));
    assert_eq!(g.entries, vec![(100, pid(1))]);
}

#[test]
fn a_second_callback_under_a_key_replaces_the_first() {
    let mut g: CallbackDeadlines<u8> = CallbackDeadlines::new();
    register_callback(&mut g, 300, 1, 10);
    register_callback(&mut g, 100, 1, 20);
    register_callback(&mut g, 200, 2, 30);
    let due = wake_expired_callbacks(&mut g, 1000);
    let seen: Vec<(u64, u64, u8)> = due.iter().map(|e| (e.deadline, e.key, e.callback)).collect();
    assert_eq!(seen, vec![(100, 1, 20), (200, 2, 30)]);
}

#[test]
fn registering_leaves_the_others_alone() {
    let mut g = Deadlines::new();
    register(&mut g, 30, pid(1));
    register(&mut g, 10, pid(2));
    register(&mut g, 20, pid(3));
    register(&mut g, 5, pid(1));
    assert_eq!(g.entries, vec![(5, pid(1)), (10, pid(2)), (20, pid(3))]);
}
