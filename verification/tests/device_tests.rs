use fnk0085_smart_car_backend::device::{
    CommandQueue, DeviceEntry, DeviceRegistry, PeerAddr, PhotoResult, RecvStep, RegistryError,
    COMMAND_QUEUE_CAPACITY, OFFLINE_TIMEOUT_MS,
};
use tokio::sync::oneshot;

#[test]
fn get_or_create_basic() {
    let mut reg = DeviceRegistry::new(8, 8, 4, 1024, 256);
    let a = reg.get_or_create("dev1", 0).unwrap();
    let b = reg.get_or_create("dev1", 0).unwrap();
    assert_eq!(a, b);
    let c = reg.get_or_create("dev2", 0).unwrap();
    assert_ne!(a, c);
    assert_eq!(reg.list().len(), 2);
}

#[test]
fn enforces_max_devices() {
    let mut reg = DeviceRegistry::new(1, 8, 4, 1024, 256);
    let _ = reg.get_or_create("dev1", 0).unwrap();
    let res = reg.get_or_create("dev2", 0);
    assert!(matches!(res, Err(RegistryError::MaxDevicesExceeded { max: 1 })));
}

#[test]
fn photo_pending_is_one_shot() {
    let mut entry = DeviceEntry::new("dev1".into(), 8, 4, 1024, 256, 0);
    let (tx1, _rx1) = oneshot::channel();
    let (tx2, _rx2) = oneshot::channel();
    assert!(entry.await_photo(tx1));
    assert!(!entry.await_photo(tx2));
}

#[test]
fn completed_photo_reaches_waiter_and_frees_slot() {
    let mut entry = DeviceEntry::new("dev1".into(), 8, 4, 1024, 256, 0);
    let (tx, mut rx) = oneshot::channel();
    assert!(entry.await_photo(tx));
    let d = entry.complete_photo(PhotoResult { path: "/photo/a.jpg".into(), ok: true }).unwrap();
    assert_eq!(d.result.path, "/photo/a.jpg");
    let _ = d.waiter.send(d.result);
    let got = rx.try_recv().unwrap();
    assert_eq!(got.path, "/photo/a.jpg");
    assert!(got.ok);
    assert!(entry.complete_photo(PhotoResult { path: String::new(), ok: false }).is_none());
    let (tx2, _rx2) = oneshot::channel();
    assert!(entry.await_photo(tx2));
}

#[test]
fn command_queue_respects_capacity() {
    let mut q = CommandQueue::new(2);
    assert!(!q.push(b"a".to_vec()));
    assert!(!q.push(b"b".to_vec()));
    assert!(q.push(b"c".to_vec()));
}

#[test]
fn command_queue_drops_oldest_when_full() {
    let mut q = CommandQueue::new(2);
    q.push(b"old".to_vec());
    q.push(b"mid".to_vec());
    q.push(b"new".to_vec());
    let first = q.try_recv().unwrap();
    assert_eq!(first, b"mid".to_vec());
    let second = q.try_recv().unwrap();
    assert_eq!(second, b"new".to_vec());
}

#[test]
fn command_queue_fifo_order() {
    let mut q = CommandQueue::new(4);
    q.push(b"1".to_vec());
    q.push(b"2".to_vec());
    q.push(b"3".to_vec());
    assert_eq!(q.try_recv().unwrap(), b"1".to_vec());
    assert_eq!(q.try_recv().unwrap(), b"2".to_vec());
    assert_eq!(q.try_recv().unwrap(), b"3".to_vec());
}

#[test]
fn command_queue_keeps_newest_after_overflow() {
    let mut q = CommandQueue::new(3);
    for i in 0..10u8 {
        q.push(vec![i]);
    }
    assert_eq!(q.len(), 3);
    assert_eq!(q.try_recv().unwrap(), vec![7]);
    assert_eq!(q.try_recv().unwrap(), vec![8]);
    assert_eq!(q.try_recv().unwrap(), vec![9]);
    assert!(q.try_recv().is_none());
}

#[test]
fn recv_step_waits_then_times_out() {
    let mut q = CommandQueue::new(2);
    assert!(matches!(q.recv_step(100), RecvStep::Wait));
    assert!(matches!(q.recv_step(0), RecvStep::TimedOut));
    q.push(b"x".to_vec());
    match q.recv_step(0) {
        RecvStep::Command(v) => assert_eq!(v, b"x".to_vec()),
        _ => panic!("a queued command comes first"),
    }
}

#[test]
fn mark_offline_if_stale_works() {
    let mut entry = DeviceEntry::new("dev1".into(), 8, 4, 1024, 256, 0);
    entry.last_seen_ms = 0;
    assert!(entry.mark_offline_if_stale(OFFLINE_TIMEOUT_MS + 1));
    assert!(!entry.is_online());

    let mut entry2 = DeviceEntry::new("dev2".into(), 8, 4, 1024, 256, 0);
    entry2.last_seen_ms = 0;
    assert!(!entry2.mark_offline_if_stale(OFFLINE_TIMEOUT_MS - 1));
    assert!(entry2.is_online());
}

#[test]
fn offline_exactly_at_timeout_is_not_stale() {
    let mut entry = DeviceEntry::new("dev1".into(), 8, 4, 1024, 256, 1000);
    assert!(!entry.mark_offline_if_stale(1000 + OFFLINE_TIMEOUT_MS));
    assert!(entry.is_online());
    assert!(!entry.mark_offline_if_stale(0));
}

#[test]
fn new_entry_defaults() {
    let entry = DeviceEntry::new("dev1".into(), 8, 4, 1024, 256, 42);
    assert!(entry.is_online());
    assert_eq!(entry.last_seen(), 42);
    assert!(entry.pwm_cache_enabled());
    assert_eq!(entry.telemetry(), (0, 0));
    assert!(entry.get_addr().is_none());
    assert_eq!(entry.cmd_queue.len(), 0);
    assert_eq!(COMMAND_QUEUE_CAPACITY, 16);
}

#[test]
fn touch_records_time_and_address() {
    let mut entry = DeviceEntry::new("dev1".into(), 8, 4, 1024, 256, 0);
    entry.online = false;
    let a = PeerAddr { is_v6: false, ip: 0x0a00_0001, port: 9000, flowinfo: 0, scope_id: 0 };
    entry.touch(Some(a), 77);
    assert!(entry.is_online());
    assert_eq!(entry.last_seen(), 77);
    assert_eq!(entry.get_addr(), Some(a));
    entry.touch(None, 80);
    assert_eq!(entry.get_addr(), Some(a));
    entry.set_telemetry(12, -3);
    assert_eq!(entry.telemetry(), (12, -3));
    entry.set_pwm_cache(false);
    assert!(!entry.pwm_cache_enabled());
}

#[test]
fn sweep_marks_only_stale_devices() {
    let mut reg = DeviceRegistry::new(4, 8, 4, 1024, 256);
    let a = reg.get_or_create("old", 0).unwrap();
    let b = reg.get_or_create("fresh", 40_000).unwrap();
    reg.sweep_offline(40_001);
    assert!(!reg.entry(a).is_online());
    assert!(reg.entry(b).is_online());
    reg.entry_mut(a).device_id = "renamed".to_string();
    let rows = reg.list();
    assert_eq!(rows[0].device_id, "old");
    assert!(!rows[0].online);
    assert_eq!(rows[1].last_seen_ms, 40_000);
}

#[test]
fn register_seen_refreshes_known_device() {
    let mut reg = DeviceRegistry::new(2, 8, 4, 1024, 256);
    let a = PeerAddr { is_v6: false, ip: 1, port: 2, flowinfo: 0, scope_id: 0 };
    let i = reg.register_seen("dev1", Some(a), 5).unwrap();
    assert_eq!(reg.entry(i).get_addr(), Some(a));
    let j = reg.register_seen("dev1", None, 9).unwrap();
    assert_eq!(i, j);
    assert_eq!(reg.entry(i).last_seen(), 9);
    assert_eq!(reg.find_by_addr(a), Some(i));
    assert_eq!(reg.index_of("dev1"), Some(i));
    assert_eq!(reg.index_of("nope"), None);
    assert!(reg.get("nope").is_none());
    assert_eq!(reg.len(), 1);
}
