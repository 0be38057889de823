use fnk0085_smart_car_backend::video_cache::{Frame, VideoCache};

fn frame(ms: u64, jpeg: Vec<u8>) -> Frame {
    Frame { server_recv_ms: ms, device_uptime_ms: None, jpeg }
}

#[test]
fn push_broadcasts_to_subscribers() {
    let rt = tokio::runtime::Builder::new_current_thread().enable_all().build().unwrap();
    rt.block_on(async {
        let mut cache = VideoCache::new(8, 4, 1024, 256);
        let mut sub1 = cache.subscribe();
        let mut sub2 = cache.subscribe();
        let sent = cache.push(frame(100, b"abc".to_vec())).unwrap();
        cache.sender().send(sent).unwrap();
        let f1 = sub1.recv().await.unwrap();
        let f2 = sub2.recv().await.unwrap();
        assert_eq!(f1.jpeg.as_slice(), b"abc");
        assert_eq!(f2.jpeg.as_slice(), b"abc");
        assert_eq!(cache.latest().unwrap().jpeg.as_slice(), b"abc");
    });
}

#[test]
fn recent_caps_at_max() {
    let mut cache = VideoCache::new(8, 3, 1024, 256);
    for i in 0..10u64 {
        cache.push(frame(i, b"x".to_vec()));
    }
    let latest = cache.latest().unwrap();
    assert_eq!(latest.server_recv_ms, 9);
    assert_eq!(cache.recent_len(), 3);
}

#[test]
fn drops_oversized_frame() {
    let mut cache = VideoCache::new(8, 4, 1024, 10);
    assert!(cache.push(frame(1, vec![0u8; 11])).is_none());
    assert!(cache.latest().is_none(), "超过 max_frame_bytes 的单帧应被丢弃");
}

#[test]
fn evicts_old_frames_when_total_bytes_exceeds_limit() {
    let mut cache = VideoCache::new(8, 100, 100, 30);
    for i in 0..5u64 {
        cache.push(frame(i, vec![0u8; 30]));
    }
    let total = cache.recent_bytes();
    assert!(total <= 100, "缓存总字节数应不超过 max_bytes=100，实际 {total}");
    assert_eq!(cache.latest().unwrap().server_recv_ms, 4);
}

#[test]
fn newest_frame_kept_even_above_byte_budget() {
    let mut cache = VideoCache::new(8, 4, 10, 30);
    cache.push(frame(1, vec![1u8; 5]));
    cache.push(frame(2, vec![2u8; 25]));
    assert_eq!(cache.recent_len(), 1);
    assert_eq!(cache.recent_bytes(), 25);
    assert_eq!(cache.latest().unwrap().server_recv_ms, 2);
    assert_eq!(cache.max_frame_bytes(), 30);
}

#[test]
fn run_of_pushes_keeps_longest_suffix_within_limits() {
    let mut cache = VideoCache::new(8, 3, 50, 40);
    let sizes = [10usize, 20, 30, 5, 5, 40, 1];
    for (i, n) in sizes.iter().enumerate() {
        cache.push(frame(i as u64, vec![0u8; *n]));
    }
    assert_eq!(cache.recent_len(), 3);
    assert_eq!(cache.recent_bytes(), 46);
    assert_eq!(cache.latest().unwrap().server_recv_ms, 6);
}
