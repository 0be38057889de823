use fnk0085_smart_car_backend::crypto::{derive_key, NONCE_LEN};
use fnk0085_smart_car_backend::device::{DeviceRegistry, PeerAddr, PhotoResult};
use fnk0085_smart_car_backend::protocol::{DeviceEvent, FrameReassembler, MAGIC_0, MAGIC_1, PART_TOTAL, VERSION};
use fnk0085_smart_car_backend::udp_listener::{
    classify_datagram, find_device_by_addr, generate_nonce, nonce_from, handle_event, handle_video_packet,
    outbound_datagram, validate_token, Datagram, UdpEventOutcome,
};
use std::collections::HashMap;
use tokio::sync::oneshot;

fn addr(port: u16) -> PeerAddr {
    PeerAddr { is_v6: false, ip: 0x7f00_0001, port, flowinfo: 0, scope_id: 0 }
}

fn packet(part_idx: u8, payload: &[u8]) -> Vec<u8> {
    let device_id = b"cam1";
    let mut out = vec![MAGIC_0, MAGIC_1, VERSION, device_id.len() as u8];
    out.extend_from_slice(device_id);
    out.extend_from_slice(&900u64.to_le_bytes());
    out.extend_from_slice(&5u32.to_le_bytes());
    out.push(part_idx);
    out.push(PART_TOTAL);
    out.push(part_idx / 4);
    out.push(part_idx % 4);
    out.extend_from_slice(&(payload.len() as u32).to_le_bytes());
    out.extend_from_slice(payload);
    out
}

#[test]
fn udp_listener_token_validation() {
    assert!(validate_token("change-me-please", "change-me-please"));
    assert!(validate_token("Bearer change-me-please", "change-me-please"));
    assert!(!validate_token("wrong", "change-me-please"));
    assert!(!validate_token("Bearer wrong", "change-me-please"));
}

#[test]
fn nonces_are_unique() {
    let mut counter = 0u64;
    let a = generate_nonce(&mut counter);
    let b = generate_nonce(&mut counter);
    assert_ne!(a, b);
}

#[test]
fn nonce_from_lays_out_counter_and_clock() {
    let n = nonce_from(0x0102_0304_0506_0708, 0xaabb_ccdd_eeff_0011);
    assert_eq!(n, [8, 7, 6, 5, 4, 3, 2, 1, 0x11, 0x00, 0xff, 0xee]);
}

#[test]
fn nonce_carries_counter_and_advances_it() {
    let mut counter = 0x0102_0304_0506_0708u64;
    let n = generate_nonce(&mut counter);
    assert_eq!(&n[..8], &0x0102_0304_0506_0708u64.to_le_bytes());
    assert_eq!(counter, 0x0102_0304_0506_0709);
    let mut last = u64::MAX;
    let _ = generate_nonce(&mut last);
    assert_eq!(last, 0);
}

#[test]
fn sealed_packets_reassemble_into_cache() {
    let key = derive_key("change-me-please");
    let mut reg = DeviceRegistry::new(4, 8, 4, 1024, 256);
    let mut parts: HashMap<usize, FrameReassembler> = HashMap::new();
    for i in 0..PART_TOTAL {
        let wire = key.seal(&[i; NONCE_LEN], &packet(i, &[i]));
        match classify_datagram(&key, &wire) {
            Datagram::Video(p) => {
                let (res, sent) = handle_video_packet(&p, addr(7000), &mut reg, &mut parts, 50 + i as u64);
                assert_eq!(res.unwrap(), 0);
                assert_eq!(sent.is_some(), i == PART_TOTAL - 1);
            }
            _ => panic!("video packet expected"),
        }
    }
    let latest = reg.entry(0).video.latest().unwrap();
    assert_eq!(latest.jpeg, vec![0, 1, 2, 3, 4, 5, 6, 7]);
    assert_eq!(latest.device_uptime_ms, Some(900));
    assert_eq!(latest.server_recv_ms, 57);
    assert_eq!(reg.entry(0).get_addr(), Some(addr(7000)));
    assert_eq!(find_device_by_addr(&reg, addr(7000)), Some(0));
    assert_eq!(find_device_by_addr(&reg, addr(1)), None);
}

#[test]
fn classify_other_and_undecryptable() {
    let key = derive_key("change-me-please");
    let wire = key.seal(&[1; NONCE_LEN], b"{\"type\":\"ack\",\"refSeq\":1}");
    match classify_datagram(&key, &wire) {
        Datagram::Other(p) => assert_eq!(p, b"{\"type\":\"ack\",\"refSeq\":1}".to_vec()),
        _ => panic!("plaintext expected"),
    }
    let other = derive_key("token-b");
    assert!(matches!(classify_datagram(&other, &wire), Datagram::Undecryptable));
}

#[test]
fn udp_events() {
    let mut reg = DeviceRegistry::new(4, 8, 4, 1024, 256);
    let bad = DeviceEvent::Register { device_id: "d1".into(), token: "x".into() };
    assert!(matches!(handle_event(bad, addr(1), &mut reg, "change-me-please", 1), UdpEventOutcome::BadToken));
    let good = DeviceEvent::Register { device_id: "d1".into(), token: "Bearer change-me-please".into() };
    assert!(matches!(
        handle_event(good, addr(1), &mut reg, "change-me-please", 2),
        UdpEventOutcome::Registered(Ok(0))
    ));
    let (tx, mut rx) = oneshot::channel::<PhotoResult>();
    assert!(reg.entry_mut(0).await_photo(tx));
    let done = DeviceEvent::PhotoDone { path: "/p.jpg".into(), uptime_ms: 3 };
    match handle_event(done, addr(1), &mut reg, "change-me-please", 3) {
        UdpEventOutcome::PhotoDone { slot: 0, delivery: Some(d) } => {
            let _ = d.waiter.send(d.result);
        }
        _ => panic!("photo_done settles the pending request"),
    }
    assert_eq!(rx.try_recv().unwrap().path, "/p.jpg");
    let stray = DeviceEvent::PhotoDone { path: "/q.jpg".into(), uptime_ms: 3 };
    assert!(matches!(handle_event(stray, addr(2), &mut reg, "change-me-please", 3), UdpEventOutcome::UnknownSource));
    let ack = DeviceEvent::Ack { ref_seq: 1 };
    assert!(matches!(handle_event(ack, addr(1), &mut reg, "change-me-please", 4), UdpEventOutcome::Logged));
}

#[test]
fn outbound_needs_known_address() {
    let key = derive_key("change-me-please");
    let mut reg = DeviceRegistry::new(4, 8, 4, 1024, 256);
    let mut counter = 0u64;
    assert!(outbound_datagram(&reg, &key, &mut counter, "d1", b"{}").is_none());
    reg.get_or_create("d1", 0).unwrap();
    assert!(outbound_datagram(&reg, &key, &mut counter, "d1", b"{}").is_none());
    assert_eq!(counter, 0);
    reg.entry_mut(0).set_addr(addr(9));
    let d = outbound_datagram(&reg, &key, &mut counter, "d1", b"{}").unwrap();
    assert_eq!(d.addr, addr(9));
    assert_eq!(counter, 1);
    assert_eq!(key.open(&d.wire).unwrap(), b"{}".to_vec());
}
