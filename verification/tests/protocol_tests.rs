use fnk0085_smart_car_backend::protocol::{
    parse_packet, FrameReassembler, ProtocolError, MAGIC_0, MAGIC_1, PART_TOTAL, VERSION,
};

fn build_packet(part_idx: u8, payload: &[u8]) -> Vec<u8> {
    let device_id = b"ESP32S3_123456_AABBCCDDEEFF";
    let mut out = Vec::new();
    out.push(MAGIC_0);
    out.push(MAGIC_1);
    out.push(VERSION);
    out.push(device_id.len() as u8);
    out.extend_from_slice(device_id);
    out.extend_from_slice(&12345u64.to_le_bytes());
    out.extend_from_slice(&42u32.to_le_bytes());
    out.push(part_idx);
    out.push(PART_TOTAL);
    out.push(part_idx / 4);
    out.push(part_idx % 4);
    out.extend_from_slice(&(payload.len() as u32).to_le_bytes());
    out.extend_from_slice(payload);
    out
}

#[test]
fn parses_single_packet() {
    let bytes = build_packet(0, b"hello");
    let pkt = parse_packet(&bytes).expect("解析成功");
    assert_eq!(pkt.device_id, "ESP32S3_123456_AABBCCDDEEFF");
    assert_eq!(pkt.uptime_ms, 12345);
    assert_eq!(pkt.frame_seq, 42);
    assert_eq!(pkt.part_idx, 0);
    assert_eq!(pkt.part_total, 8);
    assert_eq!(pkt.payload.as_slice(), b"hello");
}

#[test]
fn rejects_bad_magic() {
    let mut bytes = build_packet(0, b"x");
    bytes[0] = 0x00;
    assert!(matches!(parse_packet(&bytes), Err(ProtocolError::BadMagic(_))));
}

#[test]
fn reassembles_full_frame() {
    let mut r = FrameReassembler::default();
    let mut last = None;
    for i in 0..PART_TOTAL {
        let payload = vec![i; 16];
        let bytes = build_packet(i, &payload);
        let pkt = parse_packet(&bytes).unwrap();
        last = r.push(&pkt);
    }
    let full = last.expect("8 分包后产出完整 JPEG");
    assert_eq!(full.len(), (PART_TOTAL as usize) * 16);
}

#[test]
fn handles_out_of_order_parts() {
    let mut r = FrameReassembler::default();
    let order = [3u8, 0, 7, 1, 5, 2, 6, 4];
    let mut produced = None;
    for &i in &order {
        let payload = vec![i; 8];
        let bytes = build_packet(i, &payload);
        let pkt = parse_packet(&bytes).unwrap();
        if let Some(full) = r.push(&pkt) {
            produced = Some(full);
        }
    }
    let full = produced.expect("乱序后仍应产出");
    assert_eq!(full.len(), 8 * 8);
}

#[test]
fn out_of_order_frame_is_in_part_order() {
    let mut r = FrameReassembler::new();
    let order = [6u8, 1, 4, 0, 7, 2, 5, 3];
    let mut produced = Vec::new();
    for &i in &order {
        let pkt = parse_packet(&build_packet(i, &[i, i])).unwrap();
        if let Some(full) = r.push(&pkt) {
            produced.push(full);
        }
    }
    assert_eq!(produced.len(), 1);
    assert_eq!(produced[0], vec![0, 0, 1, 1, 2, 2, 3, 3, 4, 4, 5, 5, 6, 6, 7, 7]);
}

#[test]
fn duplicate_part_keeps_first_payload() {
    let mut r = FrameReassembler::new();
    let first = parse_packet(&build_packet(0, b"a")).unwrap();
    let again = parse_packet(&build_packet(0, b"b")).unwrap();
    assert!(r.push(&first).is_none());
    assert!(r.push(&again).is_none());
    let mut out = None;
    for i in 1..PART_TOTAL {
        out = r.push(&parse_packet(&build_packet(i, b"")).unwrap());
    }
    assert_eq!(out.unwrap(), b"a".to_vec());
}

#[test]
fn evict_keeps_few_pending_frames() {
    let mut r = FrameReassembler::new();
    r.push(&parse_packet(&build_packet(0, b"x")).unwrap());
    r.evict_older_than(0);
    let mut out = None;
    for i in 1..PART_TOTAL {
        out = r.push(&parse_packet(&build_packet(i, b"y")).unwrap());
    }
    assert_eq!(out.unwrap().len(), 8);
}

#[test]
fn rejects_each_malformed_header() {
    assert_eq!(parse_packet(&[0u8; 10]).err(),
        Some(ProtocolError::TooShort(24)));
    let mut b = build_packet(0, b"x");
    b[2] = 2;
    assert_eq!(parse_packet(&b).err(),
        Some(ProtocolError::BadVersion { expected: 1, actual: 2 }));
    let mut b = build_packet(0, b"x");
    b[3] = 0;
    assert_eq!(parse_packet(&b).err(),
        Some(ProtocolError::BadDeviceIdLen(0)));
    let mut b = build_packet(0, b"x");
    b[3] = 200;
    assert_eq!(parse_packet(&b).err(),
        Some(ProtocolError::TooShort(224)));
    let id_end = 4 + 27;
    let mut b = build_packet(0, b"x");
    b[id_end + 13] = 4;
    assert_eq!(parse_packet(&b).err(),
        Some(ProtocolError::BadPartTotal { expected: 8, actual: 4 }));
    let mut b = build_packet(0, b"x");
    b[id_end + 12] = 8;
    assert_eq!(parse_packet(&b).err(),
        Some(ProtocolError::BadPartIdx(8)));
    let mut b = build_packet(0, b"x");
    b.pop();
    assert_eq!(
        parse_packet(&b).err(),
        Some(ProtocolError::PayloadLenMismatch { claimed: 1, remaining: 0 })
    );
    let mut b = build_packet(0, b"x");
    b[4] = 0xff;
    assert_eq!(parse_packet(&b).err(),
        Some(ProtocolError::BadDeviceIdLen(27)));
}
