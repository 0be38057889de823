use fnk0085_smart_car_backend::device::{DeviceRegistry, PhotoResult, RegistryError};
use fnk0085_smart_car_backend::handlers::auth::{handle_login, LoginRequest};
use fnk0085_smart_car_backend::handlers::control::{handle_post_control, ControlOutcome, ControlRequest};
use fnk0085_smart_car_backend::handlers::device_api::{
    authorize_device, check_auth, handle_event, handle_poll, handle_register, parse_timeout,
    poll_step, validate_token, Access, EventOutcome, PollReply, PollStart, RegisterOutcome,
    RegisterRequest, POLL_DEFAULT_TIMEOUT_S, POLL_MAX_TIMEOUT_S,
};
use fnk0085_smart_car_backend::handlers::devices::handle_get_devices;
use fnk0085_smart_car_backend::handlers::frame::{handle_frame, parse_uptime_header, FrameOutcome};
use fnk0085_smart_car_backend::handlers::photo::{
    handle_post_photo, photo_outcome, PhotoOutcome, PhotoStart, PhotoWait,
};
use fnk0085_smart_car_backend::handlers::provisioning::handle_get_config;
use fnk0085_smart_car_backend::handlers::pwm_cache::{
    default_entries, handle_get as pwm_get, handle_post as pwm_post, PwmCacheToggleRequest, PwmToggle,
};
use fnk0085_smart_car_backend::handlers::stream::{build_part, frame_part, handle_get_stream};
use fnk0085_smart_car_backend::handlers::telemetry::handle_get as telemetry_get;
use fnk0085_smart_car_backend::handlers::{
    accepts_gzip, append_body_chunk, gzip_bytes, gzip_worthwhile, route, HttpMethod, Route,
};
use fnk0085_smart_car_backend::protocol::{DeviceCommand, DeviceEvent};
use fnk0085_smart_car_backend::video_cache::Frame;
use std::io::Read;
use std::sync::Arc;
use tokio::sync::oneshot;

const TOKEN: &str = "change-me-please";

fn registry_with(ids: &[&str]) -> DeviceRegistry {
    let mut reg = DeviceRegistry::new(8, 8, 4, 1024, 256);
    for id in ids {
        reg.get_or_create(id, 0).unwrap();
    }
    reg
}

#[test]
fn device_api_token_validation() {
    assert!(validate_token("change-me-please", "change-me-please"));
    assert!(validate_token("Bearer change-me-please", "change-me-please"));
    assert!(!validate_token("wrong", "change-me-please"));
}

#[test]
fn timeout_parsing() {
    assert_eq!(parse_timeout(None), POLL_DEFAULT_TIMEOUT_S);
    assert_eq!(parse_timeout(Some("timeout=10")), 10);
    assert_eq!(parse_timeout(Some("timeout=999")), POLL_MAX_TIMEOUT_S);
    assert_eq!(parse_timeout(Some("foo=bar")), POLL_DEFAULT_TIMEOUT_S);
    assert_eq!(parse_timeout(Some("timeout=abc")), POLL_DEFAULT_TIMEOUT_S);
}

#[test]
fn timeout_parsing_edge_cases() {
    assert_eq!(parse_timeout(Some("timeout=0")), 1);
    assert_eq!(parse_timeout(Some("a=1&timeout=7&timeout=9")), 7);
    assert_eq!(parse_timeout(Some("timeout=x&timeout=5")), 5);
    assert_eq!(parse_timeout(Some("")), POLL_DEFAULT_TIMEOUT_S);
    assert_eq!(parse_timeout(Some("timeout=+20")), 20);
}

#[test]
fn auth_header_checks() {
    assert!(check_auth(Some("Bearer change-me-please"), TOKEN));
    assert!(check_auth(Some("change-me-please"), TOKEN));
    assert!(!check_auth(Some("Bearer nope"), TOKEN));
    assert!(!check_auth(None, TOKEN));
}

#[test]
fn register_flow() {
    let mut reg = DeviceRegistry::new(1, 8, 4, 1024, 256);
    let bad = RegisterRequest { token: "nope".into() };
    assert!(matches!(handle_register(&mut reg, TOKEN, "dev1", &bad, 5), RegisterOutcome::InvalidToken));
    assert_eq!(reg.len(), 0);
    let good = RegisterRequest { token: "Bearer change-me-please".into() };
    match handle_register(&mut reg, TOKEN, "dev1", &good, 5) {
        RegisterOutcome::Registered(i) => assert_eq!(reg.entry(i).last_seen(), 5),
        _ => panic!("registration expected"),
    }
    assert!(matches!(
        handle_register(&mut reg, TOKEN, "dev2", &good, 6),
        RegisterOutcome::Refused(RegistryError::MaxDevicesExceeded { max: 1 })
    ));
}

#[test]
fn poll_flow() {
    let mut reg = registry_with(&["dev1"]);
    assert!(matches!(handle_poll(&reg, TOKEN, "dev1", None, None), PollStart::Unauthorized));
    assert!(matches!(
        handle_poll(&reg, TOKEN, "ghost", Some("Bearer change-me-please"), None),
        PollStart::UnknownDevice
    ));
    let slot = match handle_poll(&reg, TOKEN, "dev1", Some("Bearer change-me-please"), Some("timeout=5")) {
        PollStart::Wait { slot, timeout_s } => {
            assert_eq!(timeout_s, 5);
            slot
        }
        _ => panic!("poll should wait"),
    };
    let q = &mut reg.entry_mut(slot).cmd_queue;
    assert!(matches!(poll_step(q, 10, 99), PollReply::Wait));
    match poll_step(q, 0, 99) {
        PollReply::Ping(DeviceCommand::Ping { seq, ts }) => {
            assert_eq!(seq, 0);
            assert_eq!(ts, 99);
        }
        _ => panic!("ping expected at deadline"),
    }
    q.push(b"{\"type\":\"ping\"}".to_vec());
    match poll_step(q, 0, 99) {
        PollReply::Command(v) => assert_eq!(v, b"{\"type\":\"ping\"}".to_vec()),
        _ => panic!("queued command expected"),
    }
}

#[test]
fn event_flow() {
    let mut reg = registry_with(&["dev1"]);
    let slot = match authorize_device(&reg, TOKEN, "dev1", Some("Bearer change-me-please")) {
        Access::Granted(s) => s,
        _ => panic!("granted expected"),
    };
    assert!(matches!(authorize_device(&reg, TOKEN, "dev1", Some("bad")), Access::Unauthorized));
    let reg_ev = DeviceEvent::Register { device_id: "dev1".into(), token: TOKEN.into() };
    assert!(matches!(handle_event(&mut reg, slot, reg_ev, 1), EventOutcome::RegisterRejected));
    assert_eq!(reg.entry(slot).last_seen(), 0);

    let tel = DeviceEvent::Telemetry { left_rpm: 30, right_rpm: -4 };
    assert!(matches!(handle_event(&mut reg, slot, tel, 10), EventOutcome::Accepted { photo: None }));
    assert_eq!(reg.entry(slot).telemetry(), (30, -4));
    assert_eq!(reg.entry(slot).last_seen(), 10);

    let (tx, mut rx) = oneshot::channel::<PhotoResult>();
    assert!(reg.entry_mut(slot).await_photo(tx));
    let err = DeviceEvent::Error { code: 5002, message: "photo mutex timeout".into() };
    match handle_event(&mut reg, slot, err, 11) {
        EventOutcome::Accepted { photo: Some(d) } => {
            let _ = d.waiter.send(d.result);
        }
        _ => panic!("the pending photo request gets the failure"),
    }
    let got = rx.try_recv().unwrap();
    assert!(!got.ok);
    assert!(got.path.is_empty());

    let (tx, mut rx) = oneshot::channel::<PhotoResult>();
    assert!(reg.entry_mut(slot).await_photo(tx));
    let done = DeviceEvent::PhotoDone { path: "/photo/p1.jpg".into(), uptime_ms: 5 };
    match handle_event(&mut reg, slot, done, 12) {
        EventOutcome::Accepted { photo: Some(d) } => {
            assert!(d.result.ok);
            let _ = d.waiter.send(d.result);
        }
        _ => panic!("the pending photo request gets the path"),
    }
    let got = rx.try_recv().unwrap();
    assert_eq!(got.path, "/photo/p1.jpg");
    assert!(got.ok);
    let ack = DeviceEvent::Ack { ref_seq: 3 };
    assert!(matches!(handle_event(&mut reg, slot, ack, 13), EventOutcome::Accepted { photo: None }));
    assert_eq!(reg.entry(slot).last_seen(), 13);
}

#[test]
fn control_validation() {
    let reg = registry_with(&["dev1"]);
    let ok = ControlRequest { direction: "W".into(), pwm: 200 };
    assert!(matches!(handle_post_control(&reg, "ghost", Some(&ok), 1), ControlOutcome::UnknownDevice));
    assert!(matches!(handle_post_control(&reg, "dev1", None, 1), ControlOutcome::InvalidBody));
    let bad_dir = ControlRequest { direction: "X".into(), pwm: 10 };
    assert!(matches!(handle_post_control(&reg, "dev1", Some(&bad_dir), 1), ControlOutcome::BadDirection));
    let bad_pwm = ControlRequest { direction: "stop".into(), pwm: 256 };
    assert!(matches!(handle_post_control(&reg, "dev1", Some(&bad_pwm), 1), ControlOutcome::BadPwm));
    match handle_post_control(&reg, "dev1", Some(&ok), 77) {
        ControlOutcome::Queue { slot, command: DeviceCommand::Control { direction, pwm, duration_ms, ts } } => {
            assert_eq!(slot, 0);
            assert_eq!(direction, "W");
            assert_eq!(pwm, 200);
            assert!(duration_ms.is_none());
            assert_eq!(ts, 77);
        }
        _ => panic!("control command expected"),
    }
}

#[test]
fn photo_flow() {
    let mut reg = registry_with(&["dev1"]);
    let (tx, _rx) = oneshot::channel::<PhotoResult>();
    assert!(matches!(handle_post_photo(&mut reg, "ghost", tx, 1), PhotoStart::UnknownDevice));
    let (tx, _rx1) = oneshot::channel::<PhotoResult>();
    let slot = match handle_post_photo(&mut reg, "dev1", tx, 8) {
        PhotoStart::Send { slot, command: DeviceCommand::Photo { quality, ts } } => {
            assert_eq!(quality, "max");
            assert_eq!(ts, 8);
            slot
        }
        _ => panic!("photo command expected"),
    };
    let (tx, _rx2) = oneshot::channel::<PhotoResult>();
    assert!(matches!(handle_post_photo(&mut reg, "dev1", tx, 9), PhotoStart::Busy));
    assert!(matches!(photo_outcome(&mut reg, slot, PhotoWait::TimedOut), PhotoOutcome::TimedOut));
    assert!(reg.entry(slot).photo_pending.is_none());
    let delivered = PhotoWait::Delivered(PhotoResult { path: "/p.jpg".into(), ok: true });
    match photo_outcome(&mut reg, slot, delivered) {
        PhotoOutcome::Taken(r) => assert_eq!(r.path, "/p.jpg"),
        _ => panic!("taken expected"),
    }
    let failed = PhotoWait::Delivered(PhotoResult { path: String::new(), ok: false });
    assert!(matches!(photo_outcome(&mut reg, slot, failed), PhotoOutcome::DeviceFailed));
    assert!(matches!(photo_outcome(&mut reg, slot, PhotoWait::Dropped), PhotoOutcome::TimedOut));
}

#[test]
fn pwm_cache_flow() {
    let mut reg = registry_with(&["dev1"]);
    assert!(pwm_get(&reg, "ghost").is_none());
    let st = pwm_get(&reg, "dev1").unwrap();
    assert!(st.enabled);
    assert_eq!(st.entries.len(), 3);
    assert_eq!(st.entries[0].speed, "low");
    assert_eq!(st.entries[1].pwm, 180);
    assert_eq!(st.entries[2].speed, "high");
    assert_eq!(default_entries()[2].pwm, 255);
    assert!(matches!(pwm_post(&mut reg, "dev1", None, 3), PwmToggle::InvalidBody));
    match pwm_post(&mut reg, "dev1", Some(PwmCacheToggleRequest { enabled: false }), 3) {
        PwmToggle::Queue { command: DeviceCommand::PwmCache { enabled, ts }, .. } => {
            assert!(!enabled);
            assert_eq!(ts, 3);
        }
        _ => panic!("pwm_cache command expected"),
    }
    assert!(!pwm_get(&reg, "dev1").unwrap().enabled);
}

#[test]
fn telemetry_only_for_online_devices() {
    let mut reg = registry_with(&["dev1"]);
    reg.entry_mut(0).set_telemetry(11, 12);
    let t = telemetry_get(&reg, "dev1").unwrap();
    assert_eq!((t.left_rpm, t.right_rpm), (11, 12));
    reg.sweep_offline(100_000);
    assert!(telemetry_get(&reg, "dev1").is_none());
    assert!(telemetry_get(&reg, "ghost").is_none());
}

#[test]
fn devices_and_config() {
    let reg = registry_with(&["a", "b"]);
    let rows = handle_get_devices(&reg);
    assert_eq!(rows.len(), 2);
    assert_eq!(rows[1].device_id, "b");
    let c = handle_get_config("0.0.0.0:8080", TOKEN);
    assert_eq!(c.server, "0.0.0.0:8080");
    assert_eq!(c.token, TOKEN);
}

#[test]
fn login_checks_password() {
    assert!(handle_login("admin1234", &LoginRequest { password: "admin1234".into() }));
    assert!(!handle_login("admin1234", &LoginRequest { password: "admin123".into() }));
    assert!(!handle_login("admin1234", &LoginRequest { password: "admin12345".into() }));
}

#[test]
fn frame_upload_and_stream() {
    let mut reg = DeviceRegistry::new(8, 8, 4, 1024, 4);
    let slot = reg.get_or_create("dev1", 0).unwrap();
    assert_eq!(parse_uptime_header(Some("1234")), Some(1234));
    assert_eq!(parse_uptime_header(Some("x")), None);
    match handle_frame(&mut reg, slot, Some("77"), vec![1, 2, 3], 500) {
        FrameOutcome::Stored(f) => {
            assert_eq!(f.jpeg, vec![1, 2, 3]);
            assert_eq!(f.device_uptime_ms, Some(77));
        }
        _ => panic!("frame stored"),
    }
    assert!(matches!(handle_frame(&mut reg, slot, None, vec![0; 5], 600), FrameOutcome::TooLarge));
    assert_eq!(reg.entry(slot).last_seen(), 600);
    let head = handle_get_stream(&reg, "dev1", 520).unwrap();
    assert_eq!(head.latency_ms, 20);
    assert_eq!(head.device_uptime_ms, Some(77));
    assert!(handle_get_stream(&reg, "ghost", 0).is_none());
    let empty = registry_with(&["x"]);
    let h = handle_get_stream(&empty, "x", 5).unwrap();
    assert_eq!(h.latency_ms, 0);
    assert!(h.device_uptime_ms.is_none());
}

#[test]
fn multipart_part_layout() {
    let part = build_part(b"JPG", 12, None);
    assert_eq!(
        part,
        b"--fnk0085frame\r\nContent-Type: image/jpeg\r\nX-Latency-Ms: 12\r\n\r\nJPG\r\n".to_vec()
    );
    let part = build_part(b"J", 0, Some(345));
    assert_eq!(
        part,
        b"--fnk0085frame\r\nContent-Type: image/jpeg\r\nX-Latency-Ms: 0\r\nX-Device-Uptime-Ms: 345\r\n\r\nJ\r\n"
            .to_vec()
    );
    let f = Arc::new(Frame { server_recv_ms: 100, device_uptime_ms: None, jpeg: b"Z".to_vec() });
    assert_eq!(frame_part(&f, 90), build_part(b"Z", 0, None));
    assert_eq!(frame_part(&f, 150), build_part(b"Z", 50, None));
}

#[test]
fn routing_table() {
    assert!(matches!(route(HttpMethod::Get, "/api/health"), Route::Health));
    assert!(matches!(route(HttpMethod::Post, "/api/auth/login"), Route::Login));
    assert!(matches!(route(HttpMethod::Get, "/api/config"), Route::Config));
    assert!(matches!(route(HttpMethod::Post, "/api/device/d1/register"), Route::DeviceRegister(ref id) if id == "d1"));
    assert!(matches!(route(HttpMethod::Get, "/api/device/d1/poll"), Route::DevicePoll(ref id) if id == "d1"));
    assert!(matches!(route(HttpMethod::Post, "/api/device/d1/event"), Route::DeviceEvent(_)));
    assert!(matches!(route(HttpMethod::Post, "/api/device/d1/frame"), Route::DeviceFrame(_)));
    assert!(matches!(route(HttpMethod::Get, "/api/device/d1/register"), Route::UnknownDeviceAction));
    assert!(matches!(route(HttpMethod::Get, "/api/device/d1"), Route::UnknownDeviceAction));
    assert!(matches!(route(HttpMethod::Get, "/api/devices"), Route::Devices));
    assert!(matches!(route(HttpMethod::Post, "/api/control/d1"), Route::Control(ref id) if id == "d1"));
    assert!(matches!(route(HttpMethod::Post, "/api/photo/d1"), Route::Photo(_)));
    assert!(matches!(route(HttpMethod::Get, "/api/stream/d1"), Route::Stream(_)));
    assert!(matches!(route(HttpMethod::Get, "/api/telemetry/d1"), Route::Telemetry(_)));
    assert!(matches!(route(HttpMethod::Get, "/api/pwm_cache/d1"), Route::PwmCacheGet(_)));
    assert!(matches!(route(HttpMethod::Post, "/api/pwm_cache/d1"), Route::PwmCachePost(_)));
    assert!(matches!(route(HttpMethod::Get, "/index.html"), Route::Static));
    assert!(matches!(route(HttpMethod::Get, "/api/nothing"), Route::NotFound));
    assert!(matches!(route(HttpMethod::Post, "/index.html"), Route::NotFound));
}

#[test]
fn gzip_negotiation() {
    assert!(accepts_gzip(Some("deflate, GZip;q=0.5")));
    assert!(!accepts_gzip(Some("br, deflate")));
    assert!(!accepts_gzip(None));
    assert!(gzip_worthwhile(true, 256));
    assert!(!gzip_worthwhile(true, 255));
    assert!(!gzip_worthwhile(false, 1000));
    let data = vec![b'a'; 1000];
    let gz = gzip_bytes(&data);
    assert_ne!(gz, data);
    let mut dec = flate2::read::GzDecoder::new(gz.as_slice());
    let mut back = Vec::new();
    dec.read_to_end(&mut back).unwrap();
    assert_eq!(back, data);
}

#[test]
fn body_limit() {
    let mut buf = Vec::new();
    assert!(append_body_chunk(&mut buf, &[0u8; 1024]));
    assert!(append_body_chunk(&mut buf, &vec![0u8; 1024 * 1023]));
    assert!(!append_body_chunk(&mut buf, &[0u8; 1]));
}

#[test]
fn health_reply() {
    let h = fnk0085_smart_car_backend::handlers::health();
    assert_eq!(h.status, "ok");
    assert_eq!(h.version, "0.3.1");
}

#[test]
fn timeout_number_edges() {
    assert_eq!(parse_timeout(Some("timeout=18446744073709551615")), POLL_MAX_TIMEOUT_S);
    assert_eq!(parse_timeout(Some("timeout=18446744073709551616")), POLL_DEFAULT_TIMEOUT_S);
    assert_eq!(parse_timeout(Some("timeout=")), POLL_DEFAULT_TIMEOUT_S);
    assert_eq!(parse_timeout(Some("timeout=+")), POLL_DEFAULT_TIMEOUT_S);
    assert_eq!(parse_timeout(Some("timeout=1x")), POLL_DEFAULT_TIMEOUT_S);
    assert_eq!(parse_timeout(Some("timeout=007")), 7);
}
