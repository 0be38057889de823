//! `GET /api/stream/{deviceId}`: the device's video as
//! `multipart/x-mixed-replace`, one JPEG per part.
//!
//! Each part carries `X-Latency-Ms` (time since the server received the
//! frame) and, when known, `X-Device-Uptime-Ms`; the response headers carry
//! the same for the newest cached frame.  Parts are not compressed.
use vstd::prelude::*;
use vstd::string::StringSliceAdditionalSpecFns;
use std::sync::Arc;
use crate::device::DeviceRegistry;
use crate::text::{decimal_bytes, push_decimal_bytes, push_str_bytes};
use crate::video_cache::Frame;

verus! {

/// Multipart boundary.
pub const BOUNDARY: &'static str = "fnk0085frame";

/// Milliseconds from `recv` to `now` (0 if `now` is earlier).
pub open spec fn latency(now: u64, recv: u64) -> u64 {
    if now >= recv {
        (now - recv) as u64
    } else {
        0
    }
}

/// Headers of the stream response: latency and device uptime of the newest
/// cached frame (0 and none when there is no frame yet).
#[derive(Debug, Clone, Copy)]
pub struct StreamHead {
    pub latency_ms: u64,
    pub device_uptime_ms: Option<u64>,
}

/// Opens the stream of device `device_id` at `now_ms`; `None` (404) for an
/// unknown device.
pub fn handle_get_stream(registry: &DeviceRegistry, device_id: &str, now_ms: u64) -> (r: Option<
    StreamHead,
>)
    ensures
        (r is None) == !registry.ids_view().contains(device_id@),
        r matches Some(h) ==> exists|i: int|
            #![trigger registry.slots_view()[i]]
            0 <= i < registry.slots_view().len() && registry.ids_view()[i] == device_id@ && ({
                let recent = registry.slots_view()[i].video.recent_view();
                if recent.len() == 0 {
                    h.latency_ms == 0 && h.device_uptime_ms is None
                } else {
                    h.latency_ms == latency(now_ms, recent.last().server_recv_ms)
                        && h.device_uptime_ms == recent.last().device_uptime_ms
                }
            }),
{
    let i = match registry.index_of(device_id) {
        Some(i) => i,
        None => return None,
    };
    let e = registry.entry(i);
    let head = match e.video.latest() {
        Some(f) => StreamHead {
            latency_ms: now_ms.saturating_sub(f.server_recv_ms),
            device_uptime_ms: f.device_uptime_ms,
        },
        None => StreamHead { latency_ms: 0, device_uptime_ms: None },
    };
    assert(registry.ids_view()[i as int] == device_id@);
    assert(registry.slots_view()[i as int] == *e);
    Some(head)
}

/// Bytes of one multipart part:
/// `--<boundary>\r\nContent-Type: image/jpeg\r\nX-Latency-Ms: <n>\r\n`,
/// `X-Device-Uptime-Ms: <u>\r\n` when the uptime is known, then `\r\n`,
/// the JPEG and `\r\n`.
pub open spec fn part_bytes(jpeg: Seq<u8>, latency_ms: u64, device_uptime_ms: Option<u64>) -> Seq<u8> {
    "--".spec_bytes() + BOUNDARY.spec_bytes() + "\r\nContent-Type: image/jpeg\r\nX-Latency-Ms: ".spec_bytes()
        + decimal_bytes(latency_ms as nat) + "\r\n".spec_bytes() + match device_uptime_ms {
        Some(u) => "X-Device-Uptime-Ms: ".spec_bytes() + decimal_bytes(u as nat) + "\r\n".spec_bytes(),
        None => Seq::<u8>::empty(),
    } + "\r\n".spec_bytes() + jpeg + "\r\n".spec_bytes()
}

/// Builds one multipart part.
pub fn build_part(jpeg: &[u8], latency_ms: u64, device_uptime_ms: Option<u64>) -> (out: Vec<u8>)
    ensures
        out@ == part_bytes(jpeg@, latency_ms, device_uptime_ms),
{
    let mut out: Vec<u8> = Vec::new();
    push_str_bytes(&mut out, "--");
    push_str_bytes(&mut out, BOUNDARY);
    push_str_bytes(&mut out, "\r\nContent-Type: image/jpeg\r\nX-Latency-Ms: ");
    push_decimal_bytes(&mut out, latency_ms);
    push_str_bytes(&mut out, "\r\n");
    let ghost before_uptime = out@;
    match device_uptime_ms {
        Some(u) => {
            push_str_bytes(&mut out, "X-Device-Uptime-Ms: ");
            push_decimal_bytes(&mut out, u);
            push_str_bytes(&mut out, "\r\n");
        },
        None => {},
    }
    push_str_bytes(&mut out, "\r\n");
    out.extend_from_slice(jpeg);
    push_str_bytes(&mut out, "\r\n");
    proof {
        let up = match device_uptime_ms {
            Some(u) => "X-Device-Uptime-Ms: ".spec_bytes() + decimal_bytes(u as nat)
                + "\r\n".spec_bytes(),
            None => Seq::<u8>::empty(),
        };
        assert(before_uptime + up + "\r\n".spec_bytes() + jpeg@ + "\r\n".spec_bytes() =~= out@);
    }
    out
}

/// The part that carries `frame` to a viewer at `now_ms`.
pub fn frame_part(frame: &Arc<Frame>, now_ms: u64) -> (out: Vec<u8>)
    ensures
        out@ == part_bytes(
            frame.jpeg@,
            latency(now_ms, frame.server_recv_ms),
            frame.device_uptime_ms,
        ),
{
    build_part(frame.jpeg.as_slice(), now_ms.saturating_sub(frame.server_recv_ms), frame.device_uptime_ms)
}

} // verus!
