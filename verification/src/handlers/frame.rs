//! `POST /api/device/{deviceId}/frame`: one JPEG frame uploaded by a device
//! (body: the JPEG; `X-Device-Uptime-Ms`: the device's uptime).
//!
//! The upload counts as a heartbeat; the frame goes into the device's video
//! cache and out to the viewers of its stream.
use vstd::prelude::*;
use std::sync::Arc;
use crate::device::{touched, DeviceEntry, DeviceRegistry};
use crate::text::{parse_u64, spec_parse_u64};
use crate::video_cache::{spec_cache_push, Frame};

verus! {

/// Outcome of a frame upload.
pub enum FrameOutcome {
    /// Cached (204); the frame is to be broadcast to the stream's viewers.
    Stored(Arc<Frame>),
    /// Larger than the device's frame limit, dropped (413).
    TooLarge,
}

/// Device uptime given by an `X-Device-Uptime-Ms` header value.
pub open spec fn header_uptime(h: Option<Seq<char>>) -> Option<u64> {
    match h {
        Some(s) => spec_parse_u64(s),
        None => None,
    }
}

/// The device uptime an `X-Device-Uptime-Ms` header value gives, if it is a
/// number.
pub fn parse_uptime_header(value: Option<&str>) -> (r: Option<u64>)
    ensures
        r == header_uptime(match value {
            Some(v) => Some(v@),
            None => None,
        }),
{
    match value {
        Some(v) => parse_u64(v),
        None => None,
    }
}

/// Frame upload for the (authorized) device in `slot`, received at
/// `now_ms`: marks the device seen, then caches and broadcasts the frame,
/// stamped with `now_ms` and the uptime header, unless it exceeds the
/// device's frame limit; a stored frame is returned for broadcasting.
pub fn handle_frame(
    registry: &mut DeviceRegistry,
    slot: usize,
    uptime_header: Option<&str>,
    jpeg: Vec<u8>,
    now_ms: u64,
) -> (r: FrameOutcome)
    requires
        slot < old(registry).slots_view().len(),
    ensures
        ({
            let e0 = old(registry).slots_view()[slot as int];
            let e1 = final(registry).slots_view()[slot as int];
            &&& final(registry).ids_view() == old(registry).ids_view()
            &&& final(registry).slots_view() == old(registry).slots_view().update(slot as int, e1)
            &&& (DeviceEntry { video: e0.video, ..e1 }) == touched(e0, None, now_ms)
            &&& (r is TooLarge) == (jpeg@.len() > e0.video.max_frame_bytes_spec())
            &&& r is TooLarge ==> e1.video == e0.video
            &&& r matches FrameOutcome::Stored(b) ==> {
                let f = Frame {
                    server_recv_ms: now_ms,
                    device_uptime_ms: header_uptime(
                        match uptime_header {
                            Some(v) => Some(v@),
                            None => None,
                        },
                    ),
                    jpeg,
                };
                &&& b == Arc::new(f)
                &&& e1.video.recent_view() == spec_cache_push(
                    e0.video.recent_view(),
                    f,
                    e0.video.max_recent_spec(),
                    e0.video.max_bytes_spec(),
                    e0.video.max_frame_bytes_spec(),
                )
                &&& e1.video.channel() == e0.video.channel()
                &&& e1.video.max_recent_spec() == e0.video.max_recent_spec()
                &&& e1.video.max_bytes_spec() == e0.video.max_bytes_spec()
                &&& e1.video.max_frame_bytes_spec() == e0.video.max_frame_bytes_spec()
            }
        }),
{
    let device_uptime_ms = parse_uptime_header(uptime_header);
    let entry = registry.entry_mut(slot);
    entry.touch(None, now_ms);
    if jpeg.len() > entry.video.max_frame_bytes() {
        return FrameOutcome::TooLarge;
    }
    match entry.video.push(Frame { server_recv_ms: now_ms, device_uptime_ms, jpeg }) {
        Some(b) => FrameOutcome::Stored(b),
        None => FrameOutcome::TooLarge,
    }
}

} // verus!
