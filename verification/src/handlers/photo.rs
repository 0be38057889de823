//! `POST /api/photo/{deviceId}`: take a photo and wait for the device's
//! `photo_done` (or `error`) event.
//!
//! The request registers a waiter on the device, queues a `photo` command,
//! then waits up to `PHOTO_TIMEOUT_MS` for the result.
use vstd::prelude::*;
use tokio::sync::oneshot;
use crate::device::{DeviceEntry, DeviceRegistry, PhotoResult};
use crate::protocol::DeviceCommand;

verus! {

/// Reply: `{path}` of the photo on the device's SD card.
#[derive(Debug, Clone)]
pub struct PhotoResponse {
    pub path: String,
}

/// How long a photo request waits for the device (ms).
pub const PHOTO_TIMEOUT_MS: u64 = 8_000;

/// How a photo request starts.
pub enum PhotoStart {
    /// No such device (404).
    UnknownDevice,
    /// Another photo request is pending on the device (400).
    Busy,
    /// The waiter is registered: queue `command` for the device in `slot`,
    /// then wait.
    Send { slot: usize, command: DeviceCommand },
}

/// `POST /api/photo/{id}` at `now_ms`: registers `waiter` on the device and
/// builds the `photo` command (best quality).
pub fn handle_post_photo(
    registry: &mut DeviceRegistry,
    device_id: &str,
    waiter: oneshot::Sender<PhotoResult>,
    now_ms: u64,
) -> (r: PhotoStart)
    ensures
        final(registry).ids_view() == old(registry).ids_view(),
        (r is UnknownDevice) == !old(registry).ids_view().contains(device_id@),
        r is UnknownDevice ==> *final(registry) == *old(registry),
        r is Busy ==> *final(registry) == *old(registry),
        match r {
            PhotoStart::UnknownDevice => true,
            PhotoStart::Busy => exists|i: int|
                0 <= i < old(registry).slots_view().len() && old(registry).ids_view()[i]
                    == device_id@ && old(registry).slots_view()[i].photo_pending is Some,
            PhotoStart::Send { slot, command } => {
                &&& slot < old(registry).slots_view().len()
                &&& old(registry).ids_view()[slot as int] == device_id@
                &&& old(registry).slots_view()[slot as int].photo_pending is None
                &&& final(registry).slots_view() == old(registry).slots_view().update(
                    slot as int,
                    DeviceEntry {
                        photo_pending: Some(waiter),
                        ..old(registry).slots_view()[slot as int]
                    },
                )
                &&& command matches DeviceCommand::Photo { quality, ts }
                &&& quality@ == "max"@
                &&& ts == now_ms
            },
        },
{
    let slot = match registry.index_of(device_id) {
        Some(i) => i,
        None => return PhotoStart::UnknownDevice,
    };
    if registry.entry(slot).photo_pending.is_some() {
        return PhotoStart::Busy;
    }
    let accepted = registry.entry_mut(slot).await_photo(waiter);
    assert(accepted);
    PhotoStart::Send {
        slot,
        command: DeviceCommand::Photo { quality: "max".to_string(), ts: now_ms },
    }
}

/// How waiting for the photo ended.
pub enum PhotoWait {
    /// The device's result arrived.
    Delivered(PhotoResult),
    /// The waiter vanished without a result.
    Dropped,
    /// `PHOTO_TIMEOUT_MS` passed.
    TimedOut,
}

/// The answer to a photo request.
pub enum PhotoOutcome {
    /// 200 `{path}`.
    Taken(PhotoResponse),
    /// The device reported a failure (502).
    DeviceFailed,
    /// No result in time (504).
    TimedOut,
}

/// Ends the photo request of the device in `slot`: a delivered result is
/// the answer; after a timeout the pending waiter is cleared.
pub fn photo_outcome(registry: &mut DeviceRegistry, slot: usize, wait: PhotoWait) -> (r: PhotoOutcome)
    requires
        slot < old(registry).slots_view().len(),
    ensures
        final(registry).ids_view() == old(registry).ids_view(),
        wait is TimedOut ==> final(registry).slots_view() == old(registry).slots_view().update(
            slot as int,
            DeviceEntry { photo_pending: None, ..old(registry).slots_view()[slot as int] },
        ),
        !(wait is TimedOut) ==> *final(registry) == *old(registry),
        match wait {
            PhotoWait::Delivered(res) => if res.ok {
                r matches PhotoOutcome::Taken(p) && p.path@ == res.path@
            } else {
                r is DeviceFailed
            },
            _ => r is TimedOut,
        },
{
    match wait {
        PhotoWait::Delivered(res) => {
            if res.ok {
                PhotoOutcome::Taken(PhotoResponse { path: res.path })
            } else {
                PhotoOutcome::DeviceFailed
            }
        },
        PhotoWait::Dropped => PhotoOutcome::TimedOut,
        PhotoWait::TimedOut => {
            let _ = registry.entry_mut(slot).complete_photo(
                PhotoResult { path: String::new(), ok: false },
            );
            PhotoOutcome::TimedOut
        },
    }
}

} // verus!
