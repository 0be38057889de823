//! `GET /api/telemetry/{deviceId}`: the device's wheel speeds, as last
//! reported by a `telemetry` event.
use vstd::prelude::*;
use crate::device::{ids_distinct, DeviceEntry, DeviceRegistry};
use crate::handlers::device_api::event_effect;
use crate::protocol::DeviceEvent;

verus! {

/// Reply: `{leftRpm, rightRpm}`.
#[derive(Debug, Clone, Copy)]
pub struct TelemetryResponse {
    pub left_rpm: i32,
    pub right_rpm: i32,
}

/// What a `telemetry` event records is what the telemetry endpoint reads
/// back: after the event for the device in slot `i`, every slot holding
/// that device's id (there is one) is online with the reported speeds.
pub proof fn lemma_telemetry_read_back(
    ids: Seq<Seq<char>>,
    slots: Seq<DeviceEntry>,
    i: int,
    left_rpm: i32,
    right_rpm: i32,
    now: u64,
)
    requires
        ids_distinct(ids),
        ids.len() == slots.len(),
        0 <= i < slots.len(),
    ensures
        ({
            let after = slots.update(
                i,
                event_effect(slots[i], DeviceEvent::Telemetry { left_rpm, right_rpm }, now),
            );
            forall|j: int|
                0 <= j < after.len() && ids[j] == ids[i] ==> (#[trigger] after[j]).online
                    && after[j].left_rpm == left_rpm && after[j].right_rpm == right_rpm
        }),
{
}

/// The wheel speeds of an online device; `None` (404) for a device that is
/// unknown or offline, so that no stale speeds are shown.
pub fn handle_get(registry: &DeviceRegistry, device_id: &str) -> (r: Option<TelemetryResponse>)
    ensures
        match r {
            Some(t) => exists|i: int|
                0 <= i < registry.slots_view().len() && registry.ids_view()[i] == device_id@
                    && registry.slots_view()[i].online && t.left_rpm
                    == registry.slots_view()[i].left_rpm && t.right_rpm
                    == registry.slots_view()[i].right_rpm,
            None => forall|i: int|
                0 <= i < registry.slots_view().len() && registry.ids_view()[i] == device_id@
                    ==> !registry.slots_view()[i].online,
        },
{
    match registry.index_of(device_id) {
        Some(i) => {
            let e = registry.entry(i);
            if e.is_online() {
                let (left_rpm, right_rpm) = e.telemetry();
                assert(registry.ids_view()[i as int] == device_id@);
                Some(TelemetryResponse { left_rpm, right_rpm })
            } else {
                None
            }
        },
        None => None,
    }
}

} // verus!
