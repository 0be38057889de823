//! `GET /api/devices`: online state of every registered device.
use vstd::prelude::*;
use crate::device::{ids_distinct, summarizes, DeviceRegistry, DeviceSummary};

verus! {

/// One row `{deviceId, online, lastSeenMs, leftRpm, rightRpm}` per
/// registered id, in registration order.
pub fn handle_get_devices(registry: &DeviceRegistry) -> (rows: Vec<DeviceSummary>)
    ensures
        rows@.len() == registry.ids_view().len(),
        rows@.len() == registry.slots_view().len(),
        ids_distinct(registry.ids_view()),
        forall|i: int|
            0 <= i < rows@.len() ==> summarizes(
                #[trigger] rows@[i],
                registry.ids_view()[i],
                registry.slots_view()[i],
            ),
{
    registry.list()
}

} // verus!
