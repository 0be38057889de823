//! `GET/POST /api/pwm_cache/{deviceId}`: read or switch a device's PWM cache.
//!
//! With the cache on, the device keeps a direction-to-PWM table of its own
//! and control commands may leave the PWM out.
use vstd::prelude::*;
use crate::device::{ids_distinct, DeviceEntry, DeviceRegistry};
use crate::protocol::DeviceCommand;

verus! {

/// One speed step of the device's table.
#[derive(Debug, Clone, Copy)]
pub struct PwmCacheEntry {
    pub speed: &'static str,
    pub pwm: u16,
}

/// Reply of `GET`: `{enabled, entries}`.
#[derive(Debug, Clone)]
pub struct PwmCacheState {
    pub enabled: bool,
    pub entries: Vec<PwmCacheEntry>,
}

/// Body of `POST`: `{enabled}`.
#[derive(Debug, Clone, Copy)]
pub struct PwmCacheToggleRequest {
    pub enabled: bool,
}

/// Reply of `POST`: `{ok: true}`.
#[derive(Debug, Clone, Copy)]
pub struct PwmCacheToggleResponse {
    pub ok: bool,
}

/// The device firmware's speed table: low 120, mid 180, high 255.
pub open spec fn is_default_table(t: Seq<PwmCacheEntry>) -> bool {
    &&& t.len() == 3
    &&& t[0].speed@ == "low"@ && t[0].pwm == 120
    &&& t[1].speed@ == "mid"@ && t[1].pwm == 180
    &&& t[2].speed@ == "high"@ && t[2].pwm == 255
}

/// The speed table of the device firmware.
pub fn default_entries() -> (v: Vec<PwmCacheEntry>)
    ensures
        is_default_table(v@),
{
    let mut v: Vec<PwmCacheEntry> = Vec::new();
    v.push(PwmCacheEntry { speed: "low", pwm: 120 });
    v.push(PwmCacheEntry { speed: "mid", pwm: 180 });
    v.push(PwmCacheEntry { speed: "high", pwm: 255 });
    v
}

/// `GET /api/pwm_cache/{id}`: the switch and the speed table, or `None`
/// for an unknown device (404).
pub fn handle_get(registry: &DeviceRegistry, device_id: &str) -> (r: Option<PwmCacheState>)
    ensures
        (r is None) == !registry.ids_view().contains(device_id@),
        r matches Some(st) ==> is_default_table(st.entries@) && exists|i: int|
            0 <= i < registry.slots_view().len() && registry.ids_view()[i] == device_id@
                && st.enabled == registry.slots_view()[i].pwm_cache_enabled,
{
    match registry.index_of(device_id) {
        Some(i) => {
            let st = PwmCacheState {
                enabled: registry.entry(i).pwm_cache_enabled(),
                entries: default_entries(),
            };
            assert(registry.ids_view()[i as int] == device_id@);
            Some(st)
        },
        None => None,
    }
}

/// The switch a `POST` records is what a later `GET` reads back: after it
/// is set on the device in slot `i`, every slot holding that device's id
/// (there is one) has it.
pub proof fn lemma_switch_read_back(ids: Seq<Seq<char>>, slots: Seq<DeviceEntry>, i: int, enabled: bool)
    requires
        ids_distinct(ids),
        ids.len() == slots.len(),
        0 <= i < slots.len(),
    ensures
        ({
            let after = slots.update(i, DeviceEntry { pwm_cache_enabled: enabled, ..slots[i] });
            forall|j: int|
                0 <= j < after.len() && ids[j] == ids[i] ==> (#[trigger] after[j]).pwm_cache_enabled
                    == enabled
        }),
{
}

/// Outcome of switching the cache.
pub enum PwmToggle {
    /// No such device (404).
    UnknownDevice,
    /// The body is not `{enabled}` (400).
    InvalidBody,
    /// Switched; queue `command` for the device in `slot`, then answer
    /// 200 `{ok:true}`.
    Queue { slot: usize, command: DeviceCommand },
}

/// `POST /api/pwm_cache/{id}` with the parsed body (`None` when it could
/// not be parsed) at `now_ms`: records the switch and builds the
/// `pwm_cache` command that tells the device.
pub fn handle_post(
    registry: &mut DeviceRegistry,
    device_id: &str,
    req: Option<PwmCacheToggleRequest>,
    now_ms: u64,
) -> (r: PwmToggle)
    ensures
        final(registry).ids_view() == old(registry).ids_view(),
        (r is UnknownDevice) == !old(registry).ids_view().contains(device_id@),
        old(registry).ids_view().contains(device_id@) ==> (r is InvalidBody) == (req is None),
        !(r is Queue) ==> *final(registry) == *old(registry),
        r matches PwmToggle::Queue { slot, command } ==> {
            &&& req matches Some(q)
            &&& slot < old(registry).slots_view().len()
            &&& old(registry).ids_view()[slot as int] == device_id@
            &&& final(registry).slots_view() == old(registry).slots_view().update(
                slot as int,
                DeviceEntry {
                    pwm_cache_enabled: q.enabled,
                    ..old(registry).slots_view()[slot as int]
                },
            )
            &&& command == (DeviceCommand::PwmCache { enabled: q.enabled, ts: now_ms })
        },
{
    let slot = match registry.index_of(device_id) {
        Some(i) => i,
        None => return PwmToggle::UnknownDevice,
    };
    let q = match req {
        Some(q) => q,
        None => return PwmToggle::InvalidBody,
    };
    registry.entry_mut(slot).set_pwm_cache(q.enabled);
    PwmToggle::Queue { slot, command: DeviceCommand::PwmCache { enabled: q.enabled, ts: now_ms } }
}

} // verus!
