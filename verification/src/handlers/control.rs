//! `POST /api/control/{deviceId}`: WASD + PWM driving commands.
//!
//! The request is checked, turned into a `control` command and queued for
//! the device, which picks it up on its next poll.
use vstd::prelude::*;
use crate::device::DeviceRegistry;
use crate::protocol::DeviceCommand;
use crate::text::str_eq;

verus! {

/// Body: `{direction, pwm}`.
#[derive(Debug, Clone)]
pub struct ControlRequest {
    /// `"W"`, `"A"`, `"S"`, `"D"` or `"stop"`.
    pub direction: String,
    /// `0..=255`.
    pub pwm: u16,
}

/// Reply `{ok: true}`.
#[derive(Debug, Clone, Copy)]
pub struct ControlResponse {
    pub ok: bool,
}

/// Largest PWM duty value.
pub const MAX_PWM: u16 = 255;

/// The directions a device understands.
pub open spec fn is_valid_direction(d: Seq<char>) -> bool {
    d == "W"@ || d == "A"@ || d == "S"@ || d == "D"@ || d == "stop"@
}

/// Whether `d` is one of the accepted directions.
pub fn valid_direction(d: &str) -> (ok: bool)
    ensures
        ok == is_valid_direction(d@),
{
    str_eq(d, "W") || str_eq(d, "A") || str_eq(d, "S") || str_eq(d, "D") || str_eq(d, "stop")
}

/// Outcome of a control request.
pub enum ControlOutcome {
    /// No such device (404).
    UnknownDevice,
    /// The body is not a control request (400).
    InvalidBody,
    /// The direction is not one of W/A/S/D/stop (400).
    BadDirection,
    /// The PWM value is above 255 (400).
    BadPwm,
    /// Queue `command` for the device in `slot`, then answer 200 `{ok:true}`.
    Queue { slot: usize, command: DeviceCommand },
}

/// `POST /api/control/{id}` with the parsed body (`None` when it could not
/// be parsed), received at `now_ms`.  Checks, in order: the device exists,
/// the body parsed, the direction, the PWM range.
pub fn handle_post_control(
    registry: &DeviceRegistry,
    device_id: &str,
    req: Option<&ControlRequest>,
    now_ms: u64,
) -> (r: ControlOutcome)
    ensures
        (r is UnknownDevice) == !registry.ids_view().contains(device_id@),
        r is InvalidBody ==> req is None,
        r is BadDirection ==> (req matches Some(q) && !is_valid_direction(q.direction@)),
        r is BadPwm ==> (req matches Some(q) && is_valid_direction(q.direction@) && q.pwm > MAX_PWM),
        registry.ids_view().contains(device_id@) ==> match req {
            None => r is InvalidBody,
            Some(q) => if !is_valid_direction(q.direction@) {
                r is BadDirection
            } else if q.pwm > MAX_PWM {
                r is BadPwm
            } else {
                &&& r matches ControlOutcome::Queue { slot, command }
                &&& slot < registry.slots_view().len()
                &&& registry.ids_view()[slot as int] == device_id@
                &&& command matches DeviceCommand::Control { direction, pwm, duration_ms, ts }
                &&& direction@ == q.direction@
                &&& pwm == q.pwm
                &&& duration_ms is None
                &&& ts == now_ms
            },
        },
{
    let slot = match registry.index_of(device_id) {
        Some(i) => i,
        None => return ControlOutcome::UnknownDevice,
    };
    let q = match req {
        Some(q) => q,
        None => return ControlOutcome::InvalidBody,
    };
    if !valid_direction(&q.direction) {
        return ControlOutcome::BadDirection;
    }
    if q.pwm > MAX_PWM {
        return ControlOutcome::BadPwm;
    }
    let command = DeviceCommand::Control {
        direction: q.direction.clone(),
        pwm: q.pwm,
        duration_ms: None,
        ts: now_ms,
    };
    ControlOutcome::Queue { slot, command }
}

} // verus!
