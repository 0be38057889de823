//! Device-side control channel: `register`, long-poll `poll` and `event`.
//!
//! A device registers with the shared token, then long-polls for queued
//! commands and reports events (photo done, ack, telemetry, error), each
//! request carrying `Authorization: Bearer <token>`.
use vstd::prelude::*;
use crate::text::{
    after_char, after_prefix, before_char, lemma_index_of_char_bounds, parse_u64, spec_parse_u64,
    split_at_char, starts_with, str_eq, strip_prefix,
};
use crate::device::{
    delivery_for, touched, seen_update, CommandQueue, DeviceEntry, DeviceRegistry, PhotoDelivery,
    PhotoResult, RecvStep,
    RegistryError,
};
use crate::protocol::{DeviceCommand, DeviceEvent};
use tokio::sync::oneshot;

verus! {

/// Poll timeout (seconds) when the query names none.
pub const POLL_DEFAULT_TIMEOUT_S: u64 = 30;

/// Longest poll timeout (seconds).
pub const POLL_MAX_TIMEOUT_S: u64 = 60;

/// Body of `register`: `{token}`.
#[derive(Debug, Clone)]
pub struct RegisterRequest {
    pub token: String,
}

/// Reply `{ok: true}`.
#[derive(Debug, Clone, Copy)]
pub struct OkResponse {
    pub ok: bool,
}

/// A token as sent: an optional `Bearer ` prefix is ignored.
pub open spec fn strip_bearer(s: Seq<char>) -> Seq<char> {
    if starts_with(s, "Bearer "@) {
        after_prefix(s, "Bearer "@)
    } else {
        s
    }
}

/// A token is accepted with or without the `Bearer ` prefix.
pub proof fn lemma_bearer_prefix_accepted(token: Seq<char>)
    ensures
        strip_bearer("Bearer "@ + token) == token,
{
    let s = "Bearer "@ + token;
    assert(s.subrange(0, "Bearer "@.len() as int) =~= "Bearer "@);
    assert(after_prefix(s, "Bearer "@) =~= token);
}

/// Checks a token against the configured one, allowing a `Bearer ` prefix.
pub fn validate_token(received: &str, expected: &str) -> (ok: bool)
    ensures
        ok == (strip_bearer(received@) == expected@),
{
    let trimmed = match strip_prefix(received, "Bearer ") {
        Some(rest) => rest,
        None => received,
    };
    str_eq(trimmed, expected)
}

/// The `Authorization` header (when present and readable) carries the token.
pub open spec fn authorized(authorization: Option<&str>, expected: Seq<char>) -> bool {
    authorization matches Some(h) && strip_bearer(h@) == expected
}

/// Checks an `Authorization: Bearer <token>` header value.
pub fn check_auth(authorization: Option<&str>, expected: &str) -> (ok: bool)
    ensures
        ok == authorized(authorization, expected@),
{
    match authorization {
        Some(h) => validate_token(h, expected),
        None => false,
    }
}

/// `n` brought into `1..=POLL_MAX_TIMEOUT_S`.
pub open spec fn clamp_timeout(n: u64) -> u64 {
    if n < 1 {
        1
    } else if n > POLL_MAX_TIMEOUT_S {
        POLL_MAX_TIMEOUT_S
    } else {
        n
    }
}

/// The timeout given by the first `&`-separated pair of the query `q` of
/// the form `timeout=<u64>`, clamped.
pub open spec fn timeout_in(q: Seq<char>) -> Option<u64>
    decreases q.len(),
{
    let pair = before_char(q, '&');
    let given = if starts_with(pair, "timeout="@) {
        spec_parse_u64(after_prefix(pair, "timeout="@))
    } else {
        None
    };
    match given {
        Some(n) => Some(clamp_timeout(n)),
        None => if q.contains('&') {
            proof {
                lemma_index_of_char_bounds(q, '&');
            }
            timeout_in(after_char(q, '&'))
        } else {
            None
        },
    }
}

/// The poll timeout (seconds) a query string asks for.
pub open spec fn spec_poll_timeout(query: Option<Seq<char>>) -> u64 {
    match query {
        Some(q) => match timeout_in(q) {
            Some(n) => n,
            None => POLL_DEFAULT_TIMEOUT_S,
        },
        None => POLL_DEFAULT_TIMEOUT_S,
    }
}

proof fn lemma_timeout_in_bounds(q: Seq<char>)
    ensures
        timeout_in(q) matches Some(n) ==> 1 <= n <= POLL_MAX_TIMEOUT_S,
    decreases q.len(),
{
    lemma_index_of_char_bounds(q, '&');
    if q.contains('&') {
        lemma_timeout_in_bounds(after_char(q, '&'));
    }
}

/// Whatever the query, a poll waits between 1 and `POLL_MAX_TIMEOUT_S` seconds.
pub proof fn lemma_poll_timeout_in_range(query: Option<Seq<char>>)
    ensures
        1 <= spec_poll_timeout(query) <= POLL_MAX_TIMEOUT_S,
{
    if let Some(q) = query {
        lemma_timeout_in_bounds(q);
    }
}

fn clamp(n: u64) -> (r: u64)
    ensures
        r == clamp_timeout(n),
{
    if n < 1 {
        1
    } else if n > POLL_MAX_TIMEOUT_S {
        POLL_MAX_TIMEOUT_S
    } else {
        n
    }
}

/// Parses `timeout=N` (seconds) from a query string: 30 by default, at
/// most 60, at least 1.
pub fn parse_timeout(query: Option<&str>) -> (t: u64)
    ensures
        t == spec_poll_timeout(match query {
            Some(q) => Some(q@),
            None => None,
        }),
{
    let q = match query {
        Some(s) => s,
        None => return POLL_DEFAULT_TIMEOUT_S,
    };
    let mut rest: &str = q;
    loop
        invariant
            query == Some(q),
            timeout_in(rest@) == timeout_in(q@),
        decreases rest@.len(),
    {
        let (pair, next) = split_at_char(rest, '&');
        match strip_prefix(pair, "timeout=") {
            Some(v) => match parse_u64(v) {
                Some(n) => {
                    return clamp(n);
                },
                None => {},
            },
            None => {},
        }
        match next {
            None => {
                return POLL_DEFAULT_TIMEOUT_S;
            },
            Some(r) => {
                proof {
                    lemma_index_of_char_bounds(rest@, '&');
                }
                rest = r;
            },
        }
    }
}

/// Outcome of `register`.
pub enum RegisterOutcome {
    /// The token matched and the device has this slot (200 `{ok:true}`).
    Registered(usize),
    /// The token did not match (401).
    InvalidToken,
    /// The registry is full (503).
    Refused(RegistryError),
}

/// `POST /api/device/{id}/register` with body `req`: checks the token, then
/// registers the device (or refreshes it) as seen at `now_ms`.
pub fn handle_register(
    registry: &mut DeviceRegistry,
    expected_token: &str,
    device_id: &str,
    req: &RegisterRequest,
    now_ms: u64,
) -> (r: RegisterOutcome)
    ensures
        strip_bearer(req.token@) != expected_token@ ==> r is InvalidToken && *final(registry)
            == *old(registry),
        strip_bearer(req.token@) == expected_token@ ==> match r {
            RegisterOutcome::Registered(i) => seen_update(
                *old(registry),
                *final(registry),
                device_id@,
                None,
                now_ms,
                Ok(i),
            ),
            RegisterOutcome::Refused(e) => seen_update(
                *old(registry),
                *final(registry),
                device_id@,
                None,
                now_ms,
                Err(e),
            ),
            RegisterOutcome::InvalidToken => false,
        },
{
    if !validate_token(&req.token, expected_token) {
        return RegisterOutcome::InvalidToken;
    }
    match registry.register_seen(device_id, None, now_ms) {
        Ok(i) => RegisterOutcome::Registered(i),
        Err(e) => RegisterOutcome::Refused(e),
    }
}

/// Who a device request comes from.
pub enum Access {
    /// Missing or wrong token (401).
    Unauthorized,
    /// The token matched but the device is not registered (404).
    UnknownDevice,
    /// The token matched; the device has this slot.
    Granted(usize),
}

/// Checks the token of a device request, then finds the device.
pub fn authorize_device(
    registry: &DeviceRegistry,
    expected_token: &str,
    device_id: &str,
    authorization: Option<&str>,
) -> (a: Access)
    ensures
        match a {
            Access::Unauthorized => !authorized(authorization, expected_token@),
            Access::UnknownDevice => authorized(authorization, expected_token@)
                && !registry.ids_view().contains(device_id@),
            Access::Granted(i) => authorized(authorization, expected_token@) && i
                < registry.ids_view().len() && i < registry.slots_view().len()
                && registry.ids_view()[i as int] == device_id@,
        },
{
    if !check_auth(authorization, expected_token) {
        return Access::Unauthorized;
    }
    match registry.index_of(device_id) {
        Some(i) => Access::Granted(i),
        None => Access::UnknownDevice,
    }
}

/// How a poll starts.
pub enum PollStart {
    Unauthorized,
    UnknownDevice,
    /// Wait up to `timeout_s` seconds for a command for the device in `slot`.
    Wait { slot: usize, timeout_s: u64 },
}

/// `GET /api/device/{id}/poll?timeout=N`: checks the token, finds the
/// device and reads the timeout.
pub fn handle_poll(
    registry: &DeviceRegistry,
    expected_token: &str,
    device_id: &str,
    authorization: Option<&str>,
    query: Option<&str>,
) -> (p: PollStart)
    ensures
        match p {
            PollStart::Unauthorized => !authorized(authorization, expected_token@),
            PollStart::UnknownDevice => authorized(authorization, expected_token@)
                && !registry.ids_view().contains(device_id@),
            PollStart::Wait { slot, timeout_s } => authorized(authorization, expected_token@)
                && slot < registry.ids_view().len() && slot < registry.slots_view().len()
                && registry.ids_view()[slot as int] == device_id@ && timeout_s
                == spec_poll_timeout(
                match query {
                    Some(q) => Some(q@),
                    None => None,
                },
            ),
        },
{
    match authorize_device(registry, expected_token, device_id, authorization) {
        Access::Unauthorized => PollStart::Unauthorized,
        Access::UnknownDevice => PollStart::UnknownDevice,
        Access::Granted(slot) => PollStart::Wait { slot, timeout_s: parse_timeout(query) },
    }
}

/// What a waiting poll does next.
pub enum PollReply {
    /// Answer with this queued command (its JSON bytes).
    Command(Vec<u8>),
    /// The wait is over: answer with this placeholder so the device polls again.
    Ping(DeviceCommand),
    /// Nothing yet: keep waiting.
    Wait,
}

/// One step of a poll with `remaining_ms` left before its deadline: the
/// oldest queued command, else a `ping` (sequence 0, stamped `now_ms`) once
/// the time is up, else wait.
pub fn poll_step(queue: &mut CommandQueue, remaining_ms: u64, now_ms: u64) -> (r: PollReply)
    ensures
        final(queue).capacity() == old(queue).capacity(),
        match r {
            PollReply::Command(v) => old(queue).items().len() > 0 && v@ == old(queue).items()[0]
                && final(queue).items() == old(queue).items().drop_first(),
            PollReply::Ping(c) => old(queue).items().len() == 0 && remaining_ms == 0 && c
                == (DeviceCommand::Ping { seq: 0, ts: now_ms }) && final(queue).items()
                == old(queue).items(),
            PollReply::Wait => old(queue).items().len() == 0 && remaining_ms > 0
                && final(queue).items() == old(queue).items(),
        },
{
    match queue.recv_step(remaining_ms) {
        RecvStep::Command(v) => PollReply::Command(v),
        RecvStep::TimedOut => PollReply::Ping(DeviceCommand::Ping { seq: 0, ts: now_ms }),
        RecvStep::Wait => PollReply::Wait,
    }
}

/// How a device's state changes on `ev` received at `now`: every event but
/// `register` counts as a sign of life; `photo_done` and `error` settle the
/// pending photo request, `telemetry` records the wheel speeds.
pub open spec fn event_effect(e: DeviceEntry, ev: DeviceEvent, now: u64) -> DeviceEntry {
    match ev {
        DeviceEvent::Register { .. } => e,
        DeviceEvent::PhotoDone { .. } => touched(DeviceEntry { photo_pending: None, ..e }, None, now),
        DeviceEvent::Error { .. } => touched(DeviceEntry { photo_pending: None, ..e }, None, now),
        DeviceEvent::Telemetry { left_rpm, right_rpm } => touched(
            DeviceEntry { left_rpm, right_rpm, ..e },
            None,
            now,
        ),
        DeviceEvent::Ack { .. } => touched(e, None, now),
    }
}

/// What goes to the photo request `pending` on event `ev`: `photo_done`
/// answers it with its path (ok), `error` answers it with a failure (empty
/// path, not ok); other events answer nothing.
pub open spec fn event_delivery(
    pending: Option<oneshot::Sender<PhotoResult>>,
    ev: DeviceEvent,
    photo: Option<PhotoDelivery>,
) -> bool {
    match ev {
        DeviceEvent::PhotoDone { path, .. } => photo == delivery_for(
            pending,
            PhotoResult { path, ok: true },
        ),
        DeviceEvent::Error { .. } => match pending {
            Some(tx) => {
                &&& photo matches Some(d)
                &&& d.waiter == tx
                &&& !d.result.ok
                &&& d.result.path@ == Seq::<char>::empty()
            },
            None => photo is None,
        },
        _ => photo is None,
    }
}

/// Outcome of an event.
pub enum EventOutcome {
    /// `register` must use its own endpoint (400).
    RegisterRejected,
    /// Applied (200 `{ok:true}`); `photo` is the outcome to send to the
    /// photo request that was pending, if any.
    /// photo request received the result.
    Accepted { photo: Option<PhotoDelivery> },
}

/// `POST /api/device/{id}/event` for the (authorized) device in `slot`:
/// `photo_done` hands the photo path to the pending photo request, `error`
/// fails it, `telemetry` records the wheel speeds, `ack` changes nothing
/// else; all but `register` mark the device seen at `now_ms`.
pub fn handle_event(registry: &mut DeviceRegistry, slot: usize, event: DeviceEvent, now_ms: u64) -> (r:
    EventOutcome)
    requires
        slot < old(registry).slots_view().len(),
    ensures
        final(registry).ids_view() == old(registry).ids_view(),
        final(registry).slots_view() == old(registry).slots_view().update(
            slot as int,
            event_effect(old(registry).slots_view()[slot as int], event, now_ms),
        ),
        (r is RegisterRejected) == (event is Register),
        r matches EventOutcome::Accepted { photo } ==> event_delivery(
            old(registry).slots_view()[slot as int].photo_pending,
            event,
            photo,
        ),
{
    let entry = registry.entry_mut(slot);
    match event {
        DeviceEvent::Register { .. } => {
            return EventOutcome::RegisterRejected;
        },
        DeviceEvent::PhotoDone { path, uptime_ms: _ } => {
            let photo = entry.complete_photo(PhotoResult { path, ok: true });
            entry.touch(None, now_ms);
            EventOutcome::Accepted { photo }
        },
        DeviceEvent::Ack { ref_seq: _ } => {
            entry.touch(None, now_ms);
            EventOutcome::Accepted { photo: None }
        },
        DeviceEvent::Telemetry { left_rpm, right_rpm } => {
            entry.set_telemetry(left_rpm, right_rpm);
            entry.touch(None, now_ms);
            EventOutcome::Accepted { photo: None }
        },
        DeviceEvent::Error { code: _, message: _ } => {
            let photo = entry.complete_photo(PhotoResult { path: String::new(), ok: false });
            entry.touch(None, now_ms);
            EventOutcome::Accepted { photo }
        },
    }
}

} // verus!
