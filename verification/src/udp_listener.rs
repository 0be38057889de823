//! Datagram channel: sealed video sub-packets and JSON events arriving over
//! UDP, and sealed commands sent back to a device's source address.
//!
//! The socket loops live with the I/O; this module decides what a datagram
//! is, what it changes, and what goes out.
use vstd::prelude::*;
use std::collections::HashMap;
use std::sync::Arc;
use crate::crypto::{self, spec_open, AeadKey, CryptoError, P_MAX};
use crate::device::{
    delivery_for, seen_update, DeviceEntry, DeviceRegistry, PeerAddr, PhotoDelivery, PhotoResult,
    RegistryError,
};
use crate::handlers::device_api::{strip_bearer, validate_token as check_token};
use crate::protocol::{
    le_bytes, packet_error, packet_fields, parse_packet, pow256, spec_push, DeviceEvent, FrameReassembler, Packet,
    PartsView,
};
use crate::video_cache::{spec_cache_push, Frame};
use vstd::arithmetic::div_mod::{
    lemma_fundamental_div_mod, lemma_fundamental_div_mod_converse, lemma_mod_pos_bound,
};

verus! {

/// Checks a `register` token against the configured one, allowing a
/// `Bearer ` prefix.
pub fn validate_token(received: &str, expected: &str) -> (ok: bool)
    ensures
        ok == (strip_bearer(received@) == expected@),
{
    check_token(received, expected)
}

/// A nonce: the counter value (8 bytes) then the low 4 bytes of the clock,
/// both little-endian.
pub open spec fn nonce_bytes(counter: u64, clock_ns: u64) -> Seq<u8> {
    le_bytes(counter as nat, 8) + le_bytes(clock_ns as nat, 4)
}

/// The counter after drawing a nonce (wrapping at `u64::MAX`).
pub open spec fn next_counter(c: u64) -> u64 {
    if c == u64::MAX {
        0
    } else {
        (c + 1) as u64
    }
}

/// `std::time::SystemTime::UNIX_EPOCH.elapsed()` in nanoseconds, truncated
/// to 64 bits (0 if the clock is before the epoch).  Nothing is promised of
/// the value: it is the machine's clock.
#[verifier::external_body]
fn clock_nanos() -> u64 {
    match std::time::UNIX_EPOCH.elapsed() {
        Ok(d) => d.as_nanos() as u64,
        Err(_) => 0,
    }
}

fn le8(v: u64) -> (r: [u8; 8])
    ensures
        r@ == le_bytes(v as nat, 8),
{
    let b0 = (v % 256) as u8;
    let v1 = v / 256;
    let b1 = (v1 % 256) as u8;
    let v2 = v1 / 256;
    let b2 = (v2 % 256) as u8;
    let v3 = v2 / 256;
    let b3 = (v3 % 256) as u8;
    let v4 = v3 / 256;
    let b4 = (v4 % 256) as u8;
    let v5 = v4 / 256;
    let b5 = (v5 % 256) as u8;
    let v6 = v5 / 256;
    let b6 = (v6 % 256) as u8;
    let v7 = v6 / 256;
    let b7 = (v7 % 256) as u8;
    let r = [b0, b1, b2, b3, b4, b5, b6, b7];
    proof {
        reveal_with_fuel(le_bytes, 9);
        assert(r@ =~= le_bytes(v as nat, 8));
    }
    r
}

/// The nonce for counter value `counter` and clock reading `clock_ns`: the
/// counter's 8 little-endian bytes, then the clock's 4 low bytes.
pub fn nonce_from(counter: u64, clock_ns: u64) -> (nonce: [u8; 12])
    ensures
        nonce@ == nonce_bytes(counter, clock_ns),
{
    let lo = le8(counter);
    let hi = le8(clock_ns);
    let nonce = [lo[0], lo[1], lo[2], lo[3], lo[4], lo[5], lo[6], lo[7], hi[0], hi[1], hi[2], hi[3]];
    proof {
        reveal_with_fuel(le_bytes, 9);
        assert(le_bytes(clock_ns as nat, 4) =~= hi@.subrange(0, 4));
        assert(nonce@ =~= nonce_bytes(counter, clock_ns));
    }
    nonce
}

/// Draws a nonce for an outgoing command from `counter` (which moves on by
/// one) and the clock, so that no two commands share a nonce under the key.
pub fn generate_nonce(counter: &mut u64) -> (nonce: [u8; 12])
    ensures
        *final(counter) == next_counter(*old(counter)),
        exists|t: u64| nonce@ == #[trigger] nonce_bytes(*old(counter), t),
{
    let c = *counter;
    *counter = if c == u64::MAX {
        0
    } else {
        c + 1
    };
    let t = clock_nanos();
    nonce_from(c, t)
}

proof fn lemma_le_bytes_injective(a: nat, b: nat, n: nat)
    requires
        le_bytes(a, n) == le_bytes(b, n),
    ensures
        a % pow256(n) == b % pow256(n),
    decreases n,
{
    if n > 0 {
        lemma_mod_pos_bound(a as int, 256);
        lemma_mod_pos_bound(b as int, 256);
        let sa = le_bytes(a, n);
        let sb = le_bytes(b, n);
        assert(sa == seq![(a % 256) as u8] + le_bytes(a / 256, (n - 1) as nat));
        assert(sb == seq![(b % 256) as u8] + le_bytes(b / 256, (n - 1) as nat));
        assert(sa[0] == (a % 256) as u8);
        assert(sb[0] == (b % 256) as u8);
        assert(a % 256 == b % 256);
        assert(le_bytes(a / 256, (n - 1) as nat) =~= le_bytes(a, n).drop_first());
        assert(le_bytes(b / 256, (n - 1) as nat) =~= le_bytes(b, n).drop_first());
        lemma_le_bytes_injective(a / 256, b / 256, (n - 1) as nat);
        let p = pow256((n - 1) as nat);
        lemma_pow256_pos((n - 1) as nat);
        assert(pow256(n) == 256 * p);
        lemma_mod_step(a, p);
        lemma_mod_step(b, p);
    } else {
        lemma_mod_pos_bound(a as int, 1);
        lemma_mod_pos_bound(b as int, 1);
    }
}

proof fn lemma_pow256_pos(n: nat)
    ensures
        pow256(n) >= 1,
    decreases n,
{
    if n > 0 {
        lemma_pow256_pos((n - 1) as nat);
    }
}

/// `a mod 256p` is the low byte plus 256 times `(a / 256) mod p`.
proof fn lemma_mod_step(a: nat, p: nat)
    requires
        p >= 1,
    ensures
        a % (256 * p) == a % 256 + 256 * ((a / 256) % p),
{
    let q = a / 256;
    let r = a % 256;
    lemma_fundamental_div_mod(a as int, 256);
    lemma_mod_pos_bound(a as int, 256);
    let q2 = q / p;
    let r2 = q % p;
    lemma_fundamental_div_mod(q as int, p as int);
    lemma_mod_pos_bound(q as int, p as int);
    assert(a == q2 * (256 * p) + (256 * r2 + r)) by (nonlinear_arith)
        requires
            a == 256 * q + r,
            q == p * q2 + r2,
    ;
    assert(256 * r2 + r < 256 * p) by (nonlinear_arith)
        requires
            0 <= r2 < p,
            0 <= r < 256,
    ;
    lemma_fundamental_div_mod_converse(a as int, (256 * p) as int, q2 as int, (256 * r2 + r) as int);
}

proof fn lemma_le_bytes_len(v: nat, n: nat)
    ensures
        le_bytes(v, n).len() == n,
    decreases n,
{
    if n > 0 {
        lemma_le_bytes_len(v / 256, (n - 1) as nat);
    }
}

proof fn lemma_pow256_8()
    ensures
        pow256(8) == 0x1_0000_0000_0000_0000,
{
    reveal_with_fuel(pow256, 9);
}

/// Two nonces drawn one after the other from the same counter differ,
/// whatever the clock read: their counter bytes differ.
pub proof fn lemma_successive_nonces_differ(c: u64, t1: u64, t2: u64)
    ensures
        nonce_bytes(c, t1) != nonce_bytes(next_counter(c), t2),
{
    let d = next_counter(c);
    let a = nonce_bytes(c, t1);
    let b = nonce_bytes(d, t2);
    lemma_le_bytes_len(c as nat, 8);
    lemma_le_bytes_len(d as nat, 8);
    assert(a.subrange(0, 8) =~= le_bytes(c as nat, 8));
    assert(b.subrange(0, 8) =~= le_bytes(d as nat, 8));
    if a == b {
        lemma_le_bytes_injective(c as nat, d as nat, 8);
        lemma_pow256_8();
        lemma_small_mod(c as nat, pow256(8));
        lemma_small_mod(d as nat, pow256(8));
    }
}

proof fn lemma_small_mod(x: nat, m: nat)
    requires
        x < m,
    ensures
        x % m == x,
{
    lemma_fundamental_div_mod_converse(x as int, m as int, 0, x as int);
}

/// What a datagram turned out to be.
pub enum Datagram {
    /// It did not open under the key (dropped).
    Undecryptable,
    /// A video sub-packet.
    Video(Packet),
    /// Neither: the plaintext, to be read as a JSON event.
    Other(Vec<u8>),
}

/// Opens a datagram under `key` and reads it as a video sub-packet when it
/// is one.
pub fn classify_datagram(key: &AeadKey, wire: &[u8]) -> (d: Datagram)
    ensures
        match d {
            Datagram::Undecryptable => spec_open(key.key_bytes(), wire@) is Err,
            Datagram::Video(p) => spec_open(key.key_bytes(), wire@) matches Ok(plain)
                && packet_error(plain) is None && packet_fields(plain, p),
            Datagram::Other(plain) => spec_open(key.key_bytes(), wire@) == Ok::<
                Seq<u8>,
                CryptoError,
            >(plain@) && packet_error(plain@) is Some,
        },
{
    let opened = crypto::open(wire, key);
    let plain = match opened {
        Ok(p) => p,
        Err(_) => {
            assert(spec_open(key.key_bytes(), wire@) is Err);
            return Datagram::Undecryptable;
        },
    };
    assert(spec_open(key.key_bytes(), wire@) == Ok::<Seq<u8>, CryptoError>(plain@));
    match parse_packet(plain.as_slice()) {
        Ok(p) => {
            assert(packet_fields(plain@, p));
            Datagram::Video(p)
        },
        Err(_) => Datagram::Other(plain),
    }
}

/// Frames in progress of the reassembler kept for a device slot (none when
/// the slot has no reassembler yet).
pub open spec fn parts_of(m: Map<usize, FrameReassembler>, slot: usize) -> Map<u32, PartsView> {
    if m.contains_key(slot) {
        m[slot].view()
    } else {
        Map::<u32, PartsView>::empty()
    }
}

/// `new` is `old` after a video sub-packet `pkt` of device `id` from `src`
/// at `now`: the device is registered or refreshed as in `seen_update`
/// (with `r` the outcome); then, for its slot, the part goes to that slot's
/// reassembler and a completed frame (stamped `now` and the packet's
/// uptime) is offered to the device's video cache.
pub open spec fn video_packet_effect(
    old_reg: DeviceRegistry,
    new_reg: DeviceRegistry,
    old_parts: Map<usize, FrameReassembler>,
    new_parts: Map<usize, FrameReassembler>,
    pkt: Packet,
    src: PeerAddr,
    now: u64,
    r: Result<usize, RegistryError>,
    sent: Option<Arc<Frame>>,
) -> bool {
    exists|mid: DeviceRegistry|
        #![trigger mid.ids_view()]
        {
            &&& seen_update(old_reg, mid, pkt.device_id@, Some(src), now, r)
            &&& new_reg.ids_view() == mid.ids_view()
            &&& match r {
                Ok(i) => {
                    let (m, out) = spec_push(
                        parts_of(old_parts, i),
                        pkt.frame_seq,
                        pkt.part_idx,
                        pkt.part_total,
                        pkt.payload@,
                    );
                    let v0 = mid.slots_view()[i as int].video;
                    let v1 = new_reg.slots_view()[i as int].video;
                    &&& new_parts.dom() == old_parts.dom().insert(i)
                    &&& new_parts[i].view() == m
                    &&& forall|k: usize|
                        k != i && #[trigger] old_parts.contains_key(k) ==> new_parts[k] == old_parts[k]
                    &&& new_reg.slots_view() == mid.slots_view().update(
                        i as int,
                        DeviceEntry { video: v1, ..mid.slots_view()[i as int] },
                    )
                    &&& v1.max_recent_spec() == v0.max_recent_spec()
                    &&& v1.max_bytes_spec() == v0.max_bytes_spec()
                    &&& v1.max_frame_bytes_spec() == v0.max_frame_bytes_spec()
                    &&& v1.channel() == v0.channel()
                    &&& match out {
                        None => v1 == v0 && sent is None,
                        Some(jpeg) => exists|f: Frame|
                            f.jpeg@ == jpeg && f.server_recv_ms == now && f.device_uptime_ms
                                == Some(pkt.uptime_ms) && v1.recent_view() == #[trigger] spec_cache_push(
                                v0.recent_view(),
                                f,
                                v0.max_recent_spec(),
                                v0.max_bytes_spec(),
                                v0.max_frame_bytes_spec(),
                            ) && sent == (if jpeg.len() > v0.max_frame_bytes_spec() {
                                None
                            } else {
                                Some(Arc::new(f))
                            }),
                    }
                },
                Err(_) => new_parts == old_parts && new_reg.slots_view() == mid.slots_view() && sent is None,
            }
        }
}

/// Handles a video sub-packet from `src` at `now_ms`: registers or refreshes
/// its device, feeds the part to the device's reassembler and caches the
/// frame it completes.  Returns the device's slot (or the refusal of a full
/// registry) and the cached frame to broadcast to the device's viewers.
pub fn handle_video_packet(
    pkt: &Packet,
    src: PeerAddr,
    registry: &mut DeviceRegistry,
    reassemblers: &mut HashMap<usize, FrameReassembler>,
    now_ms: u64,
) -> (r: (Result<usize, RegistryError>, Option<Arc<Frame>>))
    ensures
        video_packet_effect(
            *old(registry),
            *final(registry),
            old(reassemblers)@,
            final(reassemblers)@,
            *pkt,
            src,
            now_ms,
            r.0,
            r.1,
        ),
{
    broadcast use vstd::std_specs::hash::group_hash_axioms;

    let r = registry.register_seen(&pkt.device_id, Some(src), now_ms);
    let ghost mid = *registry;
    let ghost parts0 = reassemblers@;
    assert(seen_update(*old(registry), mid, pkt.device_id@, Some(src), now_ms, r));
    let i = match r {
        Ok(i) => i,
        Err(e) => {
            assert(registry.slots_view() == mid.slots_view());
            return (Err(e), None);
        },
    };
    let mut reassembler = match reassemblers.remove(&i) {
        Some(x) => x,
        None => FrameReassembler::default(),
    };
    assert(reassembler.view() == parts_of(parts0, i));
    let full = reassembler.push(pkt);
    reassemblers.insert(i, reassembler);
    proof {
        assert(reassemblers@.dom() =~= parts0.dom().insert(i));
    }
    let sent = match full {
        Some(jpeg) => {
            let frame = Frame { server_recv_ms: now_ms, device_uptime_ms: Some(pkt.uptime_ms), jpeg };
            let ghost f = frame;
            let sent = registry.entry_mut(i).video.push(frame);
            assert(registry.slots_view()[i as int].video.recent_view() == spec_cache_push(
                mid.slots_view()[i as int].video.recent_view(),
                f,
                mid.slots_view()[i as int].video.max_recent_spec(),
                mid.slots_view()[i as int].video.max_bytes_spec(),
                mid.slots_view()[i as int].video.max_frame_bytes_spec(),
            ));
            assert(registry.slots_view() =~= mid.slots_view().update(
                i as int,
                DeviceEntry { video: registry.slots_view()[i as int].video, ..mid.slots_view()[i as int] },
            ));
            sent
        },
        None => {
            assert(registry.slots_view() =~= mid.slots_view().update(
                i as int,
                DeviceEntry { video: registry.slots_view()[i as int].video, ..mid.slots_view()[i as int] },
            ));
            None
        },
    };
    (Ok(i), sent)
}

/// Slot of the first device whose datagrams come from `addr`.
pub fn find_device_by_addr(registry: &DeviceRegistry, addr: PeerAddr) -> (r: Option<usize>)
    ensures
        match r {
            Some(i) => i < registry.slots_view().len() && registry.slots_view()[i as int].addr
                == Some(addr) && forall|j: int|
                0 <= j < i ==> registry.slots_view()[j].addr != Some(addr),
            None => forall|j: int|
                0 <= j < registry.slots_view().len() ==> registry.slots_view()[j].addr != Some(
                    addr,
                ),
        },
{
    registry.find_by_addr(addr)
}

/// What a JSON event over the datagram channel did.
pub enum UdpEventOutcome {
    /// `register` with a matching token: the registry's answer.
    Registered(Result<usize, RegistryError>),
    /// `register` with a wrong token: ignored.
    BadToken,
    /// `photo_done` from the device in this slot, with the outcome to send
    /// to the photo request that was pending, if any.
    PhotoDone { slot: usize, delivery: Option<PhotoDelivery> },
    /// `photo_done` from an address no device uses: ignored.
    UnknownSource,
    /// `ack`, `telemetry` or `error`: only logged.
    Logged,
}

/// Handles a JSON event from `src` at `now_ms`: `register` (token checked)
/// registers or refreshes the device with `src` as its address;
/// `photo_done` settles the photo request of the device using `src`.
pub fn handle_event(
    event: DeviceEvent,
    src: PeerAddr,
    registry: &mut DeviceRegistry,
    expected_token: &str,
    now_ms: u64,
) -> (r: UdpEventOutcome)
    ensures
        match event {
            DeviceEvent::Register { device_id, token } => if strip_bearer(token@)
                == expected_token@ {
                r matches UdpEventOutcome::Registered(res) && seen_update(
                    *old(registry),
                    *final(registry),
                    device_id@,
                    Some(src),
                    now_ms,
                    res,
                )
            } else {
                r is BadToken && *final(registry) == *old(registry)
            },
            DeviceEvent::PhotoDone { path, .. } => match r {
                UdpEventOutcome::PhotoDone { slot, delivery } => {
                    &&& slot < old(registry).slots_view().len()
                    &&& old(registry).slots_view()[slot as int].addr == Some(src)
                    &&& forall|j: int|
                        0 <= j < slot ==> old(registry).slots_view()[j].addr != Some(src)
                    &&& delivery == delivery_for(
                        old(registry).slots_view()[slot as int].photo_pending,
                        PhotoResult { path, ok: true },
                    )
                    &&& final(registry).ids_view() == old(registry).ids_view()
                    &&& final(registry).slots_view() == old(registry).slots_view().update(
                        slot as int,
                        DeviceEntry {
                            photo_pending: None,
                            ..old(registry).slots_view()[slot as int]
                        },
                    )
                },
                UdpEventOutcome::UnknownSource => {
                    &&& forall|j: int|
                        0 <= j < old(registry).slots_view().len() ==> old(
                            registry,
                        ).slots_view()[j].addr != Some(src)
                    &&& *final(registry) == *old(registry)
                },
                _ => false,
            },
            _ => r is Logged && *final(registry) == *old(registry),
        },
{
    match event {
        DeviceEvent::Register { device_id, token } => {
            if !validate_token(&token, expected_token) {
                return UdpEventOutcome::BadToken;
            }
            UdpEventOutcome::Registered(registry.register_seen(&device_id, Some(src), now_ms))
        },
        DeviceEvent::PhotoDone { path, uptime_ms: _ } => {
            match find_device_by_addr(registry, src) {
                Some(slot) => {
                    let delivery = registry.entry_mut(slot).complete_photo(
                        PhotoResult { path, ok: true },
                    );
                    UdpEventOutcome::PhotoDone { slot, delivery }
                },
                None => UdpEventOutcome::UnknownSource,
            }
        },
        _ => UdpEventOutcome::Logged,
    }
}

/// A sealed command ready to go out.
pub struct OutboundDatagram {
    pub addr: PeerAddr,
    pub wire: Vec<u8>,
}

/// Seals the command `json` for device `device_id` with a fresh nonce from
/// `counter`; `None` when the device is unknown or has no address yet.
pub fn outbound_datagram(
    registry: &DeviceRegistry,
    key: &AeadKey,
    counter: &mut u64,
    device_id: &str,
    json: &[u8],
) -> (r: Option<OutboundDatagram>)
    requires
        json@.len() <= P_MAX,
    ensures
        match r {
            None => {
                &&& *final(counter) == *old(counter)
                &&& forall|i: int|
                    0 <= i < registry.slots_view().len() && registry.ids_view()[i] == device_id@
                        ==> registry.slots_view()[i].addr is None
            },
            Some(d) => {
                &&& *final(counter) == next_counter(*old(counter))
                &&& exists|i: int|
                    0 <= i < registry.slots_view().len() && registry.ids_view()[i] == device_id@
                        && registry.slots_view()[i].addr == Some(d.addr)
                &&& exists|t: u64|
                    d.wire@ == crypto::sealed_wire(
                        key.key_bytes(),
                        #[trigger] nonce_bytes(*old(counter), t),
                        json@,
                    )
            },
        },
{
    let slot = match registry.index_of(device_id) {
        Some(i) => i,
        None => return None,
    };
    let addr = match registry.entry(slot).get_addr() {
        Some(a) => a,
        None => {
            return None;
        },
    };
    let nonce = generate_nonce(counter);
    let wire = key.seal(&nonce, json);
    assert(registry.ids_view()[slot as int] == device_id@);
    Some(OutboundDatagram { addr, wire })
}

} // verus!
