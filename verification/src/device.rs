//! Device registry: per-device state (liveness, telemetry, pending photo,
//! command queue, video cache) and the bounded table of known devices.
use vstd::prelude::*;
use std::collections::VecDeque;
use tokio::sync::oneshot;
use dashmap::DashMap;
use crate::video_cache::VideoCache;

verus! {

#[verifier::external_type_specification]
#[verifier::external_body]
#[verifier::reject_recursive_types(T)]
pub struct ExOneshotSender<T>(oneshot::Sender<T>);

#[verifier::external_type_specification]
#[verifier::external_body]
#[verifier::reject_recursive_types(K)]
#[verifier::reject_recursive_types(V)]
#[verifier::reject_recursive_types(S)]
pub struct ExDashMap<K, V, S>(DashMap<K, V, S>);

/// Outcome of a photo request.
/// `ok == true`: the photo was taken and `path` is its location on the SD card;
/// `ok == false`: the device reported a failure, `path` is empty.
#[derive(Debug, Clone)]
pub struct PhotoResult {
    pub path: String,
    pub ok: bool,
}

/// Capacity of each device's command queue.
pub const COMMAND_QUEUE_CAPACITY: usize = 16;

/// A device not heard from for longer than this (ms) is offline.
pub const OFFLINE_TIMEOUT_MS: u64 = 30_000;

/// Commands queued for a device; when full, the oldest is dropped so the
/// newest always gets in.
pub struct CommandQueue {
    cap: usize,
    buf: VecDeque<Vec<u8>>,
}

/// One step of waiting for a command.
pub enum RecvStep {
    /// A command was waiting.
    Command(Vec<u8>),
    /// Nothing queued and the deadline has passed.
    TimedOut,
    /// Nothing queued yet; wait for a push or the deadline.
    Wait,
}

/// Queue contents after pushing `item` onto `q` with capacity `cap`.
pub open spec fn spec_queue_push(q: Seq<Seq<u8>>, cap: nat, item: Seq<u8>) -> Seq<Seq<u8>> {
    if q.len() >= cap && q.len() > 0 {
        q.drop_first().push(item)
    } else {
        q.push(item)
    }
}

/// Queue contents after pushing each of `xs`, in turn, onto `q`.
pub open spec fn push_all(q: Seq<Seq<u8>>, cap: nat, xs: Seq<Seq<u8>>) -> Seq<Seq<u8>>
    decreases xs.len(),
{
    if xs.len() == 0 {
        q
    } else {
        spec_queue_push(push_all(q, cap, xs.drop_last()), cap, xs.last())
    }
}

/// Commands pushed onto an empty queue come out in the order they went in,
/// and once more than `cap` were pushed only the newest `cap` remain: the
/// queue holds the last `min(cap, |xs|)` of them, oldest first.
pub proof fn lemma_queue_keeps_newest_in_order(cap: nat, xs: Seq<Seq<u8>>)
    requires
        cap >= 1,
    ensures
        push_all(Seq::<Seq<u8>>::empty(), cap, xs) == xs.subrange(
            if xs.len() > cap {
                xs.len() - cap
            } else {
                0
            },
            xs.len() as int,
        ),
    decreases xs.len(),
{
    let n = xs.len() as int;
    if n == 0 {
        assert(xs.subrange(0, 0) =~= Seq::<Seq<u8>>::empty());
    } else {
        let ys = xs.drop_last();
        lemma_queue_keeps_newest_in_order(cap, ys);
        let k0 = if n - 1 > cap {
            n - 1 - cap
        } else {
            0
        };
        let p = ys.subrange(k0, n - 1);
        assert(push_all(Seq::<Seq<u8>>::empty(), cap, ys) == p);
        if p.len() >= cap && p.len() > 0 {
            assert(p.drop_first().push(xs.last()) =~= xs.subrange(n - cap, n));
        } else {
            assert(p.push(xs.last()) =~= xs.subrange(0, n));
        }
    }
}

impl CommandQueue {
    /// Queued commands, oldest first.
    pub closed spec fn items(&self) -> Seq<Seq<u8>> {
        self.buf@.map_values(|v: Vec<u8>| v@)
    }

    pub closed spec fn capacity(&self) -> nat {
        self.cap as nat
    }

    /// Never more than `cap` commands (one, if `cap` is zero).
    #[verifier::type_invariant]
    closed spec fn inv(&self) -> bool {
        self.buf@.len() <= self.cap || self.buf@.len() <= 1
    }

    /// An empty queue holding at most `cap` commands.
    pub fn new(cap: usize) -> (q: Self)
        ensures
            q.items() == Seq::<Seq<u8>>::empty(),
            q.capacity() == cap,
    {
        let q = CommandQueue { cap, buf: VecDeque::new() };
        assert(q.items() =~= Seq::<Seq<u8>>::empty());
        q
    }

    /// Queues a command; when the queue is full the oldest command is dropped
    /// first.  Returns whether that happened.
    pub fn push(&mut self, json: Vec<u8>) -> (dropped: bool)
        ensures
            dropped == (old(self).items().len() >= old(self).capacity()),
            final(self).items() == spec_queue_push(old(self).items(), old(self).capacity(), json@),
            final(self).capacity() == old(self).capacity(),
            final(self).items().len() <= final(self).capacity() || final(self).items().len() <= 1,
    {
        proof {
            use_type_invariant(&*self);
        }
        let ghost before = self.items();
        let mut buf: VecDeque<Vec<u8>> = VecDeque::new();
        std::mem::swap(&mut buf, &mut self.buf);
        let dropped = if buf.len() >= self.cap {
            let _ = buf.pop_front();
            true
        } else {
            false
        };
        buf.push_back(json);
        self.buf = buf;
        assert(self.items() =~= spec_queue_push(before, self.cap as nat, json@));
        dropped
    }

    /// Takes the oldest command, if any.
    pub fn try_recv(&mut self) -> (r: Option<Vec<u8>>)
        ensures
            final(self).capacity() == old(self).capacity(),
            match r {
                Some(v) => old(self).items().len() > 0 && v@ == old(self).items()[0]
                    && final(self).items() == old(self).items().drop_first(),
                None => old(self).items().len() == 0 && final(self).items() == old(self).items(),
            },
    {
        proof {
            use_type_invariant(&*self);
        }
        let ghost before = self.items();
        let mut buf: VecDeque<Vec<u8>> = VecDeque::new();
        std::mem::swap(&mut buf, &mut self.buf);
        let r = buf.pop_front();
        self.buf = buf;
        assert(self.items() =~= (if before.len() > 0 { before.drop_first() } else { before }));
        r
    }

    /// One step of waiting for a command until a deadline: take the oldest
    /// command if there is one, else report a timeout once no time remains,
    /// else ask the caller to wait.
    pub fn recv_step(&mut self, remaining_ms: u64) -> (step: RecvStep)
        ensures
            final(self).capacity() == old(self).capacity(),
            match step {
                RecvStep::Command(v) => old(self).items().len() > 0 && v@ == old(self).items()[0]
                    && final(self).items() == old(self).items().drop_first(),
                RecvStep::TimedOut => old(self).items().len() == 0 && remaining_ms == 0
                    && final(self).items() == old(self).items(),
                RecvStep::Wait => old(self).items().len() == 0 && remaining_ms > 0
                    && final(self).items() == old(self).items(),
            },
    {
        match self.try_recv() {
            Some(v) => RecvStep::Command(v),
            None => if remaining_ms == 0 {
                RecvStep::TimedOut
            } else {
                RecvStep::Wait
            },
        }
    }

    /// Number of queued commands.
    pub fn len(&self) -> (n: usize)
        ensures
            n == self.items().len(),
    {
        self.buf.len()
    }
}

/// A photo outcome to send on the channel of the request waiting for it.
pub struct PhotoDelivery {
    pub waiter: oneshot::Sender<PhotoResult>,
    pub result: PhotoResult,
}

/// The delivery `complete_photo` hands back for a pending waiter `pending`.
pub open spec fn delivery_for(
    pending: Option<oneshot::Sender<PhotoResult>>,
    result: PhotoResult,
) -> Option<PhotoDelivery> {
    match pending {
        Some(tx) => Some(PhotoDelivery { waiter: tx, result }),
        None => None,
    }
}

/// Where a device's datagrams come from (IP address and port).
#[derive(Debug, Clone, Copy, PartialEq, Eq, Structural)]
pub struct PeerAddr {
    /// IPv6 rather than IPv4.
    pub is_v6: bool,
    /// Address bits (an IPv4 address in the low 32 bits).
    pub ip: u128,
    pub port: u16,
    pub flowinfo: u32,
    pub scope_id: u32,
}

/// Runtime state of one device.
pub struct DeviceEntry {
    pub device_id: String,
    /// Heard from recently.
    pub online: bool,
    /// Server time (ms) of the last heartbeat, frame or event.
    pub last_seen_ms: u64,
    /// Source address of the device's datagrams, if known.
    pub addr: Option<PeerAddr>,
    /// Recent video frames.
    pub video: VideoCache,
    /// PWM cache switch.
    pub pwm_cache_enabled: bool,
    /// Left wheel speed (RPM).
    pub left_rpm: i32,
    /// Right wheel speed (RPM).
    pub right_rpm: i32,
    /// Waiter of the photo request in progress (one at a time).
    pub photo_pending: Option<oneshot::Sender<PhotoResult>>,
    /// Commands waiting to be polled.
    pub cmd_queue: CommandQueue,
}

/// `e` after a sign of life at `ts` (from `addr`, when given).
pub open spec fn touched(e: DeviceEntry, addr: Option<PeerAddr>, ts: u64) -> DeviceEntry {
    DeviceEntry {
        online: true,
        last_seen_ms: ts,
        addr: match addr {
            Some(a) => Some(a),
            None => e.addr,
        },
        ..e
    }
}

/// Whether a device last seen at `last_seen` counts as stale at `now`.
pub open spec fn is_stale(now: u64, last_seen: u64) -> bool {
    (if now >= last_seen {
        now - last_seen
    } else {
        0
    }) > OFFLINE_TIMEOUT_MS
}

impl DeviceEntry {
    /// A device just heard from at `now_ms`: online, PWM cache on, no
    /// telemetry, no pending photo, empty command queue and video cache.
    pub fn new(
        device_id: String,
        video_cache_capacity: usize,
        video_max_recent: usize,
        video_max_bytes: usize,
        video_max_frame_bytes: usize,
        now_ms: u64,
    ) -> (e: Self)
        requires
            0 < video_cache_capacity <= usize::MAX / 2,
            video_max_bytes + 2 * video_max_frame_bytes <= usize::MAX,
        ensures
            e.device_id@ == device_id@,
            e.online,
            e.last_seen_ms == now_ms,
            e.addr is None,
            e.pwm_cache_enabled,
            e.left_rpm == 0 && e.right_rpm == 0,
            e.photo_pending is None,
            e.cmd_queue.items() == Seq::<Seq<u8>>::empty(),
            e.cmd_queue.capacity() == COMMAND_QUEUE_CAPACITY,
            e.video.recent_view().len() == 0,
            e.video.max_recent_spec() == video_max_recent,
            e.video.max_bytes_spec() == video_max_bytes,
            e.video.max_frame_bytes_spec() == video_max_frame_bytes,
    {
        DeviceEntry {
            device_id,
            online: true,
            last_seen_ms: now_ms,
            addr: None,
            video: VideoCache::new(
                video_cache_capacity,
                video_max_recent,
                video_max_bytes,
                video_max_frame_bytes,
            ),
            pwm_cache_enabled: true,
            left_rpm: 0,
            right_rpm: 0,
            photo_pending: None,
            cmd_queue: CommandQueue::new(COMMAND_QUEUE_CAPACITY),
        }
    }

    pub fn is_online(&self) -> (r: bool)
        ensures
            r == self.online,
    {
        self.online
    }

    pub fn last_seen(&self) -> (r: u64)
        ensures
            r == self.last_seen_ms,
    {
        self.last_seen_ms
    }

    /// Marks the device offline when more than `OFFLINE_TIMEOUT_MS` passed
    /// since it was last seen; returns whether it did.
    pub fn mark_offline_if_stale(&mut self, now_ms: u64) -> (stale: bool)
        ensures
            stale == is_stale(now_ms, old(self).last_seen_ms),
            *final(self) == (DeviceEntry { online: if stale { false } else { old(self).online }, ..*old(self) }),
    {
        if now_ms.saturating_sub(self.last_seen_ms) > OFFLINE_TIMEOUT_MS {
            self.online = false;
            true
        } else {
            false
        }
    }

    pub fn set_addr(&mut self, addr: PeerAddr)
        ensures
            *final(self) == (DeviceEntry { addr: Some(addr), ..*old(self) }),
    {
        self.addr = Some(addr);
    }

    pub fn get_addr(&self) -> (r: Option<PeerAddr>)
        ensures
            r == self.addr,
    {
        self.addr
    }

    /// Records a sign of life at `ts` (and the source address, when given).
    pub fn touch(&mut self, addr: Option<PeerAddr>, ts: u64)
        ensures
            *final(self) == touched(*old(self), addr, ts),
    {
        self.online = true;
        self.last_seen_ms = ts;
        match addr {
            Some(a) => self.set_addr(a),
            None => {},
        }
    }

    pub fn pwm_cache_enabled(&self) -> (r: bool)
        ensures
            r == self.pwm_cache_enabled,
    {
        self.pwm_cache_enabled
    }

    pub fn set_pwm_cache(&mut self, enabled: bool)
        ensures
            *final(self) == (DeviceEntry { pwm_cache_enabled: enabled, ..*old(self) }),
    {
        self.pwm_cache_enabled = enabled;
    }

    /// Records the wheel speeds.
    pub fn set_telemetry(&mut self, left_rpm: i32, right_rpm: i32)
        ensures
            *final(self) == (DeviceEntry { left_rpm, right_rpm, ..*old(self) }),
    {
        self.left_rpm = left_rpm;
        self.right_rpm = right_rpm;
    }

    /// The wheel speeds `(left, right)`.
    pub fn telemetry(&self) -> (r: (i32, i32))
        ensures
            r == (self.left_rpm, self.right_rpm),
    {
        (self.left_rpm, self.right_rpm)
    }

    /// Registers the waiter of a photo request; refused (false) while another
    /// request is pending.
    pub fn await_photo(&mut self, tx: oneshot::Sender<PhotoResult>) -> (accepted: bool)
        ensures
            accepted == (old(self).photo_pending is None),
            *final(self) == (DeviceEntry {
                photo_pending: if accepted {
                    Some(tx)
                } else {
                    old(self).photo_pending
                },
                ..*old(self)
            }),
    {
        if self.photo_pending.is_some() {
            return false;
        }
        self.photo_pending = Some(tx);
        true
    }

    /// Settles the pending photo request, if any: returns its waiter with
    /// `result`, for the caller to send; `None` when no request was pending.
    /// No request is pending afterwards.
    pub fn complete_photo(&mut self, result: PhotoResult) -> (d: Option<PhotoDelivery>)
        ensures
            d == delivery_for(old(self).photo_pending, result),
            *final(self) == (DeviceEntry { photo_pending: None, ..*old(self) }),
    {
        let pending = self.photo_pending.take();
        match pending {
            Some(tx) => Some(PhotoDelivery { waiter: tx, result }),
            None => None,
        }
    }

    /// Queues a command for the device (dropping the oldest when the queue is
    /// full); returns whether one was dropped.
    pub fn push_command(&mut self, json: Vec<u8>) -> (dropped: bool)
        ensures
            dropped == (old(self).cmd_queue.items().len() >= old(self).cmd_queue.capacity()),
            final(self).cmd_queue.items() == spec_queue_push(
                old(self).cmd_queue.items(),
                old(self).cmd_queue.capacity(),
                json@,
            ),
            final(self).cmd_queue.capacity() == old(self).cmd_queue.capacity(),
            *final(self) == (DeviceEntry { cmd_queue: final(self).cmd_queue, ..*old(self) }),
    {
        self.cmd_queue.push(json)
    }
}

/// Row of the device list.
#[derive(Debug, Clone)]
pub struct DeviceSummary {
    pub device_id: String,
    pub online: bool,
    pub last_seen_ms: u64,
    pub left_rpm: i32,
    pub right_rpm: i32,
}

/// Why the registry refused a device.
#[derive(Debug, Clone, PartialEq, Eq)]
pub enum RegistryError {
    MaxDevicesExceeded { max: u32 },
}


/// Device-id-to-slot table kept in the concurrent map.
pub uninterp spec fn slot_table(m: DashMap<String, usize>) -> Map<Seq<char>, usize>;

/// `DashMap::new`: an empty table.
#[verifier::external_body]
fn slot_table_new() -> (table: DashMap<String, usize>)
    ensures
        slot_table(table).dom() == Set::<Seq<char>>::empty(),
{
    DashMap::new()
}

/// `DashMap::get`, copying out the slot number.
#[verifier::external_body]
fn slot_table_get(m: &DashMap<String, usize>, k: &str) -> (r: Option<usize>)
    ensures
        r == (if slot_table(*m).contains_key(k@) {
            Some(slot_table(*m)[k@])
        } else {
            None
        }),
{
    m.get(k).map(|e| *e.value())
}

/// `DashMap::insert`: maps `k` to `v`.
#[verifier::external_body]
fn slot_table_insert(m: &mut DashMap<String, usize>, k: String, v: usize)
    ensures
        slot_table(*final(m)) == slot_table(*old(m)).insert(k@, v),
{
    m.insert(k, v);
}

/// The entry `DeviceEntry::new` builds for `id` at time `now` with the
/// registry's video settings.
pub open spec fn fresh_entry(
    e: DeviceEntry,
    id: Seq<char>,
    now: u64,
    max_recent: nat,
    max_bytes: nat,
    max_frame_bytes: nat,
) -> bool {
    &&& e.device_id@ == id
    &&& e.online
    &&& e.last_seen_ms == now
    &&& e.addr is None
    &&& e.pwm_cache_enabled
    &&& e.left_rpm == 0 && e.right_rpm == 0
    &&& e.photo_pending is None
    &&& e.cmd_queue.items() == Seq::<Seq<u8>>::empty()
    &&& e.cmd_queue.capacity() == COMMAND_QUEUE_CAPACITY
    &&& e.video.recent_view().len() == 0
    &&& e.video.max_recent_spec() == max_recent
    &&& e.video.max_bytes_spec() == max_bytes
    &&& e.video.max_frame_bytes_spec() == max_frame_bytes
}

/// No id occurs twice.
pub open spec fn ids_distinct(ids: Seq<Seq<char>>) -> bool {
    forall|i: int, j: int| 0 <= i < j < ids.len() ==> ids[i] != ids[j]
}

/// The row `list` reports for the device registered as `id` with state `e`.
pub open spec fn summarizes(s: DeviceSummary, id: Seq<char>, e: DeviceEntry) -> bool {
    &&& s.device_id@ == id
    &&& s.online == e.online
    &&& s.last_seen_ms == e.last_seen_ms
    &&& s.left_rpm == e.left_rpm
    &&& s.right_rpm == e.right_rpm
}

/// `new` is `old` after a sign of life from device `id` at `now` (from
/// `addr`, when given) that registers the device when unknown; `r` is the
/// device's slot, or the refusal when the registry is full.
pub open spec fn seen_update(
    old: DeviceRegistry,
    new: DeviceRegistry,
    id: Seq<char>,
    addr: Option<PeerAddr>,
    now: u64,
    r: Result<usize, RegistryError>,
) -> bool {
    &&& new.max_devices_spec() == old.max_devices_spec()
    &&& new.video_max_recent_spec() == old.video_max_recent_spec()
    &&& new.video_max_bytes_spec() == old.video_max_bytes_spec()
    &&& new.video_max_frame_bytes_spec() == old.video_max_frame_bytes_spec()
    &&& ids_distinct(new.ids_view())
    &&& new.ids_view().len() == new.slots_view().len()
    &&& new.ids_view().len() <= new.max_devices_spec()
    &&& old.ids_view().contains(id) ==> {
        &&& r matches Ok(i) && i < old.ids_view().len() && old.ids_view()[i as int] == id
            && new.slots_view() == old.slots_view().update(
            i as int,
            touched(old.slots_view()[i as int], addr, now),
        )
        &&& new.ids_view() == old.ids_view()
    }
    &&& !old.ids_view().contains(id) && old.ids_view().len() >= old.max_devices_spec() ==> {
        &&& r == Err::<usize, RegistryError>(
            RegistryError::MaxDevicesExceeded { max: old.max_devices_spec() as u32 },
        )
        &&& new.ids_view() == old.ids_view()
        &&& new.slots_view() == old.slots_view()
    }
    &&& !old.ids_view().contains(id) && old.ids_view().len() < old.max_devices_spec() ==> {
        &&& r == Ok::<usize, RegistryError>(old.ids_view().len() as usize)
        &&& new.ids_view() == old.ids_view().push(id)
        &&& new.slots_view().len() == old.slots_view().len() + 1
        &&& new.slots_view().subrange(0, old.slots_view().len() as int) == old.slots_view()
        &&& fresh_entry(
            DeviceEntry { addr: None, ..new.slots_view().last() },
            id,
            now,
            old.video_max_recent_spec(),
            old.video_max_bytes_spec(),
            old.video_max_frame_bytes_spec(),
        )
        &&& new.slots_view().last().addr == addr
    }
}

/// Known devices, at most `max_devices` of them.  Device `i` (in order of
/// registration) has id `ids[i]` and state `slots[i]`; the concurrent map
/// finds a device's slot by its id.
pub struct DeviceRegistry {
    inner: DashMap<String, usize>,
    ids: Vec<String>,
    slots: Vec<DeviceEntry>,
    max_devices: u32,
    device_count: usize,
    video_capacity: usize,
    video_max_recent: usize,
    video_max_bytes: usize,
    video_max_frame_bytes: usize,
}

impl DeviceRegistry {
    /// Ids of the known devices, in order of registration.
    pub closed spec fn ids_view(&self) -> Seq<Seq<char>> {
        self.ids@.map_values(|s: String| s@)
    }

    /// State of the known devices, in the same order.
    pub closed spec fn slots_view(&self) -> Seq<DeviceEntry> {
        self.slots@
    }

    pub closed spec fn max_devices_spec(&self) -> nat {
        self.max_devices as nat
    }

    pub closed spec fn video_max_recent_spec(&self) -> nat {
        self.video_max_recent as nat
    }

    pub closed spec fn video_max_bytes_spec(&self) -> nat {
        self.video_max_bytes as nat
    }

    pub closed spec fn video_max_frame_bytes_spec(&self) -> nat {
        self.video_max_frame_bytes as nat
    }

    /// The table maps each known id to its slot and nothing else; there are
    /// as many slots as ids, never more than `max_devices`.
    #[verifier::type_invariant]
    closed spec fn inv(&self) -> bool {
        &&& self.ids@.len() == self.slots@.len()
        &&& self.device_count == self.ids@.len()
        &&& self.device_count <= self.max_devices
        &&& forall|i: int|
            0 <= i < self.ids@.len() ==> slot_table(self.inner).contains_key(
                (#[trigger] self.ids@[i])@,
            ) && slot_table(self.inner)[self.ids@[i]@] == i
        &&& forall|k: Seq<char>|
            #[trigger] slot_table(self.inner).contains_key(k) ==> slot_table(self.inner)[k]
                < self.ids@.len() && self.ids@[slot_table(self.inner)[k] as int]@ == k
        &&& 0 < self.video_capacity <= usize::MAX / 2
        &&& self.video_max_bytes + 2 * self.video_max_frame_bytes <= usize::MAX
    }

    /// An empty registry that accepts up to `max_devices` devices, whose
    /// video caches use the given settings.
    pub fn new(
        max_devices: u32,
        video_capacity: usize,
        video_max_recent: usize,
        video_max_bytes: usize,
        video_max_frame_bytes: usize,
    ) -> (r: Self)
        requires
            0 < video_capacity <= usize::MAX / 2,
            video_max_bytes + 2 * video_max_frame_bytes <= usize::MAX,
        ensures
            r.ids_view() == Seq::<Seq<char>>::empty(),
            ids_distinct(r.ids_view()),
            r.slots_view() == Seq::<DeviceEntry>::empty(),
            r.max_devices_spec() == max_devices,
            r.video_max_recent_spec() == video_max_recent,
            r.video_max_bytes_spec() == video_max_bytes,
            r.video_max_frame_bytes_spec() == video_max_frame_bytes,
    {
        let r = DeviceRegistry {
            inner: slot_table_new(),
            ids: Vec::new(),
            slots: Vec::new(),
            max_devices,
            device_count: 0,
            video_capacity,
            video_max_recent,
            video_max_bytes,
            video_max_frame_bytes,
        };
        assert(r.ids_view() =~= Seq::<Seq<char>>::empty());
        r
    }

    /// The type invariant makes the ids distinct.
    proof fn lemma_distinct(&self)
        requires
            self.inv(),
        ensures
            ids_distinct(self.ids_view()),
    {
        assert forall|i: int, j: int|
            0 <= i < j < self.ids_view().len() implies self.ids_view()[i] != self.ids_view()[j] by {
            assert(self.ids@[i]@ == self.ids_view()[i]);
            assert(self.ids@[j]@ == self.ids_view()[j]);
        }
    }

    /// Slot of device `device_id`, if known.
    pub fn index_of(&self, device_id: &str) -> (r: Option<usize>)
        ensures
            match r {
                Some(i) => i < self.ids_view().len() && i < self.slots_view().len()
                    && self.ids_view()[i as int] == device_id@,
                None => !self.ids_view().contains(device_id@),
            },
            ids_distinct(self.ids_view()),
            self.ids_view().len() == self.slots_view().len(),
    {
        proof {
            use_type_invariant(self);
            self.lemma_distinct();
        }
        let r = slot_table_get(&self.inner, device_id);
        proof {
            if self.ids_view().contains(device_id@) {
                let i = choose|i: int| 0 <= i < self.ids_view().len() && self.ids_view()[i] == device_id@;
                assert(self.ids@[i]@ == device_id@);
            }
        }
        r
    }

    /// The device with this id, creating it (online, seen at `now_ms`) when
    /// unknown.  Fails when the id is unknown and `max_devices` devices are
    /// already registered.  Returns the device's slot.
    pub fn get_or_create(&mut self, device_id: &str, now_ms: u64) -> (r: Result<usize, RegistryError>)
        ensures
            final(self).max_devices_spec() == old(self).max_devices_spec(),
            final(self).video_max_recent_spec() == old(self).video_max_recent_spec(),
            final(self).video_max_bytes_spec() == old(self).video_max_bytes_spec(),
            final(self).video_max_frame_bytes_spec() == old(self).video_max_frame_bytes_spec(),
            ids_distinct(final(self).ids_view()),
            final(self).ids_view().len() <= final(self).max_devices_spec(),
            old(self).ids_view().contains(device_id@) ==> {
                &&& r matches Ok(i) && i < old(self).ids_view().len() && old(self).ids_view()[i as int]
                    == device_id@
                &&& final(self).ids_view() == old(self).ids_view()
                &&& final(self).slots_view() == old(self).slots_view()
            },
            !old(self).ids_view().contains(device_id@) && old(self).ids_view().len()
                >= old(self).max_devices_spec() ==> {
                &&& r == Err::<usize, RegistryError>(
                    RegistryError::MaxDevicesExceeded { max: old(self).max_devices_spec() as u32 },
                )
                &&& final(self).ids_view() == old(self).ids_view()
                &&& final(self).slots_view() == old(self).slots_view()
            },
            !old(self).ids_view().contains(device_id@) && old(self).ids_view().len()
                < old(self).max_devices_spec() ==> {
                &&& r == Ok::<usize, RegistryError>(old(self).ids_view().len() as usize)
                &&& final(self).ids_view() == old(self).ids_view().push(device_id@)
                &&& final(self).slots_view().len() == old(self).slots_view().len() + 1
                &&& final(self).slots_view().subrange(0, old(self).slots_view().len() as int)
                    == old(self).slots_view()
                &&& fresh_entry(
                    final(self).slots_view().last(),
                    device_id@,
                    now_ms,
                    old(self).video_max_recent_spec(),
                    old(self).video_max_bytes_spec(),
                    old(self).video_max_frame_bytes_spec(),
                )
            },
    {
        proof {
            use_type_invariant(&*self);
        }
        proof {
            self.lemma_distinct();
        }
        match self.index_of(device_id) {
            Some(i) => {
                return Ok(i);
            },
            None => {},
        }
        if self.device_count >= self.max_devices as usize {
            return Err(RegistryError::MaxDevicesExceeded { max: self.max_devices });
        }
        let n = self.device_count;
        let entry = DeviceEntry::new(
            device_id.to_owned(),
            self.video_capacity,
            self.video_max_recent,
            self.video_max_bytes,
            self.video_max_frame_bytes,
            now_ms,
        );
        let ghost old_ids = self.ids@;
        let ghost old_table = slot_table(self.inner);
        let ghost old_slots = self.slots@;
        let mut tmp = DeviceRegistry {
            inner: slot_table_new(),
            ids: Vec::new(),
            slots: Vec::new(),
            max_devices: self.max_devices,
            device_count: 0,
            video_capacity: self.video_capacity,
            video_max_recent: self.video_max_recent,
            video_max_bytes: self.video_max_bytes,
            video_max_frame_bytes: self.video_max_frame_bytes,
        };
        std::mem::swap(self, &mut tmp);
        let DeviceRegistry {
            mut inner,
            mut ids,
            mut slots,
            max_devices,
            device_count: _,
            video_capacity,
            video_max_recent,
            video_max_bytes,
            video_max_frame_bytes,
        } = tmp;
        slot_table_insert(&mut inner, device_id.to_owned(), n);
        ids.push(device_id.to_owned());
        slots.push(entry);
        proof {
            assert forall|k: Seq<char>| #[trigger] slot_table(inner).contains_key(k) implies slot_table(inner)[k]
                < ids@.len() && ids@[slot_table(inner)[k] as int]@ == k by {
                if k != device_id@ {
                    assert(old_table.contains_key(k));
                }
            }
            assert forall|i: int| 0 <= i < ids@.len() implies slot_table(inner).contains_key(
                (#[trigger] ids@[i])@,
            ) && slot_table(inner)[ids@[i]@] == i by {
                if i < n {
                    assert(ids@[i] == old_ids[i]);
                    assert(old_ids[i]@ != device_id@) by {
                        assert(old_ids.map_values(|s: String| s@)[i] == old_ids[i]@);
                    }
                }
            }
        }
        *self = DeviceRegistry {
            inner,
            ids,
            slots,
            max_devices,
            device_count: n + 1,
            video_capacity,
            video_max_recent,
            video_max_bytes,
            video_max_frame_bytes,
        };
        assert(self.ids_view() =~= old(self).ids_view().push(device_id@));
        assert(self.slots@.subrange(0, n as int) =~= old_slots);
        proof {
            self.lemma_distinct();
        }
        Ok(n)
    }

    /// Records a sign of life from device `device_id` at `now_ms` (from
    /// `addr`, when given), registering the device when it is unknown.
    /// Returns the device's slot, or the refusal of a full registry.
    pub fn register_seen(&mut self, device_id: &str, addr: Option<PeerAddr>, now_ms: u64) -> (r: Result<usize, RegistryError>)
        ensures
            seen_update(*old(self), *final(self), device_id@, addr, now_ms, r),
    {
        proof {
            use_type_invariant(&*self);
        }
        let r = self.get_or_create(device_id, now_ms);
        proof {
            use_type_invariant(&*self);
        }
        let ghost mid = self.slots_view();
        match r {
            Ok(i) => {
                self.entry_mut(i).touch(addr, now_ms);
                proof {
                    if i == old(self).slots_view().len() {
                        assert(self.slots_view().subrange(0, i as int) =~= mid.subrange(0, i as int));
                    }
                }
            },
            Err(_) => {},
        }
        proof {
            use_type_invariant(&*self);
        }
        r
    }

    /// The device with this id, if known.
    pub fn get(&self, device_id: &str) -> (r: Option<&DeviceEntry>)
        ensures
            match r {
                Some(e) => exists|i: int|
                    0 <= i < self.ids_view().len() && self.ids_view()[i] == device_id@ && *e
                        == self.slots_view()[i],
                None => !self.ids_view().contains(device_id@),
            },
    {
        proof {
            use_type_invariant(self);
        }
        match self.index_of(device_id) {
            Some(i) => Some(&self.slots[i]),
            None => None,
        }
    }

    /// The device in slot `i`.
    pub fn entry(&self, i: usize) -> (e: &DeviceEntry)
        requires
            i < self.slots_view().len(),
        ensures
            *e == self.slots_view()[i as int],
    {
        &self.slots[i]
    }

    /// Mutable access to the device in slot `i`; ids and slots stay as they are.
    pub fn entry_mut(&mut self, i: usize) -> (e: &mut DeviceEntry)
        requires
            i < old(self).slots_view().len(),
        ensures
            *e == old(self).slots_view()[i as int],
            final(self).slots_view() == old(self).slots_view().update(i as int, *final(e)),
            final(self).ids_view() == old(self).ids_view(),
            final(self).max_devices_spec() == old(self).max_devices_spec(),
            final(self).video_max_recent_spec() == old(self).video_max_recent_spec(),
            final(self).video_max_bytes_spec() == old(self).video_max_bytes_spec(),
            final(self).video_max_frame_bytes_spec() == old(self).video_max_frame_bytes_spec(),
    {
        proof {
            use_type_invariant(&*self);
        }
        &mut self.slots[i]
    }

    /// Number of known devices.
    pub fn len(&self) -> (n: usize)
        ensures
            n == self.slots_view().len(),
    {
        self.slots.len()
    }

    /// One row per known device, in registration order.
    pub fn list(&self) -> (rows: Vec<DeviceSummary>)
        ensures
            rows@.len() == self.ids_view().len(),
            rows@.len() == self.slots_view().len(),
            ids_distinct(self.ids_view()),
            forall|i: int|
                0 <= i < rows@.len() ==> summarizes(
                    #[trigger] rows@[i],
                    self.ids_view()[i],
                    self.slots_view()[i],
                ),
    {
        proof {
            use_type_invariant(self);
            self.lemma_distinct();
        }
        let mut rows: Vec<DeviceSummary> = Vec::new();
        let n = self.slots.len();
        let mut i: usize = 0;
        while i < n
            invariant
                n == self.slots@.len(),
                n == self.ids@.len(),
                i <= n,
                rows@.len() == i,
                forall|j: int|
                    0 <= j < i ==> summarizes(#[trigger] rows@[j], self.ids_view()[j], self.slots@[j]),
            decreases n - i,
        {
            let e = &self.slots[i];
            let (left_rpm, right_rpm) = e.telemetry();
            rows.push(DeviceSummary {
                device_id: self.ids[i].clone(),
                online: e.is_online(),
                last_seen_ms: e.last_seen(),
                left_rpm,
                right_rpm,
            });
            i += 1;
        }
        rows
    }

    /// Marks every device not heard from for more than `OFFLINE_TIMEOUT_MS`
    /// before `now_ms` as offline.
    pub fn sweep_offline(&mut self, now_ms: u64)
        ensures
            final(self).ids_view() == old(self).ids_view(),
            final(self).slots_view().len() == old(self).slots_view().len(),
            forall|i: int|
                0 <= i < old(self).slots_view().len() ==> #[trigger] final(self).slots_view()[i] == (
                DeviceEntry {
                    online: if is_stale(now_ms, old(self).slots_view()[i].last_seen_ms) {
                        false
                    } else {
                        old(self).slots_view()[i].online
                    },
                    ..old(self).slots_view()[i]
                }),
    {
        let n = self.slots.len();
        let mut i: usize = 0;
        while i < n
            invariant
                n == old(self).slots_view().len(),
                n == self.slots_view().len(),
                i <= n,
                self.ids_view() == old(self).ids_view(),
                forall|j: int|
                    0 <= j < n ==> #[trigger] self.slots_view()[j] == if j < i {
                        DeviceEntry {
                            online: if is_stale(now_ms, old(self).slots_view()[j].last_seen_ms) {
                                false
                            } else {
                                old(self).slots_view()[j].online
                            },
                            ..old(self).slots_view()[j]
                        }
                    } else {
                        old(self).slots_view()[j]
                    },
            decreases n - i,
        {
            let _ = self.entry_mut(i).mark_offline_if_stale(now_ms);
            i += 1;
        }
    }

    /// Slot of the first device whose datagrams come from `addr`.
    pub fn find_by_addr(&self, addr: PeerAddr) -> (r: Option<usize>)
        ensures
            match r {
                Some(i) => i < self.slots_view().len() && self.slots_view()[i as int].addr == Some(addr)
                    && forall|j: int| 0 <= j < i ==> self.slots_view()[j].addr != Some(addr),
                None => forall|j: int|
                    0 <= j < self.slots_view().len() ==> self.slots_view()[j].addr != Some(addr),
            },
    {
        let n = self.slots.len();
        let mut i: usize = 0;
        while i < n
            invariant
                n == self.slots@.len(),
                i <= n,
                forall|j: int| 0 <= j < i ==> self.slots@[j].addr != Some(addr),
            decreases n - i,
        {
            match self.slots[i].get_addr() {
                Some(a) => {
                    if a == addr {
                        return Some(i);
                    }
                },
                None => {},
            }
            i += 1;
        }
        None
    }
}

} // verus!
