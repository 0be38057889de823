//! Wire protocol: parsing of one video sub-packet, reassembly of a frame from
//! its parts, and the JSON event / command vocabularies exchanged with devices.
//!
//! Packet layout (all integers little-endian):
//!   magic(2) | version(1) | deviceIdLen(1) | deviceId(N)
//!   | uptimeMs(8) | frameSeq(4) | partIdx(1) | partTotal(1)
//!   | row(1) | col(1) | payloadLen(4) | payload(M)
use vstd::prelude::*;
use vstd::utf8::{decode_utf8, encode_utf8, encode_utf8_decode_utf8, encode_utf8_valid_utf8, valid_utf8};
use vstd::arithmetic::div_mod::{lemma_fundamental_div_mod, lemma_mod_pos_bound};
use vstd::slice::{slice_subrange, slice_to_vec};
use std::collections::HashMap;

verus! {

/// First magic byte.
pub const MAGIC_0: u8 = 0xF1;
/// Second magic byte.
pub const MAGIC_1: u8 = 0xD0;
/// Protocol version.
pub const VERSION: u8 = 1;
/// Number of parts of one frame (2 rows x 4 columns).
pub const PART_TOTAL: u8 = 8;
/// Length of the fixed part of the header (everything but the device id and payload).
pub const FIXED_HEADER_LEN: usize = 24;

/// Why a packet was rejected.
#[derive(Debug, Clone, PartialEq, Eq)]
pub enum ProtocolError {
    /// Fewer bytes than the given minimum.
    TooShort(usize),
    /// The first two bytes were not the magic.
    BadMagic([u8; 2]),
    BadVersion { expected: u8, actual: u8 },
    BadPartTotal { expected: u8, actual: u8 },
    BadPartIdx(u8),
    /// The declared payload length exceeds the bytes that follow the header.
    PayloadLenMismatch { claimed: usize, remaining: usize },
    /// The device id is empty or not UTF-8.
    BadDeviceIdLen(u8),
}

/// Events a device reports (JSON, tagged by `type`).
#[derive(Debug, Clone)]
pub enum DeviceEvent {
    Register { device_id: String, token: String },
    PhotoDone { path: String, uptime_ms: u64 },
    Ack { ref_seq: u32 },
    Telemetry { left_rpm: i32, right_rpm: i32 },
    Error { code: i32, message: String },
}

/// Commands sent to a device (JSON, tagged by `type`).
#[derive(Debug, Clone)]
pub enum DeviceCommand {
    Control { direction: String, pwm: u16, duration_ms: Option<u32>, ts: u64 },
    Photo { quality: String, ts: u64 },
    PwmCache { enabled: bool, ts: u64 },
    Ping { seq: u32, ts: u64 },
}

/// One video sub-packet, after decryption.
#[derive(Debug, Clone)]
pub struct Packet {
    pub version: u8,
    pub device_id: String,
    pub uptime_ms: u64,
    pub frame_seq: u32,
    pub part_idx: u8,
    pub part_total: u8,
    pub row: u8,
    pub col: u8,
    pub payload: Vec<u8>,
}

/// Unsigned value of little-endian bytes.
pub open spec fn le_value(s: Seq<u8>) -> nat
    decreases s.len(),
{
    if s.len() == 0 {
        0
    } else {
        s[0] as nat + 256 * le_value(s.drop_first())
    }
}

/// Offset where the device id ends, for a buffer whose byte 3 is the id length.
pub open spec fn id_end(s: Seq<u8>) -> int {
    4 + s[3] as int
}

/// Declared payload length.
pub open spec fn claimed_payload_len(s: Seq<u8>) -> nat {
    le_value(s.subrange(id_end(s) + 16, id_end(s) + 20))
}

/// The error `parse_packet` reports for `s`, checked in this order, or `None`
/// when `s` is a well-formed packet.
pub open spec fn packet_error(s: Seq<u8>) -> Option<ProtocolError> {
    if s.len() < FIXED_HEADER_LEN {
        Some(ProtocolError::TooShort(FIXED_HEADER_LEN))
    } else if s[0] != MAGIC_0 || s[1] != MAGIC_1 {
        Some(ProtocolError::BadMagic([s[0], s[1]]))
    } else if s[2] != VERSION {
        Some(ProtocolError::BadVersion { expected: VERSION, actual: s[2] })
    } else if s[3] == 0 {
        Some(ProtocolError::BadDeviceIdLen(0))
    } else if s.len() < id_end(s) + 20 {
        Some(ProtocolError::TooShort((id_end(s) + 20) as usize))
    } else if !valid_utf8(s.subrange(4, id_end(s))) {
        Some(ProtocolError::BadDeviceIdLen(s[3]))
    } else if s[id_end(s) + 13] != PART_TOTAL {
        Some(ProtocolError::BadPartTotal { expected: PART_TOTAL, actual: s[id_end(s) + 13] })
    } else if s[id_end(s) + 12] >= PART_TOTAL {
        Some(ProtocolError::BadPartIdx(s[id_end(s) + 12]))
    } else if s.len() - (id_end(s) + 20) < claimed_payload_len(s) {
        Some(
            ProtocolError::PayloadLenMismatch {
                claimed: claimed_payload_len(s) as usize,
                remaining: (s.len() - (id_end(s) + 20)) as usize,
            },
        )
    } else {
        None
    }
}

/// The fields of `p` are those encoded in the well-formed packet `s`.
pub open spec fn packet_fields(s: Seq<u8>, p: Packet) -> bool {
    let e = id_end(s);
    &&& p.version == s[2]
    &&& p.device_id@ == decode_utf8(s.subrange(4, e))
    &&& p.uptime_ms as nat == le_value(s.subrange(e, e + 8))
    &&& p.frame_seq as nat == le_value(s.subrange(e + 8, e + 12))
    &&& p.part_idx == s[e + 12]
    &&& p.part_total == s[e + 13]
    &&& p.row == s[e + 14]
    &&& p.col == s[e + 15]
    &&& p.payload@ == s.subrange(e + 20, e + 20 + claimed_payload_len(s))
}

/// `std::str::from_utf8`, keeping an owned copy of the decoded text.
#[verifier::external_body]
fn utf8_to_string(b: &[u8]) -> (res: Option<String>)
    ensures
        res is Some <==> valid_utf8(b@),
        res matches Some(t) ==> t@ == decode_utf8(b@),
{
    match std::str::from_utf8(b) {
        Ok(t) => Some(t.to_string()),
        Err(_) => None,
    }
}

/// Reads a 4-byte little-endian integer at `at`.
fn read_le_u32(input: &[u8], at: usize) -> (v: u32)
    requires
        at + 4 <= input@.len(),
    ensures
        v as nat == le_value(input@.subrange(at as int, at + 4)),
{
    let ghost s = input@.subrange(at as int, at + 4);
    proof {
        reveal_with_fuel(le_value, 5);
        assert(s.drop_first().drop_first().drop_first().drop_first() =~= Seq::<u8>::empty());
    }
    (input[at] as u32) + (input[at + 1] as u32) * 0x100 + (input[at + 2] as u32) * 0x1_0000
        + (input[at + 3] as u32) * 0x100_0000
}

/// Reads an 8-byte little-endian integer at `at`.
fn read_le_u64(input: &[u8], at: usize) -> (v: u64)
    requires
        at + 8 <= input@.len(),
    ensures
        v as nat == le_value(input@.subrange(at as int, at + 8)),
{
    let n = input.len();
    let lo = read_le_u32(input, at);
    let hi = read_le_u32(input, at + 4);
    proof {
        reveal_with_fuel(pow256, 5);
        lemma_le_value_split(input@.subrange(at as int, at + 8), 4);
        assert(input@.subrange(at as int, at + 8).subrange(0, 4) == input@.subrange(at as int, at + 4));
        assert(input@.subrange(at as int, at + 8).subrange(4, 8) == input@.subrange(at + 4, at + 8));
        let q = pow256(4);
        assert(q == 0x1_0000_0000);
        assert(q * (hi as nat) == (hi as nat) * 0x1_0000_0000) by (nonlinear_arith) requires q == 0x1_0000_0000;
    }
    (lo as u64) + (hi as u64) * 0x1_0000_0000
}

/// Little-endian value of a concatenation: the low part, plus the high part
/// scaled by the low part's width.
proof fn lemma_le_value_split(s: Seq<u8>, k: int)
    requires
        0 <= k <= s.len(),
    ensures
        le_value(s) == le_value(s.subrange(0, k)) + pow256(k as nat) * le_value(
            s.subrange(k, s.len() as int),
        ),
    decreases k,
{
    if k == 0 {
        assert(s.subrange(0, s.len() as int) =~= s);
        assert(s.subrange(0, 0) =~= Seq::<u8>::empty());
        assert(le_value(s.subrange(0, 0)) == 0);
        let a = le_value(s.subrange(0, s.len() as int));
        let q = pow256(0);
        assert(q == 1);
        assert(q * a == a) by (nonlinear_arith) requires q == 1;
    } else {
        let t = s.drop_first();
        lemma_le_value_split(t, k - 1);
        assert(t.subrange(0, k - 1) =~= s.subrange(0, k).drop_first());
        assert(t.subrange(k - 1, t.len() as int) =~= s.subrange(k, s.len() as int));
        let a = le_value(s.subrange(k, s.len() as int));
        let p = pow256((k - 1) as nat);
        let lo = le_value(t.subrange(0, k - 1));
        assert(le_value(t) == lo + p * a);
        assert(le_value(s) == s[0] as nat + 256 * le_value(t));
        assert(le_value(s.subrange(0, k)) == s[0] as nat + 256 * lo);
        let q = pow256(k as nat);
        assert(q == 256 * p);
        assert(256 * (lo + p * a) == 256 * lo + q * a) by (nonlinear_arith) requires q == 256 * p;
    }
}

/// 256 to the power `n`.
pub open spec fn pow256(n: nat) -> nat
    decreases n,
{
    if n == 0 {
        1
    } else {
        256 * pow256((n - 1) as nat)
    }
}

/// The `n` low bytes of `v`, least significant first.
pub open spec fn le_bytes(v: nat, n: nat) -> Seq<u8>
    decreases n,
{
    if n == 0 {
        Seq::<u8>::empty()
    } else {
        seq![(v % 256) as u8] + le_bytes(v / 256, (n - 1) as nat)
    }
}

proof fn lemma_le_bytes_value(v: nat, n: nat)
    requires
        v < pow256(n),
    ensures
        le_bytes(v, n).len() == n,
        le_value(le_bytes(v, n)) == v,
    decreases n,
{
    if n == 0 {
        assert(le_bytes(v, n) =~= Seq::<u8>::empty());
    } else {
        let p = pow256((n - 1) as nat);
        assert(pow256(n) == 256 * p);
        lemma_fundamental_div_mod(v as int, 256);
        lemma_mod_pos_bound(v as int, 256);
        assert(v / 256 < p) by (nonlinear_arith)
            requires
                v < 256 * p,
                v == 256 * (v / 256) + v % 256,
                0 <= v % 256,
        ;
        lemma_le_bytes_value(v / 256, (n - 1) as nat);
        let s = le_bytes(v, n);
        assert(s.drop_first() =~= le_bytes(v / 256, (n - 1) as nat));
        assert(s[0] == (v % 256) as u8);
    }
}

/// Bytes of the packet `p`, laid out as the module's header describes.
pub open spec fn encode_packet(p: Packet) -> Seq<u8> {
    let id = encode_utf8(p.device_id@);
    seq![MAGIC_0, MAGIC_1, p.version, id.len() as u8] + id + le_bytes(p.uptime_ms as nat, 8)
        + le_bytes(p.frame_seq as nat, 4) + seq![p.part_idx, p.part_total, p.row, p.col]
        + le_bytes(p.payload@.len(), 4) + p.payload@
}

/// `q` holds the same fields as `p`.
pub open spec fn same_packet(q: Packet, p: Packet) -> bool {
    &&& q.version == p.version
    &&& q.device_id@ == p.device_id@
    &&& q.uptime_ms == p.uptime_ms
    &&& q.frame_seq == p.frame_seq
    &&& q.part_idx == p.part_idx
    &&& q.part_total == p.part_total
    &&& q.row == p.row
    &&& q.col == p.col
    &&& q.payload@ == p.payload@
}

/// Parsing gives back an encoded packet: a packet of this version with an
/// id of 1 to 255 bytes, 8 parts, a valid part index and a payload that
/// fits its 4-byte length is accepted, whatever follows it, and every field
/// is read back.
pub proof fn lemma_parse_encoded_packet(p: Packet, extra: Seq<u8>)
    requires
        p.version == VERSION,
        1 <= encode_utf8(p.device_id@).len() <= 255,
        p.part_total == PART_TOTAL,
        p.part_idx < PART_TOTAL,
        p.payload@.len() <= u32::MAX,
    ensures
        packet_error(encode_packet(p) + extra) is None,
        forall|q: Packet| #[trigger] packet_fields(encode_packet(p) + extra, q) ==> same_packet(q, p),
{
    let id = encode_utf8(p.device_id@);
    let k = id.len() as int;
    let s = encode_packet(p) + extra;
    let e: int = 4 + k;
    let up = le_bytes(p.uptime_ms as nat, 8);
    let fs = le_bytes(p.frame_seq as nat, 4);
    let pl = le_bytes(p.payload@.len(), 4);
    assert(pow256(4) == 0x1_0000_0000 && pow256(8) == 0x1_0000_0000_0000_0000) by {
        reveal_with_fuel(pow256, 9);
    }
    lemma_le_bytes_value(p.uptime_ms as nat, 8);
    lemma_le_bytes_value(p.frame_seq as nat, 4);
    lemma_le_bytes_value(p.payload@.len(), 4);
    let n = p.payload@.len() as int;
    assert(s.len() == e + 20 + n + extra.len());
    assert(s[0] == MAGIC_0 && s[1] == MAGIC_1 && s[2] == p.version && s[3] == k as u8);
    assert(s[3] as int == k);
    assert(id_end(s) == e);
    assert(s.subrange(4, e) =~= id);
    assert(s.subrange(e, e + 8) =~= up);
    assert(s.subrange(e + 8, e + 12) =~= fs);
    assert(s[e + 12] == p.part_idx);
    assert(s[e + 13] == p.part_total);
    assert(s[e + 14] == p.row);
    assert(s[e + 15] == p.col);
    assert(s.subrange(e + 16, e + 20) =~= pl);
    assert(claimed_payload_len(s) == n);
    assert(s.subrange(e + 20, e + 20 + n) =~= p.payload@);
    encode_utf8_valid_utf8(p.device_id@);
    encode_utf8_decode_utf8(p.device_id@);
}

/// Parses one sub-packet (already decrypted).
pub fn parse_packet(input: &[u8]) -> (res: Result<Packet, ProtocolError>)
    ensures
        match res {
            Ok(p) => packet_error(input@) is None && packet_fields(input@, p),
            Err(e) => packet_error(input@) == Some(e),
        },
{
    let ghost s = input@;
    let n = input.len();
    if n < FIXED_HEADER_LEN {
        return Err(ProtocolError::TooShort(FIXED_HEADER_LEN));
    }
    if input[0] != MAGIC_0 || input[1] != MAGIC_1 {
        return Err(ProtocolError::BadMagic([input[0], input[1]]));
    }
    let version = input[2];
    if version != VERSION {
        return Err(ProtocolError::BadVersion { expected: VERSION, actual: version });
    }
    let device_id_len = input[3] as usize;
    if device_id_len == 0 {
        return Err(ProtocolError::BadDeviceIdLen(0));
    }
    let device_id_end = 4 + device_id_len;
    if n < device_id_end + 20 {
        return Err(ProtocolError::TooShort(device_id_end + 20));
    }
    let device_id = match utf8_to_string(slice_subrange(input, 4, device_id_end)) {
        Some(t) => t,
        None => return Err(ProtocolError::BadDeviceIdLen(device_id_len as u8)),
    };
    let uptime_ms = read_le_u64(input, device_id_end);
    let frame_seq = read_le_u32(input, device_id_end + 8);
    let part_idx = input[device_id_end + 12];
    let part_total = input[device_id_end + 13];
    if part_total != PART_TOTAL {
        return Err(ProtocolError::BadPartTotal { expected: PART_TOTAL, actual: part_total });
    }
    if part_idx >= PART_TOTAL {
        return Err(ProtocolError::BadPartIdx(part_idx));
    }
    let row = input[device_id_end + 14];
    let col = input[device_id_end + 15];
    let payload_len = read_le_u32(input, device_id_end + 16) as usize;
    let payload_start = device_id_end + 20;
    let remaining = n - payload_start;
    if remaining < payload_len {
        return Err(ProtocolError::PayloadLenMismatch { claimed: payload_len, remaining });
    }
    let payload = slice_to_vec(slice_subrange(input, payload_start, payload_start + payload_len));
    Ok(Packet { version, device_id, uptime_ms, frame_seq, part_idx, part_total, row, col, payload })
}


/// Parts received so far for one frame: slot `i` holds the payload of part `i`.
pub type PartsView = Seq<Option<Seq<u8>>>;

/// Number of filled slots.
pub open spec fn count_filled(s: PartsView) -> nat
    decreases s.len(),
{
    if s.len() == 0 {
        0
    } else {
        count_filled(s.drop_last()) + if s.last() is Some {
            1nat
        } else {
            0nat
        }
    }
}

/// Payloads of the filled slots, concatenated in slot order.
pub open spec fn concat_filled(s: PartsView) -> Seq<u8>
    decreases s.len(),
{
    if s.len() == 0 {
        seq![]
    } else {
        concat_filled(s.drop_last()) + match s.last() {
            Some(b) => b,
            None => seq![],
        }
    }
}

/// Empty slots for a frame announced with `total` parts.
pub open spec fn empty_parts(total: u8) -> PartsView {
    Seq::new(total as nat, |i: int| None)
}

/// Effect of offering a part (`seq`, `idx`, `total`, `payload`) to the frames
/// in progress `m`: the new frames in progress, and the whole frame when the
/// part completes it.  A part whose index is outside the frame's slots is
/// ignored (its frame stays registered); a slot keeps the first payload it got.
pub open spec fn spec_push(m: Map<u32, PartsView>, seq: u32, idx: u8, total: u8, payload: Seq<u8>) -> (
    Map<u32, PartsView>,
    Option<Seq<u8>>,
) {
    let parts0 = if m.contains_key(seq) {
        m[seq]
    } else {
        empty_parts(total)
    };
    if idx >= parts0.len() {
        (m.insert(seq, parts0), None)
    } else {
        let parts1 = if parts0[idx as int] is None {
            parts0.update(idx as int, Some(payload))
        } else {
            parts0
        };
        if count_filled(parts1) == total {
            (m.remove(seq), Some(concat_filled(parts1)))
        } else {
            (m.insert(seq, parts1), None)
        }
    }
}

/// A frame in progress.
struct ReassemblingFrame {
    parts: Vec<Option<Vec<u8>>>,
    received: u8,
}

impl ReassemblingFrame {
    spec fn parts_view(&self) -> PartsView {
        self.parts@.map_values(|p: Option<Vec<u8>>| match p {
            Some(v) => Some(v@),
            None => None,
        })
    }

    spec fn wf(&self) -> bool {
        &&& self.parts@.len() <= 255
        &&& self.received as nat == count_filled(self.parts_view())
    }
}

/// Collects the parts of each frame (keyed by frame sequence number) and
/// yields the whole frame once all its parts are in.
pub struct FrameReassembler {
    frames: HashMap<u32, ReassemblingFrame>,
}

proof fn lemma_count_filled_bound(s: PartsView)
    ensures
        count_filled(s) <= s.len(),
        (exists|i: int| 0 <= i < s.len() && s[i] is None) ==> count_filled(s) < s.len(),
    decreases s.len(),
{
    if s.len() > 0 {
        lemma_count_filled_bound(s.drop_last());
        if exists|i: int| 0 <= i < s.len() && s[i] is None {
            let i = choose|i: int| 0 <= i < s.len() && s[i] is None;
            if i < s.len() - 1 {
                assert(s.drop_last()[i] is None);
            }
        }
    }
}

proof fn lemma_count_filled_update(s: PartsView, k: int, b: Seq<u8>)
    requires
        0 <= k < s.len(),
        s[k] is None,
    ensures
        count_filled(s.update(k, Some(b))) == count_filled(s) + 1,
    decreases s.len(),
{
    let t = s.update(k, Some(b));
    if k == s.len() - 1 {
        assert(t.drop_last() =~= s.drop_last());
    } else {
        assert(t.drop_last() =~= s.drop_last().update(k, Some(b)));
        lemma_count_filled_update(s.drop_last(), k, b);
    }
}

proof fn lemma_empty_parts(total: u8)
    ensures
        count_filled(empty_parts(total)) == 0,
    decreases total,
{
    let e = empty_parts(total);
    if total > 0 {
        lemma_empty_parts((total - 1) as u8);
        assert(e.drop_last() =~= empty_parts((total - 1) as u8));
    }
}

impl FrameReassembler {
    /// Frames in progress: sequence number to received slots.
    pub closed spec fn view(&self) -> Map<u32, PartsView> {
        self.frames@.map_values(|f: ReassemblingFrame| f.parts_view())
    }

    /// Every frame in progress has at most 255 slots and counts its filled slots.
    #[verifier::type_invariant]
    closed spec fn wf(&self) -> bool {
        forall|k: u32| #[trigger] self.frames@.contains_key(k) ==> self.frames@[k].wf()
    }

    /// A reassembler with no frame in progress.
    pub fn new() -> (r: Self)
        ensures
            r.view() == Map::<u32, PartsView>::empty(),
    {
        let r = FrameReassembler { frames: HashMap::new() };
        assert(r.view() =~= Map::<u32, PartsView>::empty());
        r
    }

    /// Same as `new`.
    pub fn default() -> (r: Self)
        ensures
            r.view() == Map::<u32, PartsView>::empty(),
    {
        Self::new()
    }

    /// Offers one part; returns the whole frame (parts concatenated by part
    /// index) when this part completes it.
    pub fn push(&mut self, pkt: &Packet) -> (res: Option<Vec<u8>>)
        ensures
            ({
                let (m, out) = spec_push(
                    old(self).view(),
                    pkt.frame_seq,
                    pkt.part_idx,
                    pkt.part_total,
                    pkt.payload@,
                );
                &&& final(self).view() == m
                &&& match res {
                    Some(v) => out == Some(v@),
                    None => out is None,
                }
            }),
    {
        broadcast use vstd::std_specs::hash::group_hash_axioms;
        proof {
            use_type_invariant(&*self);
        }
        let seq = pkt.frame_seq;
        let ghost m0 = self.view();
        let mut frames: HashMap<u32, ReassemblingFrame> = HashMap::new();
        std::mem::swap(&mut frames, &mut self.frames);
        let mut frame = match frames.remove(&seq) {
            Some(f) => f,
            None => {
                let mut parts: Vec<Option<Vec<u8>>> = Vec::new();
                let mut k: u8 = 0;
                while k < pkt.part_total
                    invariant
                        k <= pkt.part_total,
                        parts@.len() == k,
                        forall|j: int| 0 <= j < k ==> (#[trigger] parts@[j]) is None,
                    decreases pkt.part_total - k,
                {
                    parts.push(None);
                    k += 1;
                }
                let f = ReassemblingFrame { parts, received: 0 };
                proof {
                    assert(f.parts_view() =~= empty_parts(pkt.part_total));
                    lemma_empty_parts(pkt.part_total);
                }
                f
            },
        };
        let ghost parts0 = frame.parts_view();
        assert(parts0 == (if m0.contains_key(seq) { m0[seq] } else { empty_parts(pkt.part_total) }));
        assert(frame.wf());
        let ghost frames1 = frames@;
        assert(frames1 == old(self).frames@.remove(seq));
        let idx = pkt.part_idx as usize;
        if idx >= frame.parts.len() {
            frames.insert(seq, frame);
            self.frames = frames;
            proof {
                assert(self.view() =~= m0.insert(seq, parts0));
            }
            return None;
        }
        if frame.parts[idx].is_none() {
            proof {
                lemma_count_filled_update(parts0, idx as int, pkt.payload@);
                lemma_count_filled_bound(parts0);
            }
            frame.parts[idx] = Some(pkt.payload.clone());
            frame.received = frame.received + 1;
            assert(frame.parts_view() =~= parts0.update(idx as int, Some(pkt.payload@)));
        }
        let ghost parts1 = frame.parts_view();
        if frame.received == pkt.part_total {
            let mut full: Vec<u8> = Vec::new();
            let n = frame.parts.len();
            let mut k: usize = 0;
            while k < n
                invariant
                    n == frame.parts@.len(),
                    k <= n,
                    parts1 == frame.parts_view(),
                    full@ == concat_filled(parts1.subrange(0, k as int)),
                decreases n - k,
            {
                assert(parts1.subrange(0, k + 1).drop_last() =~= parts1.subrange(0, k as int));
                match &frame.parts[k] {
                    Some(b) => {
                        full.extend_from_slice(b.as_slice());
                    },
                    None => {},
                }
                k += 1;
            }
            assert(parts1.subrange(0, n as int) =~= parts1);
            self.frames = frames;
            assert(self.view() =~= m0.remove(seq));
            return Some(full);
        }
        frames.insert(seq, frame);
        self.frames = frames;
        proof {
            assert(self.view() =~= m0.insert(seq, parts1));
        }
        None
    }

    /// Drops every frame in progress once more than 32 are pending.
    pub fn evict_older_than(&mut self, _now_ms: u64)
        ensures
            final(self).view() == (if old(self).view().dom().len() > 32 {
                Map::<u32, PartsView>::empty()
            } else {
                old(self).view()
            }),
    {
        broadcast use vstd::std_specs::hash::group_hash_axioms;
        assert(self.view().dom() =~= self.frames@.dom());
        if self.frames.len() > 32 {
            self.frames = HashMap::new();
            assert(self.view() =~= Map::<u32, PartsView>::empty());
        }
    }
}


/// Frames in progress and outputs after offering, in turn, part `order[k]`
/// (with payload `payloads[order[k]]`) of frame `seq` announced with `total`
/// parts.
pub open spec fn feed(
    m: Map<u32, PartsView>,
    seq: u32,
    total: u8,
    order: Seq<u8>,
    payloads: Seq<Seq<u8>>,
) -> (Map<u32, PartsView>, Seq<Option<Seq<u8>>>)
    decreases order.len(),
{
    if order.len() == 0 {
        (m, seq![])
    } else {
        let (m1, outs) = feed(m, seq, total, order.drop_last(), payloads);
        let idx = order.last();
        let (m2, out) = spec_push(m1, seq, idx, total, payloads[idx as int]);
        (m2, outs.push(out))
    }
}

/// Concatenation of byte strings, in order.
pub open spec fn flatten(p: Seq<Seq<u8>>) -> Seq<u8>
    decreases p.len(),
{
    if p.len() == 0 {
        seq![]
    } else {
        flatten(p.drop_last()) + p.last()
    }
}

/// Slots of the frame after the parts `order[0..j]` arrived.
spec fn filled_after(total: u8, order: Seq<u8>, j: int, payloads: Seq<Seq<u8>>) -> PartsView {
    Seq::new(
        total as nat,
        |i: int|
            if order.take(j).contains(i as u8) {
                Some(payloads[i])
            } else {
                None
            },
    )
}

proof fn lemma_concat_all_filled(s: PartsView, ps: Seq<Seq<u8>>)
    requires
        s.len() == ps.len(),
        forall|i: int| 0 <= i < s.len() ==> s[i] == Some(ps[i]),
    ensures
        concat_filled(s) == flatten(ps),
    decreases s.len(),
{
    if s.len() > 0 {
        lemma_concat_all_filled(s.drop_last(), ps.drop_last());
    }
}

proof fn lemma_feed_prefix(
    m: Map<u32, PartsView>,
    seq: u32,
    total: u8,
    order: Seq<u8>,
    payloads: Seq<Seq<u8>>,
    j: int,
)
    requires
        !m.contains_key(seq),
        order.len() == total,
        payloads.len() == total,
        forall|i: int| 0 <= i < order.len() ==> (#[trigger] order[i]) < total,
        forall|a: int, b: int| 0 <= a < b < order.len() ==> order[a] != order[b],
        0 <= j < total,
    ensures
        feed(m, seq, total, order.take(j), payloads).0 == (if j == 0 {
            m
        } else {
            m.insert(seq, filled_after(total, order, j, payloads))
        }),
        feed(m, seq, total, order.take(j), payloads).1.len() == j,
        forall|k: int|
            0 <= k < j ==> (#[trigger] feed(m, seq, total, order.take(j), payloads).1[k]) is None,
        count_filled(filled_after(total, order, j, payloads)) == j,
    decreases j,
{
    let f = filled_after(total, order, j, payloads);
    if j == 0 {
        assert(order.take(0) =~= Seq::<u8>::empty());
        assert(f =~= empty_parts(total));
        lemma_empty_parts(total);
    } else {
        lemma_feed_prefix(m, seq, total, order, payloads, j - 1);
        let prev = filled_after(total, order, j - 1, payloads);
        assert(order.take(j).drop_last() =~= order.take(j - 1));
        let idx = order[j - 1];
        assert(order.take(j).last() == idx);
        assert(!order.take(j - 1).contains(idx)) by {
            if order.take(j - 1).contains(idx) {
                let a = choose|a: int| 0 <= a < j - 1 && #[trigger] order.take(j - 1)[a] == idx;
                assert(order[a] == order[j - 1]);
            }
        }
        assert(prev[idx as int] is None);
        assert forall|i: int| 0 <= i < total implies #[trigger] f[i] == prev.update(
            idx as int,
            Some(payloads[idx as int]),
        )[i] by {
            if order.take(j).contains(i as u8) && i != idx {
                let a = choose|a: int| 0 <= a < j && #[trigger] order.take(j)[a] == i as u8;
                assert(a != j - 1);
                assert(order.take(j - 1)[a] == i as u8);
            }
            if order.take(j - 1).contains(i as u8) {
                let a = choose|a: int| 0 <= a < j - 1 && #[trigger] order.take(j - 1)[a] == i as u8;
                assert(order.take(j)[a] == i as u8);
            }
            if i == idx {
                assert(order.take(j)[j - 1] == idx);
            }
        }
        assert(f =~= prev.update(idx as int, Some(payloads[idx as int])));
        lemma_count_filled_update(prev, idx as int, payloads[idx as int]);
        let (m1, outs) = feed(m, seq, total, order.take(j - 1), payloads);
        let parts0 = if m1.contains_key(seq) {
            m1[seq]
        } else {
            empty_parts(total)
        };
        assert(parts0 == prev) by {
            if j - 1 == 0 {
                assert(order.take(0) =~= Seq::<u8>::empty());
                assert(prev =~= empty_parts(total));
            }
        }
        assert(spec_push(m1, seq, idx, total, payloads[idx as int]) == (
            m1.insert(seq, f),
            None::<Seq<u8>>,
        ));
        assert(feed(m, seq, total, order.take(j), payloads) == (m1.insert(seq, f), outs.push(None)));
        assert(m1.insert(seq, f) =~= m.insert(seq, f));
    }
}

/// Law of frame reassembly: when the parts of a new frame arrive in any
/// order, each exactly once, no output appears before the last part, the last
/// part yields all payloads concatenated in part-index order, and the frame
/// is no longer in progress afterwards.
pub proof fn lemma_frame_reassembles_in_any_order(
    m: Map<u32, PartsView>,
    seq: u32,
    total: u8,
    order: Seq<u8>,
    payloads: Seq<Seq<u8>>,
)
    requires
        !m.contains_key(seq),
        total >= 1,
        order.len() == total,
        payloads.len() == total,
        forall|i: int| 0 <= i < order.len() ==> (#[trigger] order[i]) < total,
        forall|a: int, b: int| 0 <= a < b < order.len() ==> order[a] != order[b],
    ensures
        feed(m, seq, total, order, payloads).0 == m,
        feed(m, seq, total, order, payloads).1.len() == total,
        forall|k: int|
            0 <= k < total - 1 ==> (#[trigger] feed(m, seq, total, order, payloads).1[k]) is None,
        feed(m, seq, total, order, payloads).1[total - 1] == Some(flatten(payloads)),
{
    let j = total - 1;
    lemma_feed_prefix(m, seq, total, order, payloads, j);
    assert(order.take(total as int) =~= order);
    assert(order.drop_last() =~= order.take(j));
    let prev = filled_after(total, order, j, payloads);
    let f = filled_after(total, order, total as int, payloads);
    let idx = order[j];
    assert(!order.take(j).contains(idx)) by {
        if order.take(j).contains(idx) {
            let a = choose|a: int| 0 <= a < j && #[trigger] order.take(j)[a] == idx;
            assert(order[a] == order[j]);
        }
    }
    assert forall|i: int| 0 <= i < total implies #[trigger] f[i] == prev.update(
        idx as int,
        Some(payloads[idx as int]),
    )[i] by {
        if order.contains(i as u8) && i != idx {
            let a = choose|a: int| 0 <= a < total && #[trigger] order[a] == i as u8;
            assert(a != j);
            assert(order.take(j)[a] == i as u8);
        }
        if order.take(j).contains(i as u8) {
            let a = choose|a: int| 0 <= a < j && #[trigger] order.take(j)[a] == i as u8;
            assert(order[a] == i as u8);
        }
        if i == idx {
            assert(order[j] == idx);
        }
    }
    assert(f =~= prev.update(idx as int, Some(payloads[idx as int])));
    lemma_count_filled_update(prev, idx as int, payloads[idx as int]);
    lemma_count_filled_bound(f);
    assert forall|i: int| 0 <= i < f.len() implies f[i] == Some(payloads[i]) by {
        if f[i] is None {
            assert(count_filled(f) < f.len());
        }
    }
    lemma_concat_all_filled(f, payloads);
    let (m1, outs) = feed(m, seq, total, order.take(j), payloads);
    let parts0 = if m1.contains_key(seq) {
        m1[seq]
    } else {
        empty_parts(total)
    };
    assert(parts0 == prev) by {
        if j == 0 {
            assert(order.take(0) =~= Seq::<u8>::empty());
            assert(prev =~= empty_parts(total));
        }
    }
    assert(spec_push(m1, seq, idx, total, payloads[idx as int]) == (
        m1.remove(seq),
        Some(concat_filled(f)),
    ));
    assert(feed(m, seq, total, order, payloads) == (m1.remove(seq), outs.push(Some(concat_filled(f)))));
    if j == 0 {
        assert(m1.remove(seq) =~= m);
    } else {
        assert(m.insert(seq, prev).remove(seq) =~= m);
    }
}

} // verus!
