//! Per-device video frame cache: fans new frames out to subscribers through a
//! broadcast channel and keeps the most recent frames within a frame-count
//! and a byte budget.
use vstd::prelude::*;
use std::collections::VecDeque;
use std::sync::Arc;
use tokio::sync::broadcast;

verus! {

#[verifier::external_type_specification]
#[verifier::external_body]
#[verifier::reject_recursive_types(T)]
pub struct ExBroadcastSender<T>(broadcast::Sender<T>);

#[verifier::external_type_specification]
#[verifier::external_body]
#[verifier::reject_recursive_types(T)]
pub struct ExBroadcastReceiver<T>(broadcast::Receiver<T>);

/// One video frame.
#[derive(Debug, Clone)]
pub struct Frame {
    /// Server clock (ms since process start) when the frame arrived.
    pub server_recv_ms: u64,
    /// Device uptime (ms) reported with the frame, if any.
    pub device_uptime_ms: Option<u64>,
    /// Whole JPEG.
    pub jpeg: Vec<u8>,
}

/// `tokio::sync::broadcast::channel`, keeping only the sending half.  It
/// panics unless `0 < capacity <= usize::MAX / 2`, which `requires` excludes.
#[verifier::external_body]
fn broadcast_sender(capacity: usize) -> broadcast::Sender<Arc<Frame>>
    requires
        0 < capacity <= usize::MAX / 2,
{
    broadcast::channel(capacity).0
}

/// `broadcast::Sender::subscribe`: a receiver of the frames sent from now on.
/// No clause says so: the receiver is tied to the sender through their
/// shared channel state, which is an allocation and not a plain value.
#[verifier::external_body]
fn broadcast_subscribe(tx: &broadcast::Sender<Arc<Frame>>) -> broadcast::Receiver<Arc<Frame>> {
    tx.subscribe()
}

/// `Arc::clone`: another handle to the same frame.
#[verifier::external_body]
fn arc_clone(a: &Arc<Frame>) -> (r: Arc<Frame>)
    ensures
        r == *a,
{
    Arc::clone(a)
}

/// Total JPEG bytes of a run of frames.
pub open spec fn frames_bytes(s: Seq<Arc<Frame>>) -> nat
    decreases s.len(),
{
    if s.len() == 0 {
        0
    } else {
        frames_bytes(s.drop_last()) + s.last().jpeg@.len()
    }
}

/// Drops the oldest frames while the byte total exceeds `max_bytes` and more
/// than one frame remains.
pub open spec fn evict_for_bytes(s: Seq<Arc<Frame>>, max_bytes: nat) -> Seq<Arc<Frame>>
    decreases s.len(),
{
    if frames_bytes(s) > max_bytes && s.len() > 1 {
        evict_for_bytes(s.drop_first(), max_bytes)
    } else {
        s
    }
}

/// Keeps the newest `max_recent` frames.
pub open spec fn evict_for_count(s: Seq<Arc<Frame>>, max_recent: nat) -> Seq<Arc<Frame>> {
    if s.len() > max_recent {
        s.subrange(s.len() - max_recent, s.len() as int)
    } else {
        s
    }
}

/// Recent frames after offering `f`.
pub open spec fn spec_cache_push(
    recent: Seq<Arc<Frame>>,
    f: Frame,
    max_recent: nat,
    max_bytes: nat,
    max_frame_bytes: nat,
) -> Seq<Arc<Frame>> {
    if f.jpeg@.len() > max_frame_bytes {
        recent
    } else {
        evict_for_count(evict_for_bytes(recent.push(Arc::new(f)), max_bytes), max_recent)
    }
}

/// Frames cache of one device.
pub struct VideoCache {
    tx: broadcast::Sender<Arc<Frame>>,
    recent: VecDeque<Arc<Frame>>,
    max_recent: usize,
    max_bytes: usize,
    max_frame_bytes: usize,
}

proof fn lemma_frames_bytes_drop_first(s: Seq<Arc<Frame>>)
    requires
        s.len() > 0,
    ensures
        frames_bytes(s) == s[0].jpeg@.len() + frames_bytes(s.drop_first()),
    decreases s.len(),
{
    if s.len() > 1 {
        lemma_frames_bytes_drop_first(s.drop_last());
        assert(s.drop_last().drop_first() =~= s.drop_first().drop_last());
    } else {
        assert(s.drop_first() =~= Seq::<Arc<Frame>>::empty());
        assert(s.drop_last() =~= Seq::<Arc<Frame>>::empty());
    }
}

proof fn lemma_frames_bytes_subrange(s: Seq<Arc<Frame>>, k: int)
    requires
        0 <= k <= s.len(),
    ensures
        frames_bytes(s.subrange(k, s.len() as int)) <= frames_bytes(s),
    decreases k,
{
    if k > 0 {
        lemma_frames_bytes_drop_first(s);
        lemma_frames_bytes_subrange(s.drop_first(), k - 1);
        assert(s.drop_first().subrange(k - 1, s.len() - 1) =~= s.subrange(k, s.len() as int));
    } else {
        assert(s.subrange(0, s.len() as int) =~= s);
    }
}

proof fn lemma_evict_for_bytes(s: Seq<Arc<Frame>>, max_bytes: nat) -> (k: int)
    ensures
        frames_bytes(evict_for_bytes(s, max_bytes)) <= max_bytes || evict_for_bytes(
            s,
            max_bytes,
        ).len() <= 1,
        frames_bytes(evict_for_bytes(s, max_bytes)) <= frames_bytes(s),
        s.len() > 0 ==> evict_for_bytes(s, max_bytes).len() > 0 && evict_for_bytes(
            s,
            max_bytes,
        ).last() == s.last(),
        0 <= k <= s.len(),
        evict_for_bytes(s, max_bytes) == s.subrange(k, s.len() as int),
    decreases s.len(),
{
    if frames_bytes(s) > max_bytes && s.len() > 1 {
        let k = lemma_evict_for_bytes(s.drop_first(), max_bytes);
        lemma_frames_bytes_drop_first(s);
        assert(s.drop_first().subrange(k, s.len() - 1) =~= s.subrange(k + 1, s.len() as int));
        k + 1
    } else {
        assert(s.subrange(0, s.len() as int) =~= s);
        0
    }
}

/// A frame within the size limit is always kept, as the newest frame, even
/// when older frames must go to respect the byte and count limits (given
/// room for at least one frame).
pub proof fn lemma_cache_keeps_newest(
    recent: Seq<Arc<Frame>>,
    f: Frame,
    max_recent: nat,
    max_bytes: nat,
    max_frame_bytes: nat,
)
    requires
        f.jpeg@.len() <= max_frame_bytes,
        max_recent >= 1,
    ensures
        spec_cache_push(recent, f, max_recent, max_bytes, max_frame_bytes).len() >= 1,
        spec_cache_push(recent, f, max_recent, max_bytes, max_frame_bytes).last() == Arc::new(f),
        spec_cache_push(recent, f, max_recent, max_bytes, max_frame_bytes).len() <= max_recent,
{
    let s = recent.push(Arc::new(f));
    let _ = lemma_evict_for_bytes(s, max_bytes);
    let e = evict_for_bytes(s, max_bytes);
    if e.len() > max_recent {
        assert(e.subrange(e.len() - max_recent, e.len() as int).last() == e.last());
    }
}

/// At most `max_recent` frames of at most `max_bytes` bytes in all.
pub open spec fn within_limits(s: Seq<Arc<Frame>>, max_recent: nat, max_bytes: nat) -> bool {
    s.len() <= max_recent && frames_bytes(s) <= max_bytes
}

/// The longest suffix of `s` within the limits (oldest frames go first).
pub open spec fn keep_suffix(s: Seq<Arc<Frame>>, max_recent: nat, max_bytes: nat) -> Seq<Arc<Frame>>
    decreases s.len(),
{
    if within_limits(s, max_recent, max_bytes) || s.len() == 0 {
        s
    } else {
        keep_suffix(s.drop_first(), max_recent, max_bytes)
    }
}

/// Recent frames after pushing each of `fs`, in turn, onto an empty cache.
pub open spec fn cache_after(
    fs: Seq<Frame>,
    max_recent: nat,
    max_bytes: nat,
    max_frame_bytes: nat,
) -> Seq<Arc<Frame>>
    decreases fs.len(),
{
    if fs.len() == 0 {
        Seq::<Arc<Frame>>::empty()
    } else {
        spec_cache_push(
            cache_after(fs.drop_last(), max_recent, max_bytes, max_frame_bytes),
            fs.last(),
            max_recent,
            max_bytes,
            max_frame_bytes,
        )
    }
}

/// The frames `fs`, each behind its own `Arc`.
pub open spec fn arcs(fs: Seq<Frame>) -> Seq<Arc<Frame>> {
    fs.map_values(|f: Frame| Arc::new(f))
}

proof fn lemma_single_bytes(s: Seq<Arc<Frame>>)
    requires
        s.len() == 1,
    ensures
        frames_bytes(s) == s.last().jpeg@.len(),
{
    assert(s.drop_last() =~= Seq::<Arc<Frame>>::empty());
    assert(frames_bytes(s.drop_last()) == 0);
}

/// Evicting by bytes, then by count, keeps the longest suffix within the
/// limits, when the newest frame fits the byte budget by itself.
proof fn lemma_evict_is_keep(s: Seq<Arc<Frame>>, max_recent: nat, max_bytes: nat)
    requires
        s.len() > 0,
        s.last().jpeg@.len() <= max_bytes,
        max_recent >= 1,
    ensures
        evict_for_count(evict_for_bytes(s, max_bytes), max_recent) == keep_suffix(
            s,
            max_recent,
            max_bytes,
        ),
    decreases s.len(),
{
    if within_limits(s, max_recent, max_bytes) {
        return;
    }
    let t = s.drop_first();
    if frames_bytes(s) > max_bytes {
        if s.len() == 1 {
            lemma_single_bytes(s);
        }
        assert(t.last() == s.last());
        lemma_evict_is_keep(t, max_recent, max_bytes);
    } else {
        lemma_frames_bytes_drop_first(s);
        if s.len() == 1 {
            assert(t =~= Seq::<Arc<Frame>>::empty());
            assert(keep_suffix(t, max_recent, max_bytes) == t);
        } else {
            assert(t.last() == s.last());
            lemma_evict_is_keep(t, max_recent, max_bytes);
        }
        assert(evict_for_count(t, max_recent) =~= s.subrange(
            s.len() - max_recent,
            s.len() as int,
        ));
    }
}

/// Keeping the longest suffix, then adding a frame and keeping again, is
/// keeping the longest suffix of the whole run.
proof fn lemma_keep_then_push(h: Seq<Arc<Frame>>, x: Arc<Frame>, max_recent: nat, max_bytes: nat)
    ensures
        keep_suffix(keep_suffix(h, max_recent, max_bytes).push(x), max_recent, max_bytes)
            == keep_suffix(h.push(x), max_recent, max_bytes),
    decreases h.len(),
{
    if within_limits(h, max_recent, max_bytes) || h.len() == 0 {
        return;
    }
    let hx = h.push(x);
    assert(hx.drop_last() =~= h);
    assert(!within_limits(hx, max_recent, max_bytes));
    assert(hx.drop_first() =~= h.drop_first().push(x));
    lemma_keep_then_push(h.drop_first(), x, max_recent, max_bytes);
}

/// Over any run of pushes onto an empty cache of frames that each fit both
/// the frame limit and the byte budget, the cache holds the longest suffix of
/// the run within the count and byte limits; so both limits hold and the
/// newest frame is the last pushed.
pub proof fn lemma_cache_keeps_longest_suffix(
    fs: Seq<Frame>,
    max_recent: nat,
    max_bytes: nat,
    max_frame_bytes: nat,
)
    requires
        max_recent >= 1,
        forall|i: int|
            0 <= i < fs.len() ==> (#[trigger] fs[i]).jpeg@.len() <= max_frame_bytes
                && fs[i].jpeg@.len() <= max_bytes,
    ensures
        cache_after(fs, max_recent, max_bytes, max_frame_bytes) == keep_suffix(
            arcs(fs),
            max_recent,
            max_bytes,
        ),
        within_limits(cache_after(fs, max_recent, max_bytes, max_frame_bytes), max_recent, max_bytes),
        fs.len() > 0 ==> cache_after(fs, max_recent, max_bytes, max_frame_bytes).len() > 0
            && cache_after(fs, max_recent, max_bytes, max_frame_bytes).last() == Arc::new(fs.last()),
    decreases fs.len(),
{
    if fs.len() == 0 {
        assert(arcs(fs) =~= Seq::<Arc<Frame>>::empty());
        return;
    }
    let init = fs.drop_last();
    let f = fs.last();
    assert forall|i: int| 0 <= i < init.len() implies (#[trigger] init[i]).jpeg@.len()
        <= max_frame_bytes && init[i].jpeg@.len() <= max_bytes by {
        assert(init[i] == fs[i]);
    }
    lemma_cache_keeps_longest_suffix(init, max_recent, max_bytes, max_frame_bytes);
    let p = cache_after(init, max_recent, max_bytes, max_frame_bytes);
    assert(f.jpeg@.len() <= max_bytes && f.jpeg@.len() <= max_frame_bytes) by {
        assert(fs[fs.len() - 1] == f);
    }
    let s = p.push(Arc::new(f));
    assert(s.last() == Arc::new(f));
    lemma_evict_is_keep(s, max_recent, max_bytes);
    assert(arcs(fs) =~= arcs(init).push(Arc::new(f)));
    lemma_keep_then_push(arcs(init), Arc::new(f), max_recent, max_bytes);
    lemma_cache_keeps_newest(p, f, max_recent, max_bytes, max_frame_bytes);
    lemma_keep_within(arcs(fs), max_recent, max_bytes);
}

proof fn lemma_keep_within(s: Seq<Arc<Frame>>, max_recent: nat, max_bytes: nat)
    ensures
        within_limits(keep_suffix(s, max_recent, max_bytes), max_recent, max_bytes),
    decreases s.len(),
{
    if s.len() == 0 {
        assert(frames_bytes(s) == 0);
    } else if !within_limits(s, max_recent, max_bytes) {
        lemma_keep_within(s.drop_first(), max_recent, max_bytes);
    }
}

impl VideoCache {
    /// Frames kept, oldest first.
    pub closed spec fn recent_view(&self) -> Seq<Arc<Frame>> {
        self.recent@
    }

    /// The broadcast channel's sending half.
    pub closed spec fn channel(&self) -> broadcast::Sender<Arc<Frame>> {
        self.tx
    }

    pub closed spec fn max_recent_spec(&self) -> nat {
        self.max_recent as nat
    }

    pub closed spec fn max_bytes_spec(&self) -> nat {
        self.max_bytes as nat
    }

    pub closed spec fn max_frame_bytes_spec(&self) -> nat {
        self.max_frame_bytes as nat
    }

    /// The cache's standing limits hold: at most `max_recent` frames, each no
    /// larger than `max_frame_bytes`, together within `max_bytes` unless a
    /// single frame is left; and the limits are small enough to add up.
    #[verifier::type_invariant]
    closed spec fn wf(&self) -> bool {
        &&& self.recent@.len() <= self.max_recent
        &&& forall|i: int|
            0 <= i < self.recent@.len() ==> (#[trigger] self.recent@[i]).jpeg@.len()
                <= self.max_frame_bytes
        &&& (frames_bytes(self.recent@) <= self.max_bytes || self.recent@.len() <= 1)
        &&& self.max_bytes + 2 * self.max_frame_bytes <= usize::MAX
    }

    /// An empty cache whose broadcast channel holds `capacity` frames.
    pub fn new(capacity: usize, max_recent: usize, max_bytes: usize, max_frame_bytes: usize) -> (c: Self)
        requires
            0 < capacity <= usize::MAX / 2,
            max_bytes + 2 * max_frame_bytes <= usize::MAX,
        ensures
            c.recent_view() == Seq::<Arc<Frame>>::empty(),
            c.max_recent_spec() == max_recent,
            c.max_bytes_spec() == max_bytes,
            c.max_frame_bytes_spec() == max_frame_bytes,
    {
        VideoCache {
            tx: broadcast_sender(capacity),
            recent: VecDeque::new(),
            max_recent,
            max_bytes,
            max_frame_bytes,
        }
    }

    /// Offers a frame: frames above `max_frame_bytes` are dropped; otherwise
    /// the frame is kept as the newest, the oldest frames are dropped while
    /// the byte total exceeds `max_bytes` (the newest always stays), then
    /// while more than `max_recent` remain.  Returns the frame to broadcast
    /// to the subscribers (on `sender()`), `None` when it was dropped.
    pub fn push(&mut self, frame: Frame) -> (out: Option<Arc<Frame>>)
        ensures
            out == (if frame.jpeg@.len() > old(self).max_frame_bytes_spec() {
                None
            } else {
                Some(Arc::new(frame))
            }),
            final(self).channel() == old(self).channel(),
            final(self).recent_view().len() <= final(self).max_recent_spec(),
            frames_bytes(final(self).recent_view()) <= final(self).max_bytes_spec() || final(self).recent_view().len() <= 1,
            final(self).recent_view() == spec_cache_push(
                old(self).recent_view(),
                frame,
                old(self).max_recent_spec(),
                old(self).max_bytes_spec(),
                old(self).max_frame_bytes_spec(),
            ),
            final(self).max_recent_spec() == old(self).max_recent_spec(),
            final(self).max_bytes_spec() == old(self).max_bytes_spec(),
            final(self).max_frame_bytes_spec() == old(self).max_frame_bytes_spec(),
    {
        proof {
            use_type_invariant(&*self);
        }
        if frame.jpeg.len() > self.max_frame_bytes {
            return None;
        }
        let ghost f = frame;
        let arc = Arc::new(frame);
        let mut q: VecDeque<Arc<Frame>> = VecDeque::new();
        std::mem::swap(&mut q, &mut self.recent);
        let ghost before = q@;
        q.push_back(arc_clone(&arc));
        let ghost pushed = q@;
        assert(pushed == before.push(Arc::new(f)));
        proof {
            assert(pushed.drop_last() =~= before);
            assert(frames_bytes(pushed) == frames_bytes(before) + f.jpeg@.len());
            if before.len() == 1 {
                assert(before.drop_last() =~= Seq::<Arc<Frame>>::empty());
                assert(frames_bytes(before.drop_last()) == 0);
                assert(frames_bytes(before) == before[0].jpeg@.len());
            }
            if before.len() == 0 {
                assert(frames_bytes(before) == 0);
            }
        }
        let mut total: usize = 0;
        let n = q.len();
        let mut k: usize = 0;
        while k < n
            invariant
                self.max_recent == old(self).max_recent,
                self.max_bytes == old(self).max_bytes,
                self.max_frame_bytes == old(self).max_frame_bytes,
                f.jpeg@.len() <= self.max_frame_bytes,
                n == q@.len(),
                q@ == pushed,
                k <= n,
                total as nat == frames_bytes(pushed.subrange(0, k as int)),
                frames_bytes(pushed) <= self.max_bytes + 2 * self.max_frame_bytes,
                self.max_bytes + 2 * self.max_frame_bytes <= usize::MAX,
            decreases n - k,
        {
            assert(pushed.subrange(0, k + 1).drop_last() =~= pushed.subrange(0, k as int));
            proof {
                lemma_frames_bytes_prefix(pushed, k + 1);
            }
            total = total + q[k].jpeg.len();
            k += 1;
        }
        assert(pushed.subrange(0, n as int) =~= pushed);
        while total > self.max_bytes && q.len() > 1
            invariant
                self.max_recent == old(self).max_recent,
                self.max_bytes == old(self).max_bytes,
                self.max_frame_bytes == old(self).max_frame_bytes,
                f.jpeg@.len() <= self.max_frame_bytes,
                total as nat == frames_bytes(q@),
                evict_for_bytes(q@, self.max_bytes as nat) == evict_for_bytes(
                    pushed,
                    self.max_bytes as nat,
                ),
            decreases q@.len(),
        {
            proof {
                lemma_frames_bytes_drop_first(q@);
            }
            let old_frame = q.pop_front();
            match old_frame {
                Some(o) => {
                    total = total - o.jpeg.len();
                },
                None => {},
            }
        }
        let ghost evicted = q@;
        assert(evicted == evict_for_bytes(pushed, self.max_bytes as nat));
        let ghost kk = lemma_evict_for_bytes(pushed, self.max_bytes as nat);
        assert forall|i: int| 0 <= i < evicted.len() implies (#[trigger] evicted[i]).jpeg@.len()
            <= self.max_frame_bytes by {
            assert(evicted[i] == pushed[kk + i]);
            if kk + i < before.len() {
                assert(pushed[kk + i] == before[kk + i]);
                assert(old(self).recent@[kk + i].jpeg@.len() <= old(self).max_frame_bytes);
            } else {
                assert(pushed[kk + i] == Arc::new(f));
                assert(f.jpeg@.len() <= self.max_frame_bytes);
            }
        }
        while q.len() > self.max_recent
            invariant
                self.max_recent == old(self).max_recent,
                self.max_bytes == old(self).max_bytes,
                self.max_frame_bytes == old(self).max_frame_bytes,
                f.jpeg@.len() <= self.max_frame_bytes,
                evict_for_count(q@, self.max_recent as nat) == evict_for_count(
                    evicted,
                    self.max_recent as nat,
                ),
            decreases q@.len(),
        {
            let ghost cur = q@;
            let _ = q.pop_front();
            assert(evict_for_count(q@, self.max_recent as nat) =~= evict_for_count(cur, self.max_recent as nat));
        }
        proof {
            let fin = q@;
            assert(fin == evict_for_count(evicted, self.max_recent as nat));
            let d = evicted.len() - fin.len();
            assert(fin =~= evicted.subrange(d, evicted.len() as int));
            lemma_frames_bytes_subrange(evicted, d);
            assert forall|i: int| 0 <= i < fin.len() implies (#[trigger] fin[i]).jpeg@.len()
                <= self.max_frame_bytes by {
                assert(fin[i] == evicted[d + i]);
            }
        }
        self.recent = q;
        Some(arc)
    }

    /// The channel that carries this device's frames to its subscribers.
    pub fn sender(&self) -> (tx: &broadcast::Sender<Arc<Frame>>)
        ensures
            *tx == self.channel(),
    {
        &self.tx
    }

    /// A receiver of the frames sent on `sender()` from now on.
    pub fn subscribe(&self) -> broadcast::Receiver<Arc<Frame>> {
        broadcast_subscribe(&self.tx)
    }

    /// The newest frame kept, if any.
    pub fn latest(&self) -> (r: Option<Arc<Frame>>)
        ensures
            r == (if self.recent_view().len() == 0 {
                None
            } else {
                Some(self.recent_view().last())
            }),
    {
        let n = self.recent.len();
        if n == 0 {
            None
        } else {
            Some(arc_clone(&self.recent[n - 1]))
        }
    }

    /// Size limit of a single frame.
    pub fn max_frame_bytes(&self) -> (n: usize)
        ensures
            n == self.max_frame_bytes_spec(),
    {
        self.max_frame_bytes
    }

    /// Number of frames kept.
    pub fn recent_len(&self) -> (n: usize)
        ensures
            n == self.recent_view().len(),
    {
        self.recent.len()
    }

    /// Total JPEG bytes kept.
    pub fn recent_bytes(&self) -> (n: usize)
        ensures
            n == frames_bytes(self.recent_view()),
    {
        proof {
            use_type_invariant(self);
        }
        let ghost s = self.recent@;
        proof {
            if s.len() == 1 {
                assert(s.drop_last() =~= Seq::<Arc<Frame>>::empty());
                assert(frames_bytes(s.drop_last()) == 0);
                assert(s[0].jpeg@.len() <= self.max_frame_bytes);
            }
        }
        let mut total: usize = 0;
        let n = self.recent.len();
        let mut k: usize = 0;
        while k < n
            invariant
                n == s.len(),
                s == self.recent@,
                k <= n,
                total as nat == frames_bytes(s.subrange(0, k as int)),
                frames_bytes(s) <= self.max_bytes + self.max_frame_bytes,
                self.max_bytes + 2 * self.max_frame_bytes <= usize::MAX,
            decreases n - k,
        {
            assert(s.subrange(0, k + 1).drop_last() =~= s.subrange(0, k as int));
            proof {
                lemma_frames_bytes_prefix(s, k + 1);
            }
            total = total + self.recent[k].jpeg.len();
            k += 1;
        }
        assert(s.subrange(0, n as int) =~= s);
        total
    }
}

proof fn lemma_frames_bytes_prefix(s: Seq<Arc<Frame>>, k: int)
    requires
        0 <= k <= s.len(),
    ensures
        frames_bytes(s.subrange(0, k)) <= frames_bytes(s),
    decreases s.len() - k,
{
    if k < s.len() {
        lemma_frames_bytes_prefix(s, k + 1);
        assert(s.subrange(0, k + 1).drop_last() =~= s.subrange(0, k));
    } else {
        assert(s.subrange(0, k) =~= s);
    }
}

} // verus!
