//! Tracking of in-flight requests: de-duplication, peer selection and retries.
use crate::packet::{MessageId, Packet, PacketView, MESSAGE_ID_LENGTH};
use crate::peer::PeerId;
use vstd::prelude::*;

verus! {

/// What is requested from peers: a message by identifier, or a milestone by index.
#[derive(Clone, Copy, Debug)]
pub enum RequestKey {
    Message(MessageId),
    Milestone(u32),
}

/// Whether two keys name the same thing.
pub fn same_key(a: &RequestKey, b: &RequestKey) -> (r: bool)
    ensures
        r == (*a == *b),
{
    match a {
        RequestKey::Message(x) => match b {
            RequestKey::Message(y) => {
                let mut i: usize = 0;
                while i < MESSAGE_ID_LENGTH
                    invariant
                        i <= MESSAGE_ID_LENGTH,
                        *a == RequestKey::Message(*x),
                        *b == RequestKey::Message(*y),
                        forall|j: int| 0 <= j < i ==> x@[j] == y@[j],
                    decreases MESSAGE_ID_LENGTH - i,
                {
                    if x[i] != y[i] {
                        proof {
                            assert(x@[i as int] != y@[i as int]);
                        }
                        return false;
                    }
                    i = i + 1;
                }
                proof {
                    broadcast use vstd::array::group_array_axioms;
                    assert(*x =~= *y);
                }
                true
            },
            RequestKey::Milestone(_) => false,
        },
        RequestKey::Milestone(x) => match b {
            RequestKey::Milestone(y) => *x == *y,
            RequestKey::Message(_) => false,
        },
    }
}

/// The packet that asks a peer for what `key` names.
pub fn request_packet(key: &RequestKey) -> (r: Packet)
    ensures
        r@ == request_packet_view(*key),
{
    match key {
        RequestKey::Message(id) => Packet::MessageRequest { message_id: *id },
        RequestKey::Milestone(index) => Packet::MilestoneRequest { index: *index },
    }
}

pub open spec fn request_packet_view(key: RequestKey) -> PacketView {
    match key {
        RequestKey::Message(id) => PacketView::MessageRequest { message_id: id@ },
        RequestKey::Milestone(index) => PacketView::MilestoneRequest { index },
    }
}

/// Timing and fan-out of requests. Times are in milliseconds.
#[derive(Clone, Copy, Debug, PartialEq, Eq, Structural)]
pub struct RequestConfig {
    /// Time after an attempt before the same request may be sent again.
    pub retry_interval: u64,
    /// Number of attempts after which a request is given up.
    pub retry_ceiling: u32,
    /// Number of peers asked at each attempt.
    pub fanout: usize,
    /// Time after the first attempt after which a request is given up.
    pub request_timeout: u64,
}

/// A pending request: what was asked, of whom, and when.
#[derive(Clone, Debug)]
pub struct PendingRequest {
    pub key: RequestKey,
    pub peers: Vec<PeerId>,
    pub first_requested: u64,
    pub attempts: u32,
    pub last_attempt: u64,
}

pub ghost struct PendingView {
    pub key: RequestKey,
    pub peers: Seq<PeerId>,
    pub first_requested: u64,
    pub attempts: u32,
    pub last_attempt: u64,
}

impl View for PendingRequest {
    type V = PendingView;

    open spec fn view(&self) -> PendingView {
        PendingView {
            key: self.key,
            peers: self.peers@,
            first_requested: self.first_requested,
            attempts: self.attempts,
            last_attempt: self.last_attempt,
        }
    }
}

/// The retry interval has passed since the last attempt.
pub open spec fn is_due(cfg: RequestConfig, e: PendingView, now: u64) -> bool {
    now >= e.last_attempt + cfg.retry_interval
}

/// The request is given up: due again with every attempt spent, or past its timeout.
pub open spec fn is_abandoned(cfg: RequestConfig, e: PendingView, now: u64) -> bool {
    (is_due(cfg, e, now) && e.attempts >= cfg.retry_ceiling) || now >= e.first_requested
        + cfg.request_timeout
}

/// The request may be sent once more.
pub open spec fn may_retry(cfg: RequestConfig, e: PendingView, now: u64) -> bool {
    is_due(cfg, e, now) && !is_abandoned(cfg, e, now)
}

/// Every key stands in at most one entry.
pub open spec fn keys_unique(s: Seq<PendingView>) -> bool {
    forall|i: int, j: int| #![trigger s[i], s[j]] 0 <= i < j < s.len() ==> s[i].key != s[j].key
}

pub open spec fn has_key(s: Seq<PendingView>, key: RequestKey) -> bool {
    exists|i: int| 0 <= i < s.len() && s[i].key == key
}

/// Position of the entry for `key`; meaningful where `has_key(s, key)`.
pub open spec fn key_index(s: Seq<PendingView>, key: RequestKey) -> int {
    choose|i: int| 0 <= i < s.len() && s[i].key == key
}

/// The first `fanout` peers of `s` other than `exclude`, in the order of `s`.
pub open spec fn pick_from(s: Seq<PeerId>, exclude: Option<PeerId>, fanout: nat) -> Seq<PeerId>
    decreases s.len(),
{
    if s.len() == 0 || fanout == 0 {
        Seq::empty()
    } else if exclude == Some(s[0]) {
        pick_from(s.drop_first(), exclude, fanout)
    } else {
        seq![s[0]] + pick_from(s.drop_first(), exclude, (fanout - 1) as nat)
    }
}

/// The fair order of `order` that starts at position `cursor` (modulo its length).
pub open spec fn rotation(order: Seq<PeerId>, cursor: nat) -> Seq<PeerId> {
    let start = (cursor % order.len()) as int;
    order.subrange(start, order.len() as int) + order.subrange(0, start)
}

/// The peers asked at an attempt: round-robin from the cursor, skipping `exclude`.
pub open spec fn select_peers(order: Seq<PeerId>, cursor: nat, exclude: Option<PeerId>, fanout: nat) -> Seq<PeerId> {
    if order.len() == 0 {
        Seq::empty()
    } else {
        pick_from(rotation(order, cursor), exclude, fanout)
    }
}

/// Mathematical model of the tracker.
pub ghost struct TrackerView {
    pub entries: Seq<PendingView>,
    pub cursor: nat,
}

/// One `request`: the tracker afterwards and the peers the request goes to (none if
/// it is not sent).
pub open spec fn request_step(
    cfg: RequestConfig,
    t: TrackerView,
    key: RequestKey,
    exclude: Option<PeerId>,
    order: Seq<PeerId>,
    now: u64,
) -> (TrackerView, Seq<PeerId>) {
    let present = has_key(t.entries, key);
    let i = key_index(t.entries, key);
    if present && !may_retry(cfg, t.entries[i], now) {
        (t, Seq::empty())
    } else {
        let sel = select_peers(order, t.cursor, exclude, cfg.fanout as nat);
        if sel.len() == 0 {
            (t, Seq::empty())
        } else {
            let entries = if present {
                let e = t.entries[i];
                t.entries.update(
                    i,
                    PendingView {
                        peers: e.peers + sel,
                        attempts: (e.attempts + 1) as u32,
                        last_attempt: now,
                        ..e
                    },
                )
            } else {
                t.entries.push(
                    PendingView { key, peers: sel, first_requested: now, attempts: 1, last_attempt: now },
                )
            };
            (TrackerView { entries, cursor: (t.cursor % order.len()) + 1 }, sel)
        }
    }
}

/// The entries that a sweep at `now` keeps, in their order.
pub open spec fn live_entries(cfg: RequestConfig, s: Seq<PendingView>, now: u64) -> Seq<PendingView>
    decreases s.len(),
{
    if s.len() == 0 {
        s
    } else {
        let rest = live_entries(cfg, s.drop_last(), now);
        if is_abandoned(cfg, s.last(), now) {
            rest
        } else {
            rest.push(s.last())
        }
    }
}

/// The keys that a sweep at `now` gives up, in their order.
pub open spec fn abandoned_keys(cfg: RequestConfig, s: Seq<PendingView>, now: u64) -> Seq<RequestKey>
    decreases s.len(),
{
    if s.len() == 0 {
        Seq::empty()
    } else {
        let rest = abandoned_keys(cfg, s.drop_last(), now);
        if is_abandoned(cfg, s.last(), now) {
            rest.push(s.last().key)
        } else {
            rest
        }
    }
}

/// The keys that a sweep at `now` finds due for another attempt, in their order.
pub open spec fn retry_keys(cfg: RequestConfig, s: Seq<PendingView>, now: u64) -> Seq<RequestKey>
    decreases s.len(),
{
    if s.len() == 0 {
        Seq::empty()
    } else {
        let rest = retry_keys(cfg, s.drop_last(), now);
        if may_retry(cfg, s.last(), now) {
            rest.push(s.last().key)
        } else {
            rest
        }
    }
}

/// Every entry that a sweep keeps was in the table before.
pub proof fn lemma_live_entries_from(cfg: RequestConfig, s: Seq<PendingView>, now: u64)
    ensures
        forall|x: PendingView| #[trigger] live_entries(cfg, s, now).contains(x) ==> s.contains(x) && !is_abandoned(cfg, x, now),
        keys_unique(s) ==> keys_unique(live_entries(cfg, s, now)),
    decreases s.len(),
{
    if s.len() > 0 {
        let d = s.drop_last();
        lemma_live_entries_from(cfg, d, now);
        let rest = live_entries(cfg, d, now);
        assert forall|x: PendingView| #[trigger] live_entries(cfg, s, now).contains(x) implies s.contains(x) && !is_abandoned(cfg, x, now) by {
            let l = live_entries(cfg, s, now);
            let k = choose|k: int| 0 <= k < l.len() && l[k] == x;
            if k < rest.len() {
                assert(rest.contains(x));
                let j = choose|j: int| 0 <= j < d.len() && d[j] == x;
                assert(s[j] == x);
            } else {
                assert(s[s.len() - 1] == x);
            }
        }
        if keys_unique(s) {
            assert(keys_unique(d));
            if !is_abandoned(cfg, s.last(), now) {
                let l = live_entries(cfg, s, now);
                assert forall|i: int, j: int| 0 <= i < j < l.len() implies l[i].key != l[j].key by {
                    if j == l.len() - 1 {
                        assert(rest.contains(l[i]));
                        let m = choose|m: int| 0 <= m < d.len() && d[m] == l[i];
                        assert(s[m] == l[i]);
                    } else {
                        assert(rest[i] == l[i] && rest[j] == l[j]);
                    }
                }
            }
        }
    }
}

/// A key that is not in the table is found neither due nor abandoned by a sweep.
pub proof fn lemma_sweep_keys_from(cfg: RequestConfig, s: Seq<PendingView>, now: u64, key: RequestKey)
    requires
        !has_key(s, key),
    ensures
        !retry_keys(cfg, s, now).contains(key),
        !abandoned_keys(cfg, s, now).contains(key),
    decreases s.len(),
{
    if s.len() > 0 {
        let d = s.drop_last();
        assert(!has_key(d, key)) by {
            if has_key(d, key) {
                let i = choose|i: int| 0 <= i < d.len() && d[i].key == key;
                assert(s[i].key == key);
            }
        }
        lemma_sweep_keys_from(cfg, d, now, key);
        assert(s.last().key != key) by {
            assert(s[s.len() - 1].key == s.last().key);
        }
    }
}

/// A sweep gives up each entry that is abandoned, lists each entry that may be retried,
/// and keeps every entry that is not abandoned.
pub proof fn lemma_sweep_classifies(cfg: RequestConfig, s: Seq<PendingView>, now: u64, i: int)
    requires
        0 <= i < s.len(),
    ensures
        is_abandoned(cfg, s[i], now) ==> abandoned_keys(cfg, s, now).contains(s[i].key),
        !is_abandoned(cfg, s[i], now) ==> live_entries(cfg, s, now).contains(s[i]),
        may_retry(cfg, s[i], now) ==> retry_keys(cfg, s, now).contains(s[i].key),
    decreases s.len(),
{
    let d = s.drop_last();
    if i < s.len() - 1 {
        lemma_sweep_classifies(cfg, d, now, i);
        assert(d[i] == s[i]);
        let a = abandoned_keys(cfg, d, now);
        let l = live_entries(cfg, d, now);
        let r = retry_keys(cfg, d, now);
        if a.contains(s[i].key) {
            let k = choose|k: int| 0 <= k < a.len() && a[k] == s[i].key;
            assert(abandoned_keys(cfg, s, now)[k] == s[i].key);
        }
        if l.contains(s[i]) {
            let k = choose|k: int| 0 <= k < l.len() && l[k] == s[i];
            assert(live_entries(cfg, s, now)[k] == s[i]);
        }
        if r.contains(s[i].key) {
            let k = choose|k: int| 0 <= k < r.len() && r[k] == s[i].key;
            assert(retry_keys(cfg, s, now)[k] == s[i].key);
        }
    } else {
        assert(s.last() == s[i]);
        let a = abandoned_keys(cfg, s, now);
        let l = live_entries(cfg, s, now);
        let r = retry_keys(cfg, s, now);
        if is_abandoned(cfg, s[i], now) {
            assert(a[a.len() - 1] == s[i].key);
        } else {
            assert(l[l.len() - 1] == s[i]);
        }
        if may_retry(cfg, s[i], now) {
            assert(r[r.len() - 1] == s[i].key);
        }
    }
}

/// De-duplication: once a request for `key` has gone out at `sent_at`, a second request
/// for it before the retry interval has passed sends nothing and changes nothing.
pub proof fn lemma_request_deduplicated(
    cfg: RequestConfig,
    t: TrackerView,
    key: RequestKey,
    exclude: Option<PeerId>,
    order: Seq<PeerId>,
    sent_at: u64,
    exclude2: Option<PeerId>,
    order2: Seq<PeerId>,
    now: u64,
)
    requires
        keys_unique(t.entries),
        request_step(cfg, t, key, exclude, order, sent_at).1.len() > 0,
        sent_at <= now < sent_at + cfg.retry_interval,
    ensures
        ({
            let t1 = request_step(cfg, t, key, exclude, order, sent_at).0;
            request_step(cfg, t1, key, exclude2, order2, now) == (t1, Seq::<PeerId>::empty())
        }),
{
    let t1 = request_step(cfg, t, key, exclude, order, sent_at).0;
    let s = t1.entries;
    let pos = if has_key(t.entries, key) { key_index(t.entries, key) } else { t.entries.len() as int };
    assert(s[pos].key == key && s[pos].last_attempt == sent_at);
    assert(has_key(s, key));
    let j = key_index(s, key);
    if j != pos {
        if j < t.entries.len() {
            assert(s[j] == t.entries[j]);
            if has_key(t.entries, key) {
                assert(t.entries[pos].key == key);
                if j < pos {
                    assert(t.entries[j].key != t.entries[pos].key);
                } else {
                    assert(t.entries[pos].key != t.entries[j].key);
                }
            }
        }
    }
    assert(!is_due(cfg, s[j], now));
}

/// Retries stop at the ceiling: a pending request that has spent every attempt is not
/// sent again, whatever the peers and the time.
pub proof fn lemma_ceiling_stops_requests(
    cfg: RequestConfig,
    t: TrackerView,
    key: RequestKey,
    exclude: Option<PeerId>,
    order: Seq<PeerId>,
    now: u64,
)
    requires
        has_key(t.entries, key),
        t.entries[key_index(t.entries, key)].attempts >= cfg.retry_ceiling,
    ensures
        request_step(cfg, t, key, exclude, order, now) == (t, Seq::<PeerId>::empty()),
{
}

/// A pending request with no answer is sent again once the retry interval has passed,
/// while attempts remain: a sweep lists it, keeps it, and the next request goes out to
/// the selected peers and counts one more attempt.
pub proof fn lemma_due_request_resent(
    cfg: RequestConfig,
    t: TrackerView,
    key: RequestKey,
    exclude: Option<PeerId>,
    order: Seq<PeerId>,
    now: u64,
)
    requires
        keys_unique(t.entries),
        has_key(t.entries, key),
        ({
            let e = t.entries[key_index(t.entries, key)];
            &&& now >= e.last_attempt + cfg.retry_interval
            &&& e.attempts < cfg.retry_ceiling
            &&& now < e.first_requested + cfg.request_timeout
        }),
        select_peers(order, t.cursor, exclude, cfg.fanout as nat).len() > 0,
    ensures
        retry_keys(cfg, t.entries, now).contains(key),
        live_entries(cfg, t.entries, now).contains(t.entries[key_index(t.entries, key)]),
        ({
            let e = t.entries[key_index(t.entries, key)];
            let (t1, sent) = request_step(cfg, t, key, exclude, order, now);
            &&& sent == select_peers(order, t.cursor, exclude, cfg.fanout as nat)
            &&& t1.entries[key_index(t.entries, key)].attempts == e.attempts + 1
            &&& t1.entries[key_index(t.entries, key)].last_attempt == now
        }),
{
    lemma_sweep_classifies(cfg, t.entries, now, key_index(t.entries, key));
}

/// A request given up by a sweep leaves the table, and no later sweep lists it again.
pub proof fn lemma_abandoned_not_retried(cfg: RequestConfig, s: Seq<PendingView>, now: u64, key: RequestKey, later: u64)
    requires
        keys_unique(s),
        has_key(s, key),
        is_abandoned(cfg, s[key_index(s, key)], now),
    ensures
        abandoned_keys(cfg, s, now).contains(key),
        !has_key(live_entries(cfg, s, now), key),
        !retry_keys(cfg, live_entries(cfg, s, now), later).contains(key),
        !abandoned_keys(cfg, live_entries(cfg, s, now), later).contains(key),
{
    let i = key_index(s, key);
    lemma_sweep_classifies(cfg, s, now, i);
    lemma_live_entries_from(cfg, s, now);
    let l = live_entries(cfg, s, now);
    if has_key(l, key) {
        let k = choose|k: int| 0 <= k < l.len() && l[k].key == key;
        assert(l.contains(l[k]));
        let m = choose|m: int| 0 <= m < s.len() && s[m] == l[k];
        if m != i {
            if m < i {
                assert(s[m].key != s[i].key);
            } else {
                assert(s[i].key != s[m].key);
            }
        }
    }
    lemma_sweep_keys_from(cfg, l, later, key);
}

/// The in-flight requests of this node.
pub struct RequestTracker {
    config: RequestConfig,
    entries: Vec<PendingRequest>,
    cursor: usize,
}

impl View for RequestTracker {
    type V = TrackerView;

    closed spec fn view(&self) -> TrackerView {
        TrackerView { entries: self.view_entries(), cursor: self.cursor as nat }
    }
}

impl RequestTracker {
    pub closed spec fn spec_config(self) -> RequestConfig {
        self.config
    }

    /// The timing and fan-out this tracker was made with.
    pub fn config(&self) -> (r: RequestConfig)
        ensures
            r == self.spec_config(),
    {
        self.config
    }

    pub closed spec fn view_entries(self) -> Seq<PendingView> {
        self.entries@.map_values(|e: PendingRequest| e@)
    }

    /// Well-formed: one entry per key.
    pub open spec fn wf(self) -> bool {
        keys_unique(self@.entries)
    }

    /// A tracker with no pending request.
    pub fn new(config: RequestConfig) -> (r: Self)
        ensures
            r.wf(),
            r.spec_config() == config,
            r@.entries == Seq::<PendingView>::empty(),
            r@.cursor == 0,
    {
        let r = RequestTracker { config, entries: Vec::new(), cursor: 0 };
        assert(r.view_entries() =~= Seq::<PendingView>::empty());
        r
    }

    /// Number of pending requests.
    pub fn len(&self) -> (r: usize)
        ensures
            r == self@.entries.len(),
    {
        self.entries.len()
    }

    /// Position of the entry for `key`, if any.
    fn find(&self, key: &RequestKey) -> (r: Option<usize>)
        requires
            self.wf(),
        ensures
            match r {
                Some(i) => has_key(self@.entries, *key) && i == key_index(
                    self@.entries,
                    *key,
                ) && i < self.entries@.len(),
                None => !has_key(self@.entries, *key),
            },
    {
        let ghost s = self@.entries;
        let mut i: usize = 0;
        while i < self.entries.len()
            invariant
                i <= self.entries@.len(),
                s == self@.entries,
                keys_unique(s),
                s.len() == self.entries@.len(),
                forall|j: int| 0 <= j < i ==> s[j].key != *key,
            decreases self.entries@.len() - i,
        {
            if same_key(&self.entries[i].key, key) {
                proof {
                    assert(s[i as int].key == *key);
                    assert(keys_unique(s));
                    let k = key_index(s, *key);
                    assert(s[k].key == *key);
                    if k != i {
                        if k < i {
                        } else {
                            assert(s[i as int].key != s[k].key);
                        }
                    }
                }
                return Some(i);
            }
            i = i + 1;
        }
        None
    }

    /// Whether a request for `key` is pending.
    pub fn is_pending(&self, key: &RequestKey) -> (r: bool)
        requires
            self.wf(),
        ensures
            r == has_key(self@.entries, *key),
    {
        self.find(key).is_some()
    }

    /// Marks what `key` names as arrived: its entry is removed. Returns whether a request
    /// for it was pending.
    pub fn receive(&mut self, key: &RequestKey) -> (r: bool)
        requires
            old(self).wf(),
        ensures
            final(self).wf(),
            final(self).spec_config() == old(self).spec_config(),
            r == has_key(old(self)@.entries, *key),
            final(self)@ == receive_step(old(self)@, *key),
    {
        match self.find(key) {
            Some(i) => {
                let ghost s = self@.entries;
                self.entries.remove(i);
                proof {
                    assert(self@.entries =~= s.remove(i as int));
                }
                true
            },
            None => false,
        }
    }

    /// Sends a request for `key` unless one is already in flight.
    ///
    /// A pending request that is not yet due for a retry, or that is given up, is not
    /// sent again. Otherwise the request goes to up to `fanout` peers taken round-robin
    /// from `order`, skipping `exclude`, and the attempt is recorded. Returns the peers
    /// that are to be sent the request: none where nothing is sent.
    pub fn request(
        &mut self,
        key: &RequestKey,
        exclude: Option<PeerId>,
        order: &Vec<PeerId>,
        now: u64,
    ) -> (r: Vec<PeerId>)
        requires
            old(self).wf(),
        ensures
            final(self).wf(),
            final(self).spec_config() == old(self).spec_config(),
            (final(self)@, r@) == request_step(
                old(self).spec_config(),
                old(self)@,
                *key,
                exclude,
                order@,
                now,
            ),
    {
        let ghost t = self@;
        let found = self.find(key);
        if let Some(i) = found {
            if !retry_allowed(&self.config, &self.entries[i], now) {
                return Vec::new();
            }
        }
        let sel = select_peer_ids(order, self.cursor, exclude, self.config.fanout);
        if sel.len() == 0 {
            return Vec::new();
        }
        match found {
            Some(i) => {
                let old_entry = &self.entries[i];
                let mut peers: Vec<PeerId> = Vec::new();
                extend_ids(&mut peers, &old_entry.peers);
                extend_ids(&mut peers, &sel);
                let updated = PendingRequest {
                    key: old_entry.key,
                    peers,
                    first_requested: old_entry.first_requested,
                    attempts: old_entry.attempts + 1,
                    last_attempt: now,
                };
                self.entries.set(i, updated);
                proof {
                    assert(self@.entries =~= request_step(
                        self.config, t, *key, exclude, order@, now).0.entries);
                }
            },
            None => {
                let mut peers: Vec<PeerId> = Vec::new();
                extend_ids(&mut peers, &sel);
                let fresh = PendingRequest {
                    key: *key,
                    peers,
                    first_requested: now,
                    attempts: 1,
                    last_attempt: now,
                };
                self.entries.push(fresh);
                proof {
                    let s = self@.entries;
                    assert(s =~= t.entries.push(fresh@));
                    assert forall|a: int, b: int| #![trigger s[a], s[b]] 0 <= a < b < s.len() implies s[a].key != s[b].key by {
                        if b == s.len() - 1 {
                            assert(t.entries[a].key != *key);
                        } else {
                            assert(t.entries[a] == s[a] && t.entries[b] == s[b]);
                        }
                    }
                }
            },
        }
        self.cursor = self.cursor % order.len() + 1;
        sel
    }

    /// Drops the requests that are given up and lists those due for another attempt.
    ///
    /// Returns the keys due for a retry, which stay pending, and the keys given up, which
    /// leave the table; both in table order.
    pub fn sweep(&mut self, now: u64) -> (r: (Vec<RequestKey>, Vec<RequestKey>))
        requires
            old(self).wf(),
        ensures
            final(self).wf(),
            final(self).spec_config() == old(self).spec_config(),
            final(self)@.cursor == old(self)@.cursor,
            final(self)@.entries == live_entries(
                old(self).spec_config(),
                old(self)@.entries,
                now,
            ),
            r.0@ == retry_keys(old(self).spec_config(), old(self)@.entries, now),
            r.1@ == abandoned_keys(old(self).spec_config(), old(self)@.entries, now),
    {
        let ghost s = self@.entries;
        let ghost cfg = self.config;
        let mut kept: Vec<PendingRequest> = Vec::new();
        let mut due: Vec<RequestKey> = Vec::new();
        let mut gone: Vec<RequestKey> = Vec::new();
        let mut i: usize = 0;
        while i < self.entries.len()
            invariant
                s == self@.entries,
                cfg == self.config,
                s.len() == self.entries@.len(),
                i <= s.len(),
                kept@.map_values(|e: PendingRequest| e@) == live_entries(cfg, s.subrange(0, i as int), now),
                due@ == retry_keys(cfg, s.subrange(0, i as int), now),
                gone@ == abandoned_keys(cfg, s.subrange(0, i as int), now),
            decreases s.len() - i,
        {
            let e = &self.entries[i];
            let ghost before = kept@.map_values(|e: PendingRequest| e@);
            proof {
                assert(s.subrange(0, i + 1).drop_last() =~= s.subrange(0, i as int));
                assert(s.subrange(0, i + 1).last() == s[i as int]);
            }
            if given_up(&self.config, e, now) {
                gone.push(e.key);
            } else {
                if retry_allowed(&self.config, e, now) {
                    due.push(e.key);
                }
                kept.push(copy_entry(e));
                proof {
                    assert(kept@.map_values(|e: PendingRequest| e@) =~= before.push(s[i as int]));
                }
            }
            i = i + 1;
        }
        proof {
            assert(s.subrange(0, s.len() as int) =~= s);
            lemma_live_entries_from(cfg, s, now);
        }
        self.entries = kept;
        (due, gone)
    }
}

/// Whether the retry interval has passed since the last attempt of `e`.
fn retry_due(cfg: &RequestConfig, e: &PendingRequest, now: u64) -> (r: bool)
    ensures
        r == is_due(*cfg, e@, now),
{
    now >= e.last_attempt && now - e.last_attempt >= cfg.retry_interval
}

/// Whether `e` is given up at `now`.
fn given_up(cfg: &RequestConfig, e: &PendingRequest, now: u64) -> (r: bool)
    ensures
        r == is_abandoned(*cfg, e@, now),
{
    (retry_due(cfg, e, now) && e.attempts >= cfg.retry_ceiling) || (now >= e.first_requested
        && now - e.first_requested >= cfg.request_timeout)
}

/// Whether `e` may be sent once more at `now`.
fn retry_allowed(cfg: &RequestConfig, e: &PendingRequest, now: u64) -> (r: bool)
    ensures
        r == may_retry(*cfg, e@, now),
{
    retry_due(cfg, e, now) && !given_up(cfg, e, now)
}

/// A copy of a pending request.
fn copy_entry(e: &PendingRequest) -> (r: PendingRequest)
    ensures
        r@ == e@,
{
    let mut peers: Vec<PeerId> = Vec::new();
    extend_ids(&mut peers, &e.peers);
    PendingRequest {
        key: e.key,
        peers,
        first_requested: e.first_requested,
        attempts: e.attempts,
        last_attempt: e.last_attempt,
    }
}

/// Appends every identifier of `src` to `out`.
fn extend_ids(out: &mut Vec<PeerId>, src: &Vec<PeerId>)
    ensures
        final(out)@ == old(out)@ + src@,
{
    let ghost start = out@;
    let mut i: usize = 0;
    while i < src.len()
        invariant
            i <= src@.len(),
            out@ == start + src@.subrange(0, i as int),
        decreases src@.len() - i,
    {
        out.push(src[i]);
        i = i + 1;
        proof {
            assert(src@.subrange(0, i as int) =~= src@.subrange(0, i - 1) + seq![src@[i - 1]]);
        }
    }
    assert(src@.subrange(0, src@.len() as int) =~= src@);
}

/// The peers asked at an attempt: up to `fanout` of `order`, round-robin from `cursor`,
/// skipping `exclude`.
pub fn select_peer_ids(order: &Vec<PeerId>, cursor: usize, exclude: Option<PeerId>, fanout: usize) -> (r: Vec<PeerId>)
    ensures
        r@ == select_peers(order@, cursor as nat, exclude, fanout as nat),
{
    let mut picked: Vec<PeerId> = Vec::new();
    let n = order.len();
    if n == 0 {
        return picked;
    }
    let start = cursor % n;
    let ghost rot = rotation(order@, cursor as nat);
    let mut i: usize = 0;
    proof {
        assert(rot.subrange(0, n as int) =~= rot);
        assert(picked@ + pick_from(rot, exclude, fanout as nat) =~= pick_from(rot, exclude, fanout as nat));
    }
    while i < n
        invariant
            n == order@.len(),
            n > 0,
            start == cursor % n,
            rot == rotation(order@, cursor as nat),
            rot.len() == n,
            i <= n,
            picked@.len() <= fanout,
            picked@ + pick_from(rot.subrange(i as int, n as int), exclude, (fanout - picked@.len()) as nat)
                == pick_from(rot, exclude, fanout as nat),
        decreases n - i,
    {
        let idx = if i < n - start { start + i } else { i - (n - start) };
        let p = order[idx];
        let skip = match exclude {
            Some(x) => x == p,
            None => false,
        };
        let ghost rest = rot.subrange(i as int, n as int);
        let ghost left = (fanout - picked@.len()) as nat;
        proof {
            assert(rot[i as int] == p);
            assert(rest[0] == p);
            assert(rest.drop_first() =~= rot.subrange(i + 1, n as int));
        }
        if picked.len() < fanout && !skip {
            let ghost prev = picked@;
            picked.push(p);
            proof {
                assert(pick_from(rest, exclude, left) == seq![p] + pick_from(rest.drop_first(), exclude, (left - 1) as nat));
                assert(prev + (seq![p] + pick_from(rest.drop_first(), exclude, (left - 1) as nat))
                    =~= picked@ + pick_from(rest.drop_first(), exclude, (left - 1) as nat));
            }
        }
        i = i + 1;
    }
    proof {
        assert(rot.subrange(n as int, n as int).len() == 0);
        assert(picked@ + Seq::<PeerId>::empty() =~= picked@);
    }
    picked
}

/// One `receive`: the entry for `key`, if any, leaves the table.
pub open spec fn receive_step(t: TrackerView, key: RequestKey) -> TrackerView {
    if has_key(t.entries, key) {
        TrackerView { entries: t.entries.remove(key_index(t.entries, key)), ..t }
    } else {
        t
    }
}

} // verus!
