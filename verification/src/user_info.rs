use vstd::prelude::*;
use std::collections::HashMap;

verus! {

broadcast use vstd::std_specs::hash::group_hash_axioms;

/// Default number of messages retained per user.
pub const DEFAULT_HISTORY_SIZE: usize = 3;

/// How far back (in seconds) history is offered as classifier context.
pub const CONTEXT_WINDOW_SECS: i64 = 300;

/// One remembered message: when it arrived and what it said.
pub struct HistoryEntry {
    pub timestamp: i64,
    pub content: String,
}

/// The retained entries are strictly ascending in time.
pub open spec fn sorted_by_time(h: Seq<HistoryEntry>) -> bool {
    forall|i: int, j: int| 0 <= i < j < h.len() ==> h[i].timestamp < h[j].timestamp
}

/// Some retained entry carries exactly this timestamp.
pub open spec fn has_timestamp(h: Seq<HistoryEntry>, t: i64) -> bool {
    exists|i: int| 0 <= i < h.len() && #[trigger] h[i].timestamp == t
}

/// The position of the first entry whose timestamp is not below `t`.
pub open spec fn insert_index(h: Seq<HistoryEntry>, t: i64) -> int
    decreases h.len(),
{
    if h.len() == 0 {
        0
    } else if h[0].timestamp < t {
        1 + insert_index(h.drop_first(), t)
    } else {
        0
    }
}

proof fn lemma_insert_index_props(h: Seq<HistoryEntry>, t: i64)
    ensures
        0 <= insert_index(h, t) <= h.len(),
        forall|k: int| 0 <= k < insert_index(h, t) ==> h[k].timestamp < t,
        insert_index(h, t) < h.len() ==> h[insert_index(h, t)].timestamp >= t,
    decreases h.len(),
{
    if h.len() == 0 {
    } else if h[0].timestamp < t {
        lemma_insert_index_props(h.drop_first(), t);
        assert(forall|k: int| 1 <= k < h.len() ==> h[k] == h.drop_first()[k - 1]);
    } else {
    }
}

/// What one arrival does to a user's retained history: an arrival into an
/// empty history is kept; one at or before the oldest retained time, or one
/// that duplicates a retained timestamp, is dropped; any other is placed in
/// timestamp order, and the oldest entry is evicted when the capacity would
/// be exceeded.
pub open spec fn spec_push_history(h: Seq<HistoryEntry>, e: HistoryEntry, cap: nat) -> Seq<
    HistoryEntry,
> {
    if h.len() == 0 {
        seq![e]
    } else if e.timestamp <= h[0].timestamp || has_timestamp(h, e.timestamp) {
        h
    } else {
        let inserted = h.insert(insert_index(h, e.timestamp), e);
        if inserted.len() > cap {
            inserted.drop_first()
        } else {
            inserted
        }
    }
}

/// The texts of exactly those entries whose age relative to `time` is below
/// `window`, in stored (chronological) order.
pub open spec fn spec_context(h: Seq<HistoryEntry>, time: i64, window: i64) -> Seq<Seq<char>>
    decreases h.len(),
{
    if h.len() == 0 {
        Seq::empty()
    } else {
        let rest = spec_context(h.drop_last(), time, window);
        if time - h.last().timestamp < window {
            rest.push(h.last().content@)
        } else {
            rest
        }
    }
}

/// The context is exactly the stored entries filtered by age: an entry's
/// text appears, in stored order, precisely when its age relative to `time`
/// is below `window`.
pub proof fn lemma_context_is_filter(h: Seq<HistoryEntry>, time: i64, window: i64)
    ensures
        spec_context(h, time, window) == h.filter(
            |e: HistoryEntry| time - e.timestamp < window,
        ).map_values(|e: HistoryEntry| e.content@),
    decreases h.len(),
{
    reveal(Seq::filter);
    let pred = |e: HistoryEntry| time - e.timestamp < window;
    let text = |e: HistoryEntry| e.content@;
    if h.len() == 0 {
        assert(h.filter(pred).map_values(text) =~= Seq::<Seq<char>>::empty());
    } else {
        let p = h.drop_last();
        let e = h.last();
        lemma_context_is_filter(p, time, window);
        if pred(e) {
            assert(h.filter(pred) == p.filter(pred).push(e));
            assert(p.filter(pred).push(e).map_values(text) =~= p.filter(pred).map_values(
                text,
            ).push(e.content@));
        } else {
            assert(h.filter(pred) == p.filter(pred));
        }
    }
}

/// Per-user bounded, time-ordered window of recent messages.
pub struct UserHistory {
    min: i64,
    max: i64,
    max_size: usize,
    history: Vec<HistoryEntry>,
}

impl UserHistory {
    /// The retained entries, oldest first.
    pub closed spec fn entries(self) -> Seq<HistoryEntry> {
        self.history@
    }

    /// The oldest retained timestamp (meaningful only when non-empty).
    pub closed spec fn spec_min(self) -> i64 {
        self.min
    }

    /// The newest retained timestamp (meaningful only when non-empty).
    pub closed spec fn spec_max(self) -> i64 {
        self.max
    }

    /// How many entries may be retained.
    pub closed spec fn capacity(self) -> nat {
        self.max_size as nat
    }

    /// Well-formed: bounded, sorted, and with correct cached bounds.
    pub open spec fn wf(self) -> bool {
        &&& self.capacity() >= 1
        &&& self.entries().len() <= self.capacity()
        &&& sorted_by_time(self.entries())
        &&& self.entries().len() > 0 ==> {
            &&& self.spec_min() == self.entries()[0].timestamp
            &&& self.spec_max() == self.entries().last().timestamp
        }
    }

    /// Refreshes the cached oldest/newest timestamps from the entries.
    fn recalculate_bounds(&mut self)
        requires
            old(self).entries().len() > 0,
        ensures
            final(self).entries() == old(self).entries(),
            final(self).capacity() == old(self).capacity(),
            final(self).spec_min() == final(self).entries()[0].timestamp,
            final(self).spec_max() == final(self).entries().last().timestamp,
    {
        self.min = self.history[0].timestamp;
        self.max = self.history[self.history.len() - 1].timestamp;
    }

    /// Records one arrival, keeping the window sorted and bounded. Arrivals
    /// at or before the oldest retained time, or duplicating a retained
    /// timestamp, are dropped silently; when the window is full the oldest
    /// entry is evicted.
    pub fn push(&mut self, time: i64, message: String)
        requires
            old(self).wf(),
        ensures
            final(self).wf(),
            final(self).capacity() == old(self).capacity(),
            final(self).entries() == spec_push_history(
                old(self).entries(),
                HistoryEntry { timestamp: time, content: message },
                old(self).capacity(),
            ),
            old(self).entries().len() > 0 && time < old(self).spec_min() ==> final(self).entries()
                == old(self).entries(),
    {
        let ghost h0 = self.history@;
        let ghost cap = self.max_size as nat;
        let entry = HistoryEntry { timestamp: time, content: message };
        let ghost e = entry;
        if self.history.len() == 0 {
            self.history.push(entry);
            self.min = time;
            self.max = time;
            assert(self.history@ =~= seq![e]);
            return ;
        }
        if time <= self.min {
            return ;
        }
        proof {
            lemma_insert_index_props(h0, time);
        }
        let n = self.history.len();
        if time > self.max {
            proof {
                assert(forall|k: int| 0 <= k < h0.len() ==> h0[k].timestamp <= h0.last().timestamp);
                assert(insert_index(h0, time) == h0.len());
                assert(!has_timestamp(h0, time));
            }
            self.history.push(entry);
            assert(self.history@ =~= h0.insert(h0.len() as int, e));
        } else {
            let mut i: usize = 0;
            while i < n && self.history[i].timestamp < time
                invariant
                    n == self.history@.len(),
                    self.history@ == h0,
                    i <= n,
                    forall|k: int| 0 <= k < i ==> h0[k].timestamp < time,
                decreases n - i,
            {
                i = i + 1;
            }
            proof {
                assert(h0.last().timestamp >= time);
                assert(i < n);
                assert(i == insert_index(h0, time));
            }
            if self.history[i].timestamp == time {
                proof {
                    assert(has_timestamp(h0, time));
                }
                return ;
            }
            proof {
                assert forall|j: int| 0 <= j < h0.len() implies h0[j].timestamp != time by {
                    if j < i {
                    } else if j == i {
                    } else {
                        assert(h0[i as int].timestamp < h0[j].timestamp);
                    }
                }
                assert(!has_timestamp(h0, time));
            }
            self.history.insert(i, entry);
        }
        let ghost inserted = h0.insert(insert_index(h0, time), e);
        assert(self.history@ == inserted);
        proof {
            assert(sorted_by_time(inserted)) by {
                let idx = insert_index(h0, time);
                assert forall|a: int, b: int|
                    0 <= a < b < inserted.len() implies inserted[a].timestamp
                    < inserted[b].timestamp by {
                    if a < idx {
                        assert(inserted[a] == h0[a]);
                    } else if a == idx {
                        assert(inserted[a] == e);
                    } else {
                        assert(inserted[a] == h0[a - 1]);
                    }
                    if b < idx {
                        assert(inserted[b] == h0[b]);
                    } else if b == idx {
                        assert(inserted[b] == e);
                    } else {
                        assert(inserted[b] == h0[b - 1]);
                    }
                }
            }
        }
        if self.history.len() > self.max_size {
            self.history.remove(0);
            proof {
                assert(self.history@ =~= inserted.drop_first());
                assert(sorted_by_time(inserted.drop_first())) by {
                    assert(forall|k: int|
                        0 <= k < inserted.drop_first().len() ==> inserted.drop_first()[k]
                            == inserted[k + 1]);
                }
            }
        }
        self.recalculate_bounds();
        assert(final(self).entries() == spec_push_history(h0, e, cap));
    }

    /// The texts of the retained entries whose age relative to `time` is
    /// below `context_window` seconds, oldest first.
    pub fn context(&self, time: i64, context_window: i64) -> (r: Vec<String>)
        ensures
            r.deep_view() == spec_context(self.entries(), time, context_window),
    {
        let mut r: Vec<String> = Vec::new();
        let n = self.history.len();
        let mut i: usize = 0;
        while i < n
            invariant
                n == self.history@.len(),
                i <= n,
                r.deep_view() == spec_context(self.history@.take(i as int), time, context_window),
            decreases n - i,
        {
            let ghost prev = r.deep_view();
            if (time as i128) - (self.history[i].timestamp as i128) < (context_window as i128) {
                let text = self.history[i].content.clone();
                r.push(text);
                assert(r.deep_view() =~= prev.push(self.history@[i as int].content@));
            }
            i = i + 1;
            proof {
                let t = self.history@.take(i as int);
                assert(t.drop_last() =~= self.history@.take(i - 1));
                assert(t.last() == self.history@[i - 1]);
            }
        }
        proof {
            assert(self.history@.take(n as int) =~= self.history@);
        }
        r
    }
}

impl Default for UserHistory {
    /// A fresh, empty history with the default capacity.
    fn default() -> (r: Self)
        ensures
            r.wf(),
            r.entries().len() == 0,
            r.capacity() == DEFAULT_HISTORY_SIZE,
    {
        UserHistory { min: 0, max: 0, max_size: DEFAULT_HISTORY_SIZE, history: Vec::new() }
    }
}

/// Process-wide registry of each user's first observed join timestamp.
pub struct UserJoinDate {
    map: HashMap<u64, i64>,
}

/// What one record attempt does to the registry: the first write for a user
/// wins, and every later attempt is a no-op.
pub open spec fn spec_record_join(m: Map<u64, i64>, user_id: u64, join_date: i64) -> Map<u64, i64> {
    if m.contains_key(user_id) {
        m
    } else {
        m.insert(user_id, join_date)
    }
}

impl UserJoinDate {
    /// The recorded join timestamp per user.
    pub closed spec fn records(self) -> Map<u64, i64> {
        self.map@
    }

    /// An empty registry.
    pub fn new() -> (r: UserJoinDate)
        ensures
            r.records() == Map::<u64, i64>::empty(),
    {
        UserJoinDate { map: HashMap::new() }
    }
}

/// Records a user's join timestamp unless one is already known
/// (first write wins).
pub fn update_user_join_date(registry: &mut UserJoinDate, user_id: u64, join_date: i64)
    ensures
        final(registry).records() == spec_record_join(old(registry).records(), user_id, join_date),
{
    if !registry.map.contains_key(&user_id) {
        registry.map.insert(user_id, join_date);
    }
}

/// Looks up a user's recorded join timestamp.
pub fn get_user_join_date(registry: &UserJoinDate, user_id: u64) -> (r: Option<i64>)
    ensures
        r == if registry.records().contains_key(user_id) {
            Some(registry.records()[user_id])
        } else {
            None::<i64>
        },
{
    match registry.map.get(&user_id) {
        Some(v) => Some(*v),
        None => None,
    }
}

/// First write wins: once a user has a join record, a later record attempt
/// with any timestamp leaves the registry unchanged, and lookups keep
/// answering the first recorded value.
pub proof fn lemma_record_join_first_write_wins(m: Map<u64, i64>, user_id: u64, t1: i64, t2: i64)
    ensures
        spec_record_join(spec_record_join(m, user_id, t1), user_id, t2) == spec_record_join(
            m,
            user_id,
            t1,
        ),
        spec_record_join(m, user_id, t1).contains_key(user_id),
        spec_record_join(m, user_id, t1)[user_id] == if m.contains_key(user_id) {
            m[user_id]
        } else {
            t1
        },
{
}

/// Process-wide map from user id to that user's recent-message window.
pub struct UserContext {
    map: HashMap<u64, UserHistory>,
}

impl UserContext {
    /// The per-user histories.
    pub closed spec fn histories(self) -> Map<u64, UserHistory> {
        self.map@
    }

    /// Every retained history is well-formed.
    pub open spec fn wf(self) -> bool {
        forall|u: u64|
            #[trigger] self.histories().dom().contains(u) ==> self.histories()[u].wf()
    }

    /// An empty context store.
    pub fn new() -> (r: UserContext)
        ensures
            r.histories() == Map::<u64, UserHistory>::empty(),
            r.wf(),
    {
        UserContext { map: HashMap::new() }
    }
}

/// The entries retained for a user, or the empty sequence for an unknown
/// user.
pub open spec fn spec_user_entries(ctx: UserContext, user_id: u64) -> Seq<HistoryEntry> {
    if ctx.histories().dom().contains(user_id) {
        ctx.histories()[user_id].entries()
    } else {
        Seq::empty()
    }
}

/// The window capacity in force for a user.
pub open spec fn spec_user_cap(ctx: UserContext, user_id: u64) -> nat {
    if ctx.histories().dom().contains(user_id) {
        ctx.histories()[user_id].capacity()
    } else {
        DEFAULT_HISTORY_SIZE as nat
    }
}

/// Feeds one message into its author's recent-message window, creating the
/// window on first sight.
pub fn update_user_context(ctx: &mut UserContext, user_id: u64, timestamp: i64, content: String)
    requires
        old(ctx).wf(),
    ensures
        final(ctx).wf(),
        final(ctx).histories().dom() == old(ctx).histories().dom().insert(user_id),
        final(ctx).histories()[user_id].entries() == spec_push_history(
            spec_user_entries(*old(ctx), user_id),
            HistoryEntry { timestamp: timestamp, content: content },
            spec_user_cap(*old(ctx), user_id),
        ),
        final(ctx).histories()[user_id].capacity() == spec_user_cap(*old(ctx), user_id),
        forall|u: u64|
            u != user_id && old(ctx).histories().dom().contains(u)
                ==> #[trigger] final(ctx).histories()[u] == old(ctx).histories()[u],
{
    let removed = ctx.map.remove(&user_id);
    proof {
        if removed is Some {
            assert(old(ctx).histories().dom().contains(user_id));
            assert(removed->0 == old(ctx).histories()[user_id]);
        }
    }
    let mut hist = match removed {
        Some(h) => h,
        None => UserHistory::default(),
    };
    assert(hist.wf());
    hist.push(timestamp, content);
    ctx.map.insert(user_id, hist);
    proof {
        assert(final(ctx).histories().dom() =~= old(ctx).histories().dom().insert(user_id));
    }
}

/// The classifier context for a user: the texts of that user's retained
/// messages from the last few minutes before `time`, oldest first.
pub fn retrieve_user_context(ctx: &UserContext, user_id: u64, time: i64) -> (r: Vec<String>)
    ensures
        r.deep_view() == spec_context(spec_user_entries(*ctx, user_id), time, CONTEXT_WINDOW_SECS),
{
    match ctx.map.get(&user_id) {
        Some(h) => h.context(time, CONTEXT_WINDOW_SECS),
        None => {
            let r: Vec<String> = Vec::new();
            assert(r.deep_view() =~= spec_context(
                spec_user_entries(*ctx, user_id),
                time,
                CONTEXT_WINDOW_SECS,
            ));
            r
        },
    }
}

} // verus!
