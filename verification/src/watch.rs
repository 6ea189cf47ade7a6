//! The debounced filesystem change-notification pipeline.
//!
//! Raw notifications arrive from the host's filesystem watcher; qualifying
//! paths are coalesced in a [`PendingChanges`] set keyed by path, and a poll
//! loop sweeps the set on a fixed interval, emitting one categorized event
//! per path that has been quiet for the debounce window. A coarser variant,
//! [`RemovalFlag`], collapses any number of removal notifications into a
//! single staleness event per sweep.

use crate::text::contains_seq;
use crate::text::contains_sub;
use crate::text::last_index_of;
use crate::text::lemma_last_index_none;
use crate::text::lemma_last_index_unique;
use crate::text::rfind_char;
use crate::text::str_eq;
use vstd::prelude::*;
use vstd::string::*;

verus! {

/// Quiet time, in milliseconds, a path must accumulate before its change is
/// reported.
pub const DEBOUNCE_MS: u64 = 500;

/// Interval, in milliseconds, on which the host's poll loop sweeps.
pub const POLL_INTERVAL_MS: u64 = 100;

/// The kind of a raw filesystem notification, as the pipeline distinguishes
/// them: creations and modifications feed the fine-grained set, removals
/// feed the coarse flag, anything else is ignored.
pub enum ChangeKind {
    Create,
    Modify,
    Remove,
    Other,
}

/// Which family of watched files a changed path belongs to.
#[derive(Clone, Copy, PartialEq, Eq, Structural, Debug)]
pub enum WatchCategory {
    Tasks,
    Plans,
    Sessions,
}

/// One debounced, categorized change report.
pub struct ChangeEvent {
    pub category: WatchCategory,
    pub path: String,
}

// ─── Path classification ─────────────────────────────────────────────────────

/// A changed path is classified purely by substring: `tasks` anywhere in the
/// path wins, then `plans`, then `projects` (which marks session files).
/// A path containing none of the three is dropped without an event. The
/// substring test is deliberately applied to the whole path, so a directory
/// that happens to contain one of the words classifies every file under it.
pub open spec fn classify_spec(p: Seq<char>) -> Option<WatchCategory> {
    if contains_seq(p, "tasks"@) {
        Option::Some(WatchCategory::Tasks)
    } else if contains_seq(p, "plans"@) {
        Option::Some(WatchCategory::Plans)
    } else if contains_seq(p, "projects"@) {
        Option::Some(WatchCategory::Sessions)
    } else {
        Option::None
    }
}

/// Classifies a changed path by substring, `tasks` before `plans` before
/// `projects`.
pub fn classify(path: &str) -> (r: Option<WatchCategory>)
    ensures
        r == classify_spec(path@),
{
    if contains_sub(path, "tasks") {
        Some(WatchCategory::Tasks)
    } else if contains_sub(path, "plans") {
        Some(WatchCategory::Plans)
    } else if contains_sub(path, "projects") {
        Some(WatchCategory::Sessions)
    } else {
        None
    }
}

// ─── File-extension filter ───────────────────────────────────────────────────

/// The final component of a path: everything after the last `/`, or the
/// whole path if it has none.
pub open spec fn file_name_of(p: Seq<char>) -> Seq<char> {
    p.subrange(last_index_of(p, '/') + 1, p.len() as int)
}

/// The extension of a path's file name: what follows the last `.`, provided
/// that dot is not the name's first character (so dotfiles such as `.env`
/// have no extension).
pub open spec fn extension_of(p: Seq<char>) -> Option<Seq<char>> {
    let name = file_name_of(p);
    let d = last_index_of(name, '.');
    if d <= 0 {
        Option::None
    } else {
        Option::Some(name.subrange(d + 1, name.len() as int))
    }
}

/// Whether a path names one of the watched file kinds: extension `json`,
/// `jsonl` or `md`.
pub open spec fn allowed_extension(p: Seq<char>) -> bool {
    extension_of(p) == Option::Some("json"@) || extension_of(p) == Option::Some("jsonl"@)
        || extension_of(p) == Option::Some("md"@)
}

/// Tests whether a path's extension is on the watched allow-list.
pub fn has_allowed_extension(path: &str) -> (b: bool)
    ensures
        b == allowed_extension(path@),
{
    let n = path.unicode_len();
    let start: usize = match rfind_char(path, '/') {
        Some(i) => {
            proof {
                lemma_last_index_unique(path@, '/', i as int);
            }
            i + 1
        },
        None => {
            proof {
                lemma_last_index_none(path@, '/');
            }
            0
        },
    };
    let name = path.substring_char(start, n);
    proof {
        assert(name@ == file_name_of(path@));
    }
    let nn = name.unicode_len();
    match rfind_char(name, '.') {
        Some(d) => {
            proof {
                lemma_last_index_unique(name@, '.', d as int);
            }
            if d == 0 {
                return false;
            }
            let ext = name.substring_char(d + 1, nn);
            str_eq(ext, "json") || str_eq(ext, "jsonl") || str_eq(ext, "md")
        },
        None => {
            proof {
                lemma_last_index_none(name@, '.');
            }
            false
        },
    }
}

// ─── The fine-grained pending set ────────────────────────────────────────────

/// A path has been quiet long enough at sweep time `now` if the debounce
/// window has fully passed since its last recorded change.
pub open spec fn settled_at(stamp: u64, now: u64) -> bool {
    now >= stamp + DEBOUNCE_MS
}

/// A raw notification enters the pending set only if it is a creation or
/// modification of a path with a watched extension.
pub open spec fn qualifies(kind: ChangeKind, path: Seq<char>) -> bool {
    (kind is Create || kind is Modify) && allowed_extension(path)
}

struct PendingEntry {
    path: String,
    stamp: u64,
}

spec fn pdistinct(s: Seq<PendingEntry>) -> bool {
    forall|i: int, j: int| 0 <= i < j < s.len() ==> s[i].path@ != s[j].path@
}

spec fn pmap_of(s: Seq<PendingEntry>) -> Map<Seq<char>, u64>
    decreases s.len(),
{
    if s.len() == 0 {
        Map::empty()
    } else {
        pmap_of(s.drop_last()).insert(s.last().path@, s.last().stamp)
    }
}

proof fn lemma_pmap_contains(s: Seq<PendingEntry>, p: Seq<char>)
    ensures
        pmap_of(s).contains_key(p) <==> exists|i: int| 0 <= i < s.len() && s[i].path@ == p,
    decreases s.len(),
{
    if s.len() > 0 {
        lemma_pmap_contains(s.drop_last(), p);
        if s.last().path@ == p {
            assert(s[s.len() - 1].path@ == p);
        } else if pmap_of(s).contains_key(p) {
            let i = choose|i: int| 0 <= i < s.drop_last().len() && s.drop_last()[i].path@ == p;
            assert(s[i].path@ == p);
        } else if exists|i: int| 0 <= i < s.len() && s[i].path@ == p {
            let i = choose|i: int| 0 <= i < s.len() && s[i].path@ == p;
            assert(i < s.len() - 1);
            assert(s.drop_last()[i].path@ == p);
        }
    }
}

proof fn lemma_pmap_index(s: Seq<PendingEntry>, i: int)
    requires
        pdistinct(s),
        0 <= i < s.len(),
    ensures
        pmap_of(s).contains_key(s[i].path@),
        pmap_of(s)[s[i].path@] == s[i].stamp,
    decreases s.len(),
{
    if i == s.len() - 1 {
        lemma_pmap_contains(s, s[i].path@);
    } else {
        lemma_pmap_index(s.drop_last(), i);
        assert(s.drop_last()[i] == s[i]);
        assert(s.last().path@ != s[i].path@);
    }
}

proof fn lemma_pmap_push(s: Seq<PendingEntry>, e: PendingEntry)
    ensures
        pmap_of(s.push(e)) == pmap_of(s).insert(e.path@, e.stamp),
{
    assert(s.push(e).drop_last() =~= s);
    assert(s.push(e).last() == e);
}

proof fn lemma_pmap_update(s: Seq<PendingEntry>, i: int, e: PendingEntry)
    requires
        pdistinct(s),
        0 <= i < s.len(),
        e.path@ == s[i].path@,
    ensures
        pmap_of(s.update(i, e)) == pmap_of(s).insert(e.path@, e.stamp),
    decreases s.len(),
{
    let su = s.update(i, e);
    if i == s.len() - 1 {
        assert(su.drop_last() =~= s.drop_last());
        assert(su.last() == e);
    } else {
        assert(su.last() == s.last());
        assert(su.drop_last() =~= s.drop_last().update(i, e));
        lemma_pmap_update(s.drop_last(), i, e);
        assert(s.last().path@ != e.path@);
        assert(pmap_of(su) == pmap_of(s.drop_last()).insert(e.path@, e.stamp).insert(
            s.last().path@,
            s.last().stamp,
        ));
        assert(pmap_of(s.drop_last()).insert(e.path@, e.stamp).insert(
            s.last().path@,
            s.last().stamp,
        ) =~= pmap_of(s).insert(e.path@, e.stamp));
    }
}

// ── The sweep model: which entries stay and which events go out ──

spec fn kept_of(s: Seq<PendingEntry>, now: u64) -> Seq<PendingEntry>
    decreases s.len(),
{
    if s.len() == 0 {
        Seq::empty()
    } else {
        let rest = kept_of(s.drop_last(), now);
        if settled_at(s.last().stamp, now) {
            rest
        } else {
            rest.push(s.last())
        }
    }
}

spec fn emits_of(s: Seq<PendingEntry>, now: u64) -> Seq<(WatchCategory, Seq<char>)>
    decreases s.len(),
{
    if s.len() == 0 {
        Seq::empty()
    } else {
        let rest = emits_of(s.drop_last(), now);
        if settled_at(s.last().stamp, now) {
            match classify_spec(s.last().path@) {
                Option::Some(cat) => rest.push((cat, s.last().path@)),
                Option::None => rest,
            }
        } else {
            rest
        }
    }
}

proof fn lemma_sweep_model(s: Seq<PendingEntry>, now: u64)
    requires
        pdistinct(s),
    ensures
        pdistinct(kept_of(s, now)),
        forall|p: Seq<char>|
            #[trigger] pmap_of(kept_of(s, now)).contains_key(p) <==> pmap_of(s).contains_key(p)
                && !settled_at(pmap_of(s)[p], now),
        forall|p: Seq<char>|
            pmap_of(kept_of(s, now)).contains_key(p) ==> pmap_of(kept_of(s, now))[p] == pmap_of(
                s,
            )[p],
        forall|k: int|
            0 <= k < emits_of(s, now).len() ==> pmap_of(s).contains_key(
                (#[trigger] emits_of(s, now)[k]).1,
            ) && settled_at(pmap_of(s)[emits_of(s, now)[k].1], now) && classify_spec(
                emits_of(s, now)[k].1,
            ) == Option::Some(emits_of(s, now)[k].0),
        forall|p: Seq<char>|
            pmap_of(s).contains_key(p) && settled_at(pmap_of(s)[p], now) && classify_spec(p)
                is Some ==> exists|k: int| 0 <= k < emits_of(s, now).len() && emits_of(s, now)[k].1
                == p,
        forall|k1: int, k2: int|
            0 <= k1 < k2 < emits_of(s, now).len() ==> emits_of(s, now)[k1].1 != emits_of(
                s,
                now,
            )[k2].1,
    decreases s.len(),
{
    if s.len() > 0 {
        let dl = s.drop_last();
        let e = s.last();
        lemma_sweep_model(dl, now);
        lemma_pmap_contains(dl, e.path@);
        assert(forall|i: int| 0 <= i < dl.len() ==> dl[i].path@ != e.path@);
        assert(!pmap_of(dl).contains_key(e.path@));
        assert(pmap_of(s) == pmap_of(dl).insert(e.path@, e.stamp));
        let kept = kept_of(s, now);
        let kdl = kept_of(dl, now);
        // membership of kept entries in the original prefix
        assert(forall|p: Seq<char>|
            #[trigger] pmap_of(kdl).contains_key(p) ==> pmap_of(dl).contains_key(p));
        if settled_at(e.stamp, now) {
            assert(kept == kdl);
            assert(forall|p: Seq<char>|
                #[trigger] pmap_of(s).contains_key(p) && p != e.path@ ==> pmap_of(
                    s,
                )[p] == pmap_of(dl)[p] && pmap_of(dl).contains_key(p));
        } else {
            assert(kept == kdl.push(e));
            lemma_pmap_push(kdl, e);
            // the pushed entry's path is fresh among the kept ones
            assert(!pmap_of(kdl).contains_key(e.path@));
            lemma_pmap_contains(kdl, e.path@);
            assert(forall|i: int, j: int|
                0 <= i < j < kept.len() ==> kept[i].path@ != kept[j].path@) by {
                assert(forall|i: int| 0 <= i < kdl.len() ==> kept[i] == kdl[i]);
                assert(kept[kept.len() - 1] == e);
            }
        }
        // emitted events of the prefix stay emitted events of the whole
        let em = emits_of(s, now);
        let emdl = emits_of(dl, now);
        assert(forall|k: int| 0 <= k < emdl.len() ==> em[k] == emdl[k]);
        assert(forall|p: Seq<char>|
            #[trigger] pmap_of(dl).contains_key(p) ==> p != e.path@ && pmap_of(s).contains_key(p)
                && pmap_of(s)[p] == pmap_of(dl)[p]);
        // no event of the prefix carries the last entry's path
        assert(forall|k: int| 0 <= k < emdl.len() ==> emdl[k].1 != e.path@);
        // every settled, classifiable path has its event
        assert forall|p: Seq<char>|
            pmap_of(s).contains_key(p) && settled_at(pmap_of(s)[p], now) && classify_spec(p)
                is Some implies exists|k: int| 0 <= k < em.len() && em[k].1 == p by {
            if p == e.path@ {
                assert(pmap_of(s)[p] == e.stamp);
                assert(settled_at(e.stamp, now));
                assert(em == emdl.push((classify_spec(p)->Some_0, p)));
                assert(em[em.len() - 1].1 == p);
            } else {
                assert(pmap_of(dl).contains_key(p));
                assert(pmap_of(dl)[p] == pmap_of(s)[p]);
                let k = choose|k: int| 0 <= k < emdl.len() && emdl[k].1 == p;
                assert(em[k].1 == p);
            }
        }
    }
}

/// The shared, time-stamped record of paths that changed but have not yet
/// been reported: a map from path to the time of its most recent qualifying
/// notification.
pub struct PendingChanges {
    entries: Vec<PendingEntry>,
}

impl View for PendingChanges {
    type V = Map<Seq<char>, u64>;

    closed spec fn view(&self) -> Map<Seq<char>, u64> {
        pmap_of(self.entries@)
    }
}

impl PendingChanges {
    /// No path occurs twice.
    pub closed spec fn wf(&self) -> bool {
        pdistinct(self.entries@)
    }

    /// An empty pending set.
    pub fn new() -> (r: PendingChanges)
        ensures
            r.wf(),
            r@ == Map::<Seq<char>, u64>::empty(),
    {
        PendingChanges { entries: Vec::new() }
    }

    fn find_path(&self, path: &str) -> (r: Option<usize>)
        ensures
            r matches Some(i) ==> i < self.entries@.len() && self.entries@[i as int].path@
                == path@,
            r is None ==> forall|i: int|
                0 <= i < self.entries@.len() ==> self.entries@[i].path@ != path@,
    {
        let mut i: usize = 0;
        while i < self.entries.len()
            invariant
                i <= self.entries@.len(),
                forall|j: int| 0 <= j < i ==> self.entries@[j].path@ != path@,
            decreases self.entries@.len() - i,
        {
            if str_eq(self.entries[i].path.as_str(), path) {
                return Some(i);
            }
            i = i + 1;
        }
        None
    }

    /// Feeds one raw notification into the pending set. A creation or
    /// modification of a path with a watched extension records the path
    /// with the given time, resetting its quiet period if it was already
    /// pending (coalescing); every other notification is discarded here and
    /// never enters the set.
    pub fn observe(&mut self, kind: &ChangeKind, path: &str, now_ms: u64)
        requires
            old(self).wf(),
        ensures
            final(self).wf(),
            qualifies(*kind, path@) ==> final(self)@ == old(self)@.insert(path@, now_ms),
            !qualifies(*kind, path@) ==> final(self)@ == old(self)@,
    {
        let relevant = match kind {
            ChangeKind::Create => true,
            ChangeKind::Modify => true,
            _ => false,
        };
        if !relevant || !has_allowed_extension(path) {
            return ;
        }
        let entry = PendingEntry { path: String::from_str(path), stamp: now_ms };
        match self.find_path(path) {
            Some(i) => {
                proof {
                    lemma_pmap_update(self.entries@, i as int, entry);
                }
                self.entries.set(i, entry);
            },
            None => {
                proof {
                    lemma_pmap_push(self.entries@, entry);
                }
                self.entries.push(entry);
            },
        }
    }

    /// One poll-loop pass at time `now_ms`: every path whose last recorded
    /// change is at least the debounce window old leaves the set, and each
    /// such path that classifies into a watched category yields exactly one
    /// event. Paths touched more recently stay, stamps intact, for a later
    /// sweep. Events for distinct paths may come in any order.
    pub fn sweep(&mut self, now_ms: u64) -> (evs: Vec<ChangeEvent>)
        requires
            old(self).wf(),
        ensures
            final(self).wf(),
            forall|p: Seq<char>|
                #[trigger] final(self)@.contains_key(p) <==> old(self)@.contains_key(p)
                    && !settled_at(old(self)@[p], now_ms),
            forall|p: Seq<char>|
                final(self)@.contains_key(p) ==> final(self)@[p] == old(self)@[p],
            forall|k: int|
                0 <= k < evs@.len() ==> old(self)@.contains_key(#[trigger] evs@[k].path@)
                    && settled_at(old(self)@[evs@[k].path@], now_ms) && classify_spec(evs@[k].path@)
                    == Option::Some(evs@[k].category),
            forall|p: Seq<char>|
                old(self)@.contains_key(p) && settled_at(old(self)@[p], now_ms) && classify_spec(p)
                    is Some ==> exists|k: int| 0 <= k < evs@.len() && evs@[k].path@ == p,
            forall|k1: int, k2: int|
                0 <= k1 < k2 < evs@.len() ==> evs@[k1].path@ != evs@[k2].path@,
    {
        let ghost orig = self.entries@;
        let n = self.entries.len();
        let mut kept: Vec<PendingEntry> = Vec::new();
        let mut evs: Vec<ChangeEvent> = Vec::new();
        let mut i: usize = 0;
        while i < n
            invariant
                n == self.entries@.len(),
                self.entries@ == orig,
                i <= n,
                kept@ == kept_of(orig.take(i as int), now_ms),
                evs@.len() == emits_of(orig.take(i as int), now_ms).len(),
                forall|k: int|
                    0 <= k < evs@.len() ==> (#[trigger] evs@[k].category, evs@[k].path@)
                        == emits_of(orig.take(i as int), now_ms)[k],
            decreases n - i,
        {
            proof {
                assert(orig.take(i + 1).drop_last() =~= orig.take(i as int));
                assert(orig.take(i + 1).last() == orig[i as int]);
            }
            let stamp = self.entries[i].stamp;
            let is_settled = stamp <= now_ms && now_ms - stamp >= DEBOUNCE_MS;
            if is_settled {
                match classify(self.entries[i].path.as_str()) {
                    Some(cat) => {
                        evs.push(ChangeEvent { category: cat, path: self.entries[i].path.clone() });
                    },
                    None => {},
                }
            } else {
                kept.push(
                    PendingEntry { path: self.entries[i].path.clone(), stamp },
                );
            }
            i = i + 1;
        }
        proof {
            assert(orig.take(n as int) =~= orig);
            assert(kept@ == kept_of(orig, now_ms));
            assert(evs@.len() == emits_of(orig, now_ms).len());
            assert(forall|k: int|
                0 <= k < evs@.len() ==> (#[trigger] evs@[k].category, evs@[k].path@) == emits_of(
                    orig,
                    now_ms,
                )[k]);
            lemma_sweep_model(orig, now_ms);
            assert(old(self)@ == pmap_of(orig));
            assert forall|k: int| 0 <= k < evs@.len() implies pmap_of(orig).contains_key(
                #[trigger] evs@[k].path@,
            ) && settled_at(pmap_of(orig)[evs@[k].path@], now_ms) && classify_spec(evs@[k].path@)
                == Option::Some(evs@[k].category) by {
                assert((evs@[k].category, evs@[k].path@) == emits_of(orig, now_ms)[k]);
                assert(emits_of(orig, now_ms)[k].1 == evs@[k].path@);
                assert(emits_of(orig, now_ms)[k].0 == evs@[k].category);
            }
            assert forall|p: Seq<char>|
                pmap_of(orig).contains_key(p) && settled_at(pmap_of(orig)[p], now_ms)
                    && classify_spec(p) is Some implies exists|k: int|
                0 <= k < evs@.len() && evs@[k].path@ == p by {
                let k = choose|k: int|
                    0 <= k < emits_of(orig, now_ms).len() && emits_of(orig, now_ms)[k].1 == p;
                assert((evs@[k].category, evs@[k].path@) == emits_of(orig, now_ms)[k]);
                assert(evs@[k].path@ == p);
            }
            assert forall|k1: int, k2: int|
                0 <= k1 < k2 < evs@.len() implies evs@[k1].path@ != evs@[k2].path@ by {
                assert((evs@[k1].category, evs@[k1].path@) == emits_of(orig, now_ms)[k1]);
                assert((evs@[k2].category, evs@[k2].path@) == emits_of(orig, now_ms)[k2]);
            }
        }
        self.entries = kept;
        proof {
            assert(self@ == pmap_of(kept_of(orig, now_ms)));
        }
        evs
    }
}

// ─── Coalescing laws ─────────────────────────────────────────────────────────

/// Repeated notifications for one path before its quiet period elapses
/// coalesce: a second observation merely resets the path's stamp, so the
/// pending set afterwards is exactly what a single observation at the later
/// time would have produced. Once the later stamp has been quiet for the
/// debounce window, the path is settled — and the sweep contract then emits
/// exactly one event for it, since it reports each settled, classifiable
/// path once and never twice.
pub proof fn lemma_observe_coalesces(
    m: Map<Seq<char>, u64>,
    p: Seq<char>,
    t1: u64,
    t2: u64,
    now: u64,
)
    requires
        settled_at(t2, now),
    ensures
        m.insert(p, t1).insert(p, t2) == m.insert(p, t2),
        m.insert(p, t2).contains_key(p) && settled_at(m.insert(p, t2)[p], now),
{
    assert(m.insert(p, t1).insert(p, t2) =~= m.insert(p, t2));
}

// ─── The coarse removal flag ─────────────────────────────────────────────────

/// The coarse variant of the pending set: a single flag that is set by any
/// removal notification under the scan root and cleared when reported.
pub struct RemovalFlag {
    pending: bool,
}

impl View for RemovalFlag {
    type V = bool;

    closed spec fn view(&self) -> bool {
        self.pending
    }
}

impl RemovalFlag {
    /// A clear flag.
    pub fn new() -> (r: RemovalFlag)
        ensures
            !r@,
    {
        RemovalFlag { pending: false }
    }

    /// Feeds one raw notification: any removal sets the flag; everything
    /// else leaves it alone.
    pub fn observe(&mut self, kind: &ChangeKind)
        ensures
            final(self)@ == (old(self)@ || *kind is Remove),
    {
        match kind {
            ChangeKind::Remove => {
                self.pending = true;
            },
            _ => {},
        }
    }

    /// One poll-loop pass: reports whether a removal is pending and clears
    /// the flag atomically, so each burst of removals yields exactly one
    /// staleness report.
    pub fn sweep(&mut self) -> (stale: bool)
        ensures
            stale == old(self)@,
            !final(self)@,
    {
        let was = self.pending;
        self.pending = false;
        was
    }
}

// ─── Poll-loop shutdown ──────────────────────────────────────────────────────

/// What the poll loop's stop channel showed on one wake: an explicit stop
/// message, a disconnected (dropped) sender, or nothing yet.
pub enum PollSignal {
    StopRequested,
    Disconnected,
    Empty,
}

/// The poll loop exits as soon as its owner either signals it or has been
/// dropped; only an empty channel keeps it running, so shutdown is observed
/// within one poll interval.
pub fn should_stop(signal: &PollSignal) -> (stop: bool)
    ensures
        stop == (signal is StopRequested || signal is Disconnected),
{
    match signal {
        PollSignal::StopRequested => true,
        PollSignal::Disconnected => true,
        PollSignal::Empty => false,
    }
}

// ─── Event names ─────────────────────────────────────────────────────────────

/// The event name under which a category's changes are delivered.
pub fn category_event_name(category: &WatchCategory) -> (r: String)
    ensures
        *category is Tasks ==> r@ == "assistant-tasks-changed"@,
        *category is Plans ==> r@ == "assistant-plans-changed"@,
        *category is Sessions ==> r@ == "assistant-sessions-changed"@,
{
    match category {
        WatchCategory::Tasks => String::from_str("assistant-tasks-changed"),
        WatchCategory::Plans => String::from_str("assistant-plans-changed"),
        WatchCategory::Sessions => String::from_str("assistant-sessions-changed"),
    }
}

/// The event name for the coarse staleness report.
pub fn projects_stale_event_name() -> (r: String)
    ensures
        r@ == "projects-stale"@,
{
    String::from_str("projects-stale")
}

} // verus!
