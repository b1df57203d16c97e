//! File-stability debouncing: never organize a file while something might
//! still be writing it. Times are monotonic milliseconds passed in by the
//! caller, and what each tracked file currently looks like arrives as an
//! observation, so the threshold logic is deterministic.
use vstd::prelude::*;
use crate::text::str_eq;

verus! {

/// The conservative default stability window, in milliseconds.
pub const DEFAULT_STABILITY_WINDOW_MS: u64 = 2500;

/// A tracked file's size and modification time.
#[derive(Debug, Clone, Copy, PartialEq, Eq, Structural)]
pub struct Snapshot {
    pub size: u64,
    pub mtime_secs: u64,
}

#[derive(Debug)]
struct Pending {
    path: String,
    snapshot: Option<Snapshot>,
    stable_since: u64,
}

/// Candidates waiting to prove they have stopped changing.
pub struct StabilityTracker {
    pending: Vec<Pending>,
}

/// One tracked candidate: path, last seen snapshot, stable since.
pub type PendingView = (Seq<char>, Option<Snapshot>, u64);

pub open spec fn keys_of(s: Seq<PendingView>) -> Seq<Seq<char>> {
    s.map_values(|p: PendingView| p.0)
}

/// Where `path` sits among the tracked candidates.
pub open spec fn tracked_index(s: Seq<PendingView>, path: Seq<char>) -> Option<int>
    decreases s.len(),
{
    if s.len() == 0 {
        None
    } else if s[0].0 == path {
        Some(0)
    } else {
        match tracked_index(s.drop_first(), path) {
            Some(k) => Some(k + 1),
            None => None,
        }
    }
}

/// What one poll does to one tracked candidate given its current
/// observation: `None` drops it; otherwise the updated entry and whether
/// it is ready (a ready one is dropped too).
pub open spec fn poll_one(p: PendingView, obs: Option<Snapshot>, now: u64, window: u64) -> Option<(PendingView, bool)> {
    match obs {
        None => None,
        Some(s) => if p.1 != Some(s) {
            Some(((p.0, Some(s), now), false))
        } else if (if now >= p.2 { now - p.2 } else { 0 }) >= window {
            Some((p, true))
        } else {
            Some((p, false))
        },
    }
}

pub open spec fn obs_in(obs: Seq<(String, Option<Snapshot>)>, path: Seq<char>) -> Option<Snapshot>
    decreases obs.len(),
{
    if obs.len() == 0 {
        None
    } else if obs[0].0@ == path {
        obs[0].1
    } else {
        obs_in(obs.drop_first(), path)
    }
}

/// The entries that stay tracked after a poll.
pub open spec fn poll_kept(s: Seq<PendingView>, obs: Seq<(String, Option<Snapshot>)>, now: u64, window: u64) -> Seq<PendingView>
    decreases s.len(),
{
    if s.len() == 0 {
        s
    } else {
        let prev = poll_kept(s.drop_last(), obs, now, window);
        match poll_one(s.last(), obs_in(obs, s.last().0), now, window) {
            Some((p, false)) => prev.push(p),
            _ => prev,
        }
    }
}

/// The entries a poll reports ready, in tracking order.
pub open spec fn poll_ready_spec(s: Seq<PendingView>, obs: Seq<(String, Option<Snapshot>)>, now: u64, window: u64) -> Seq<Seq<char>>
    decreases s.len(),
{
    if s.len() == 0 {
        Seq::empty()
    } else {
        let prev = poll_ready_spec(s.drop_last(), obs, now, window);
        match poll_one(s.last(), obs_in(obs, s.last().0), now, window) {
            Some((p, true)) => prev.push(p.0),
            _ => prev,
        }
    }
}

impl StabilityTracker {
    /// The tracked candidates, in the order they were first tracked.
    pub closed spec fn view(&self) -> Seq<PendingView> {
        self.pending@.map_values(|p: Pending| (p.path@, p.snapshot, p.stable_since))
    }

    /// No path is tracked twice.
    pub open spec fn wf(&self) -> bool {
        keys_of(self.view()).no_duplicates()
    }

    pub fn new() -> (r: Self)
        ensures
            r.view() == Seq::<PendingView>::empty(),
            r.wf(),
    {
        let r = StabilityTracker { pending: Vec::new() };
        assert(r.view() =~= Seq::<PendingView>::empty());
        r
    }

    fn find(&self, path: &str) -> (r: Option<usize>)
        ensures
            match r {
                Some(k) => tracked_index(self.view(), path@) == Some(k as int) && k < self.view().len(),
                None => tracked_index(self.view(), path@) is None,
            },
    {
        let ghost v = self.view();
        let mut i: usize = 0;
        assert(v.subrange(0, v.len() as int) =~= v);
        while i < self.pending.len()
            invariant
                i <= v.len(),
                v == self.view(),
                v.len() == self.pending@.len(),
                tracked_index(v, path@) == match tracked_index(v.subrange(i as int, v.len() as int), path@) {
                    Some(k) => Some(k + i),
                    None => None,
                },
            decreases v.len() - i,
        {
            let ghost rest = v.subrange(i as int, v.len() as int);
            assert(rest.drop_first() =~= v.subrange(i + 1, v.len() as int));
            assert(rest[0] == v[i as int]);
            if str_eq(self.pending[i].path.as_str(), path) {
                return Some(i);
            }
            i += 1;
        }
        assert(v.subrange(v.len() as int, v.len() as int).len() == 0);
        None
    }

    /// Starts tracking `path` (a no-op if already tracked).
    pub fn track(&mut self, path: String, now: u64)
        requires
            old(self).wf(),
        ensures
            final(self).wf(),
            tracked_index(old(self).view(), path@) is Some ==> final(self).view() == old(self).view(),
            tracked_index(old(self).view(), path@) is None ==> final(self).view() == old(self).view().push(
                (path@, None, now),
            ),
    {
        match self.find(path.as_str()) {
            Some(_) => {},
            None => {
                let ghost before = self.view();
                let ghost p = path@;
                self.pending.push(Pending { path, snapshot: None, stable_since: now });
                assert(self.view() =~= before.push((p, None, now)));
                proof {
                    lemma_not_tracked(before, p);
                    assert(keys_of(self.view()) =~= keys_of(before).push(p));
                }
            },
        }
    }

    /// Stops tracking `path`.
    pub fn discard(&mut self, path: &str)
        requires
            old(self).wf(),
        ensures
            final(self).wf(),
            match tracked_index(old(self).view(), path@) {
                Some(k) => final(self).view() == old(self).view().remove(k),
                None => final(self).view() == old(self).view(),
            },
    {
        match self.find(path) {
            Some(k) => {
                let ghost before = self.view();
                self.pending.remove(k);
                assert(self.view() =~= before.remove(k as int));
                assert(keys_of(self.view()) =~= keys_of(before).remove(k as int));
            },
            None => {},
        }
    }

    /// Drops every tracked candidate without processing it.
    pub fn discard_all(&mut self)
        ensures
            final(self).view() == Seq::<PendingView>::empty(),
            final(self).wf(),
    {
        self.pending = Vec::new();
        assert(self.view() =~= Seq::<PendingView>::empty());
    }

    pub fn is_tracking(&self, path: &str) -> (r: bool)
        ensures
            r == (tracked_index(self.view(), path@) is Some),
    {
        self.find(path).is_some()
    }

    pub fn len(&self) -> (r: usize)
        ensures
            r == self.view().len(),
    {
        self.pending.len()
    }

    pub fn is_empty(&self) -> (r: bool)
        ensures
            r == (self.view().len() == 0),
    {
        self.pending.len() == 0
    }

    /// The tracked paths, in tracking order (what a poll needs observed).
    pub fn tracked_paths(&self) -> (r: Vec<String>)
        ensures
            r@.map_values(|s: String| s@) == keys_of(self.view()),
    {
        let mut out: Vec<String> = Vec::new();
        let mut i: usize = 0;
        while i < self.pending.len()
            invariant
                i <= self.pending@.len(),
                out@.map_values(|s: String| s@) == keys_of(self.view()).subrange(0, i as int),
            decreases self.pending@.len() - i,
        {
            let ghost before = out@;
            out.push(self.pending[i].path.clone());
            assert(out@.map_values(|s: String| s@) =~= before.map_values(|s: String| s@).push(
                self.pending@[i as int].path@,
            ));
            assert(keys_of(self.view())[i as int] == self.pending@[i as int].path@);
            assert(keys_of(self.view()).subrange(0, i + 1) =~= keys_of(self.view()).subrange(
                0,
                i as int,
            ).push(self.pending@[i as int].path@));
            i += 1;
        }
        assert(keys_of(self.view()).subrange(0, self.pending@.len() as int) =~= keys_of(self.view()));
        out
    }

    /// Re-checks every tracked candidate against its current observation
    /// (`None`: vanished or no longer a plain file). A changed candidate
    /// restarts its timer; a vanished one is dropped, never reported; one
    /// unchanged for at least `window` ms is reported and dropped.
    pub fn poll_ready(&mut self, now: u64, window: u64, observed: &Vec<(String, Option<Snapshot>)>) -> (r: Vec<String>)
        requires
            old(self).wf(),
        ensures
            final(self).wf(),
            final(self).view() == poll_kept(old(self).view(), observed@, now, window),
            r@.map_values(|s: String| s@) == poll_ready_spec(old(self).view(), observed@, now, window),
    {
        let ghost v0 = self.view();
        let mut old_pending: Vec<Pending> = Vec::new();
        std::mem::swap(&mut old_pending, &mut self.pending);
        let mut kept: Vec<Pending> = Vec::new();
        let mut ready: Vec<String> = Vec::new();
        let mut i: usize = 0;
        assert(v0 =~= old_pending@.map_values(|p: Pending| (p.path@, p.snapshot, p.stable_since)));
        while i < old_pending.len()
            invariant
                i <= old_pending@.len(),
                v0 == old_pending@.map_values(|p: Pending| (p.path@, p.snapshot, p.stable_since)),
                keys_of(v0).no_duplicates(),
                kept@.map_values(|p: Pending| (p.path@, p.snapshot, p.stable_since)) == poll_kept(
                    v0.subrange(0, i as int),
                    observed@,
                    now,
                    window,
                ),
                ready@.map_values(|s: String| s@) == poll_ready_spec(
                    v0.subrange(0, i as int),
                    observed@,
                    now,
                    window,
                ),
            decreases old_pending@.len() - i,
        {
            let p = &old_pending[i];
            assert(v0.subrange(0, i + 1).drop_last() =~= v0.subrange(0, i as int));
            assert(v0.subrange(0, i + 1).last() == v0[i as int]);
            let obs = lookup_obs(observed, p.path.as_str());
            match obs {
                None => {},
                Some(s) => {
                    let changed = match p.snapshot {
                        Some(old_s) => old_s != s,
                        None => true,
                    };
                    if changed {
                        let ghost before = kept@;
                        kept.push(Pending { path: p.path.clone(), snapshot: Some(s), stable_since: now });
                        assert(kept@.map_values(|q: Pending| (q.path@, q.snapshot, q.stable_since))
                            =~= before.map_values(|q: Pending| (q.path@, q.snapshot, q.stable_since)).push(
                            (p.path@, Some(s), now),
                        ));
                    } else {
                        let elapsed = if now >= p.stable_since {
                            now - p.stable_since
                        } else {
                            0
                        };
                        if elapsed >= window {
                            let ghost before = ready@;
                            ready.push(p.path.clone());
                            assert(ready@.map_values(|q: String| q@) =~= before.map_values(
                                |q: String| q@,
                            ).push(p.path@));
                        } else {
                            let ghost before = kept@;
                            kept.push(
                                Pending {
                                    path: p.path.clone(),
                                    snapshot: p.snapshot,
                                    stable_since: p.stable_since,
                                },
                            );
                            assert(kept@.map_values(|q: Pending| (q.path@, q.snapshot, q.stable_since))
                                =~= before.map_values(|q: Pending| (q.path@, q.snapshot, q.stable_since)).push(
                                (p.path@, p.snapshot, p.stable_since),
                            ));
                        }
                    }
                },
            }
            i += 1;
        }
        assert(v0.subrange(0, old_pending@.len() as int) =~= v0);
        self.pending = kept;
        proof {
            lemma_kept_keys(v0, observed@, now, window);
        }
        ready
    }
}

fn lookup_obs(observed: &Vec<(String, Option<Snapshot>)>, path: &str) -> (r: Option<Snapshot>)
    ensures
        r == obs_in(observed@, path@),
{
    let mut i: usize = 0;
    assert(observed@.subrange(0, observed@.len() as int) =~= observed@);
    while i < observed.len()
        invariant
            i <= observed@.len(),
            obs_in(observed@, path@) == obs_in(observed@.subrange(i as int, observed@.len() as int), path@),
        decreases observed@.len() - i,
    {
        let ghost rest = observed@.subrange(i as int, observed@.len() as int);
        assert(rest.drop_first() =~= observed@.subrange(i + 1, observed@.len() as int));
        assert(rest[0] == observed@[i as int]);
        if str_eq(observed[i].0.as_str(), path) {
            return observed[i].1;
        }
        i += 1;
    }
    None
}

proof fn lemma_not_tracked(s: Seq<PendingView>, p: Seq<char>)
    requires
        tracked_index(s, p) is None,
    ensures
        !keys_of(s).contains(p),
    decreases s.len(),
{
    if s.len() > 0 {
        lemma_not_tracked(s.drop_first(), p);
        assert(keys_of(s.drop_first()) =~= keys_of(s).drop_first());
        if keys_of(s).contains(p) {
            let w = choose|w: int| 0 <= w < keys_of(s).len() && keys_of(s)[w] == p;
            if w > 0 {
                assert(keys_of(s.drop_first())[w - 1] == p);
            }
        }
    }
}

/// The entries a poll keeps are a subsequence of the tracked ones, so
/// their paths stay distinct.
proof fn lemma_kept_keys(s: Seq<PendingView>, obs: Seq<(String, Option<Snapshot>)>, now: u64, window: u64)
    requires
        keys_of(s).no_duplicates(),
    ensures
        keys_of(poll_kept(s, obs, now, window)).no_duplicates(),
        forall|k: Seq<char>| keys_of(poll_kept(s, obs, now, window)).contains(k) ==> keys_of(s).contains(k),
    decreases s.len(),
{
    if s.len() > 0 {
        let t = s.drop_last();
        assert(keys_of(t) =~= keys_of(s).drop_last());
        assert forall|i: int, j: int| 0 <= i < j < keys_of(t).len() implies keys_of(t)[i] != keys_of(t)[j] by {
            assert(keys_of(s)[i] != keys_of(s)[j]);
        }
        lemma_kept_keys(t, obs, now, window);
        let prev = poll_kept(t, obs, now, window);
        let cur = poll_kept(s, obs, now, window);
        match poll_one(s.last(), obs_in(obs, s.last().0), now, window) {
            Some((p, false)) => {
                assert(p.0 == s.last().0);
                assert(keys_of(cur) =~= keys_of(prev).push(p.0));
                assert(!keys_of(prev).contains(p.0)) by {
                    if keys_of(prev).contains(p.0) {
                        assert(keys_of(t).contains(p.0));
                        let w = choose|w: int| 0 <= w < keys_of(t).len() && keys_of(t)[w] == p.0;
                        assert(keys_of(s)[w] == keys_of(s)[s.len() - 1]);
                    }
                }
                assert forall|k: Seq<char>| keys_of(cur).contains(k) implies keys_of(s).contains(k) by {
                    let w = choose|w: int| 0 <= w < keys_of(cur).len() && keys_of(cur)[w] == k;
                    if w < keys_of(prev).len() {
                        assert(keys_of(prev)[w] == k);
                        assert(keys_of(t).contains(k));
                        let w2 = choose|w2: int| 0 <= w2 < keys_of(t).len() && keys_of(t)[w2] == k;
                        assert(keys_of(s)[w2] == k);
                    } else {
                        assert(keys_of(s)[s.len() - 1] == k);
                    }
                }
            },
            _ => {
                assert forall|k: Seq<char>| keys_of(cur).contains(k) implies keys_of(s).contains(k) by {
                    assert(keys_of(t).contains(k));
                    let w2 = choose|w2: int| 0 <= w2 < keys_of(t).len() && keys_of(t)[w2] == k;
                    assert(keys_of(s)[w2] == k);
                }
            },
        }
    }
}

/// Still there, unchanged since last seen, and unchanged for `window`.
pub open spec fn stable_for(p: PendingView, obs: Seq<(String, Option<Snapshot>)>, now: u64, window: u64) -> bool {
    &&& obs_in(obs, p.0) is Some
    &&& p.1 == obs_in(obs, p.0)
    &&& (if now >= p.2 { now - p.2 } else { 0 }) >= window
}

/// A candidate is reported ready only when it is still there, its size and
/// modification time are what they were, and they have not changed for at
/// least `window`.
pub proof fn law_ready_only_after_stable_window(
    s: Seq<PendingView>,
    obs: Seq<(String, Option<Snapshot>)>,
    now: u64,
    window: u64,
    i: int,
)
    requires
        0 <= i < poll_ready_spec(s, obs, now, window).len(),
    ensures
        exists|k: int|
            0 <= k < s.len() && #[trigger] s[k].0 == poll_ready_spec(s, obs, now, window)[i] && stable_for(
                s[k],
                obs,
                now,
                window,
            ),
    decreases s.len(),
{
    let prev = poll_ready_spec(s.drop_last(), obs, now, window);
    let all = poll_ready_spec(s, obs, now, window);
    if i < prev.len() {
        law_ready_only_after_stable_window(s.drop_last(), obs, now, window, i);
        assert(all[i] == prev[i]);
        let k = choose|k: int|
            0 <= k < s.drop_last().len() && #[trigger] s.drop_last()[k].0 == prev[i] && stable_for(
                s.drop_last()[k],
                obs,
                now,
                window,
            );
        assert(s[k] == s.drop_last()[k]);
    } else {
        let k = s.len() - 1;
        assert(s[k] == s.last());
        assert(all[i] == s.last().0);
        assert(stable_for(s[k], obs, now, window));
    }
}

} // verus!
