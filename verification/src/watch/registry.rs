//! The persistent watch configuration: which folders are watched, their
//! state and their stats. Every operation here is a pure change of one
//! loaded `Registry`; loading, locking and saving the file happen around
//! it.
use vstd::prelude::*;
use crate::path::{path_join, path_compare, paths_equal, same_path, path_order, Order3};
use crate::planner::PathKind;
use crate::text::{concat, concat3};

verus! {

#[derive(Debug, Clone, Copy, PartialEq, Eq, Structural)]
pub enum WatchState {
    Running,
    Paused,
    Stopped,
}

impl WatchState {
    pub fn label(&self) -> (r: &'static str)
        ensures
            r@ == state_label(*self),
    {
        match self {
            WatchState::Running => "running",
            WatchState::Paused => "paused",
            WatchState::Stopped => "stopped",
        }
    }
}

pub open spec fn state_label(s: WatchState) -> Seq<char> {
    match s {
        WatchState::Running => "running"@,
        WatchState::Paused => "paused"@,
        WatchState::Stopped => "stopped"@,
    }
}

#[derive(Debug)]
pub struct WatchEntry {
    pub path: String,
    pub state: WatchState,
    /// Always `true` for a registered entry: the authorization granted at
    /// `add` time, kept explicit in the record.
    pub auto_apply: bool,
    pub recursive: bool,
    pub created_at: u64,
    pub updated_at: u64,
    pub last_event_at: Option<u64>,
    pub last_success_at: Option<u64>,
    pub last_error: Option<String>,
    pub organized_count: u64,
    pub error_count: u64,
}

impl Clone for WatchEntry {
    fn clone(&self) -> (r: Self)
        ensures
            r == *self,
    {
        WatchEntry {
            path: self.path.clone(),
            state: self.state,
            auto_apply: self.auto_apply,
            recursive: self.recursive,
            created_at: self.created_at,
            updated_at: self.updated_at,
            last_event_at: self.last_event_at,
            last_success_at: self.last_success_at,
            last_error: crate::domain::clone_opt_string(&self.last_error),
            organized_count: self.organized_count,
            error_count: self.error_count,
        }
    }
}

#[derive(Debug)]
pub struct Registry {
    pub watches: Vec<WatchEntry>,
}

impl Default for Registry {
    fn default() -> (r: Self)
        ensures
            r.watches@.len() == 0,
    {
        Registry { watches: Vec::new() }
    }
}

/// Index of the first entry whose path equals `path` (as a `Path`).
pub open spec fn entry_index(w: Seq<WatchEntry>, path: Seq<char>) -> Option<int>
    decreases w.len(),
{
    if w.len() == 0 {
        None
    } else if same_path(w[0].path@, path) {
        Some(0)
    } else {
        match entry_index(w.drop_first(), path) {
            Some(k) => Some(k + 1),
            None => None,
        }
    }
}

proof fn lemma_entry_index(w: Seq<WatchEntry>, path: Seq<char>)
    ensures
        match entry_index(w, path) {
            Some(k) => 0 <= k < w.len() && same_path(w[k].path@, path),
            None => forall|k: int| 0 <= k < w.len() ==> !same_path(#[trigger] w[k].path@, path),
        },
    decreases w.len(),
{
    if w.len() > 0 {
        lemma_entry_index(w.drop_first(), path);
        if !same_path(w[0].path@, path) {
            assert forall|k: int| 0 < k < w.len() implies w[k] == w.drop_first()[k - 1] by {}
        }
    }
}

fn index_of(w: &Vec<WatchEntry>, path: &str) -> (r: Option<usize>)
    ensures
        match r {
            Some(k) => entry_index(w@, path@) == Some(k as int) && k < w@.len(),
            None => entry_index(w@, path@) is None,
        },
{
    let mut i: usize = 0;
    assert(w@.subrange(0, w@.len() as int) =~= w@);
    while i < w.len()
        invariant
            i <= w@.len(),
            entry_index(w@, path@) == match entry_index(w@.subrange(i as int, w@.len() as int), path@) {
                Some(k) => Some(k + i),
                None => None,
            },
        decreases w@.len() - i,
    {
        let ghost rest = w@.subrange(i as int, w@.len() as int);
        assert(rest.drop_first() =~= w@.subrange(i + 1, w@.len() as int));
        assert(rest[0] == w@[i as int]);
        if paths_equal(w[i].path.as_str(), path) {
            return Some(i);
        }
        i += 1;
    }
    assert(w@.subrange(w@.len() as int, w@.len() as int).len() == 0);
    None
}

impl Registry {
    pub fn find(&self, path: &str) -> (r: Option<&WatchEntry>)
        ensures
            match r {
                Some(e) => entry_index(self.watches@, path@) matches Some(k) && *e == self.watches@[k],
                None => entry_index(self.watches@, path@) is None,
            },
    {
        match index_of(&self.watches, path) {
            Some(k) => Some(&self.watches[k]),
            None => None,
        }
    }

    pub fn find_mut(&mut self, path: &str) -> (r: Option<&mut WatchEntry>)
        ensures
            match r {
                Some(e) => entry_index(old(self).watches@, path@) matches Some(k) && *e
                    == old(self).watches@[k] && final(self).watches@ == old(self).watches@.update(
                    k,
                    *final(e),
                ),
                None => entry_index(old(self).watches@, path@) is None && final(self).watches@
                    == old(self).watches@,
            },
    {
        match index_of(&self.watches, path) {
            Some(k) => Some(&mut self.watches[k]),
            None => None,
        }
    }
}

/// `list`: every watch, ascending by path (equal paths keep their order).
pub open spec fn insert_entry_sorted(s: Seq<WatchEntry>, e: WatchEntry) -> Seq<WatchEntry>
    decreases s.len(),
{
    if s.len() == 0 {
        seq![e]
    } else if path_order(s.last().path@, e.path@) != Order3::Greater {
        s.push(e)
    } else {
        insert_entry_sorted(s.drop_last(), e).push(s.last())
    }
}

pub open spec fn sorted_entries(w: Seq<WatchEntry>) -> Seq<WatchEntry>
    decreases w.len(),
{
    if w.len() == 0 {
        Seq::empty()
    } else {
        insert_entry_sorted(sorted_entries(w.drop_last()), w.last())
    }
}

fn insert_sorted_entry(v: &mut Vec<WatchEntry>, e: WatchEntry)
    ensures
        final(v)@ == insert_entry_sorted(old(v)@, e),
    decreases old(v)@.len(),
{
    if v.len() == 0 {
        v.push(e);
        assert(v@ =~= seq![e]);
        return;
    }
    let last = v.len() - 1;
    if path_compare(v[last].path.as_str(), e.path.as_str()) != Order3::Greater {
        v.push(e);
        return;
    }
    let top = v.pop().unwrap();
    insert_sorted_entry(v, e);
    v.push(top);
}

/// Every watch, sorted by path.
pub fn list(reg: &Registry) -> (r: Vec<WatchEntry>)
    ensures
        r@ == sorted_entries(reg.watches@),
{
    let mut out: Vec<WatchEntry> = Vec::new();
    let mut i: usize = 0;
    while i < reg.watches.len()
        invariant
            i <= reg.watches@.len(),
            out@ == sorted_entries(reg.watches@.subrange(0, i as int)),
        decreases reg.watches@.len() - i,
    {
        assert(reg.watches@.subrange(0, i + 1).drop_last() =~= reg.watches@.subrange(0, i as int));
        insert_sorted_entry(&mut out, reg.watches[i].clone());
        i += 1;
    }
    assert(reg.watches@.subrange(0, reg.watches@.len() as int) =~= reg.watches@);
    out
}

/// The registered watch for `path`, if any.
pub fn find(reg: &Registry, canonical: &str) -> (r: Option<WatchEntry>)
    ensures
        match r {
            Some(e) => entry_index(reg.watches@, canonical@) matches Some(k) && e == reg.watches@[k],
            None => entry_index(reg.watches@, canonical@) is None,
        },
{
    match reg.find(canonical) {
        Some(e) => Some(e.clone()),
        None => None,
    }
}

pub open spec fn new_entry(path: Seq<char>, recursive: bool, now: u64, e: WatchEntry) -> bool {
    &&& e.path@ == path
    &&& e.state == WatchState::Stopped
    &&& e.auto_apply
    &&& e.recursive == recursive
    &&& e.created_at == now
    &&& e.updated_at == now
    &&& e.last_event_at is None
    &&& e.last_success_at is None
    &&& e.last_error is None
    &&& e.organized_count == 0
    &&& e.error_count == 0
}

/// Registers a new watch, stopped (adding never starts monitoring). It
/// requires the explicit `auto_apply` authorization and refuses a path
/// already registered.
pub fn add(reg: &mut Registry, canonical: String, auto_apply: bool, recursive: bool, now: u64) -> (r: Result<WatchEntry, String>)
    ensures
        !auto_apply ==> (r matches Err(m) && m@
            == "Automatic watch organization requires explicit --auto-apply authorization."@
            && final(reg).watches@ == old(reg).watches@),
        auto_apply && entry_index(old(reg).watches@, canonical@) is Some ==> (r matches Err(m) && m@
            == canonical@ + " is already a registered watch"@ && final(reg).watches@ == old(
            reg,
        ).watches@),
        auto_apply && entry_index(old(reg).watches@, canonical@) is None ==> (r matches Ok(e)
            && new_entry(canonical@, recursive, now, e) && final(reg).watches@ == old(reg).watches@.push(e)),
{
    if !auto_apply {
        return Err("Automatic watch organization requires explicit --auto-apply authorization.".to_owned());
    }
    if index_of(&reg.watches, canonical.as_str()).is_some() {
        return Err(concat(canonical.as_str(), " is already a registered watch"));
    }
    let entry = WatchEntry {
        path: canonical,
        state: WatchState::Stopped,
        auto_apply: true,
        recursive,
        created_at: now,
        updated_at: now,
        last_event_at: None,
        last_success_at: None,
        last_error: None,
        organized_count: 0,
        error_count: 0,
    };
    reg.watches.push(entry.clone());
    Ok(entry)
}

pub open spec fn keep_pred(path: Seq<char>) -> spec_fn(WatchEntry) -> bool {
    |e: WatchEntry| !same_path(e.path@, path)
}

pub open spec fn without_path(w: Seq<WatchEntry>, path: Seq<char>) -> Seq<WatchEntry> {
    w.filter(keep_pred(path))
}

/// Removes every registry entry for `path` (the daemon tears the watch
/// down when it sees the entry gone); an unknown path is an error.
pub fn remove(reg: &mut Registry, canonical: &str) -> (r: Result<(), String>)
    ensures
        final(reg).watches@ == without_path(old(reg).watches@, canonical@),
        r is Ok <==> entry_index(old(reg).watches@, canonical@) is Some,
        r matches Err(m) ==> m@ == canonical@ + " is not a registered watch"@,
{
    let ghost w0 = reg.watches@;
    let mut kept: Vec<WatchEntry> = Vec::new();
    let mut removed = false;
    let mut i: usize = 0;
    let n = reg.watches.len();
    proof {
        lemma_entry_index(w0, canonical@);
        assert(w0.subrange(0, 0).filter(keep_pred(canonical@)) =~= Seq::<WatchEntry>::empty()) by {
            reveal(Seq::filter);
        }
    }
    while i < n
        invariant
            i <= n,
            n == w0.len(),
            reg.watches@ == w0,
            kept@ == without_path(w0.subrange(0, i as int), canonical@),
            removed == exists|j: int| 0 <= j < i && same_path(#[trigger] w0[j].path@, canonical@),
        decreases n - i,
    {
        let ghost pre = w0.subrange(0, i as int);
        assert(w0.subrange(0, i + 1) =~= pre.push(w0[i as int]));
        assert(without_path(pre.push(w0[i as int]), canonical@) =~= if same_path(w0[i as int].path@, canonical@) {
            without_path(pre, canonical@)
        } else {
            without_path(pre, canonical@).push(w0[i as int])
        }) by {
            pre.lemma_filter_push(w0[i as int], keep_pred(canonical@));
        }
        if paths_equal(reg.watches[i].path.as_str(), canonical) {
            removed = true;
        } else {
            kept.push(reg.watches[i].clone());
        }
        i += 1;
    }
    assert(w0.subrange(0, n as int) =~= w0);
    assert(w0.subrange(0, 0).filter(keep_pred(canonical@)) =~= Seq::<WatchEntry>::empty()) by {
        reveal(Seq::filter);
    }
    reg.watches = kept;
    if removed {
        Ok(())
    } else {
        Err(concat(canonical, " is not a registered watch"))
    }
}

/// The only state changes a watch may make.
pub open spec fn allowed_spec(from: WatchState, to: WatchState) -> bool {
    (from == WatchState::Stopped && to == WatchState::Running) || (from == WatchState::Running && to
        == WatchState::Paused) || (from == WatchState::Paused && to == WatchState::Running) || (from
        == WatchState::Running && to == WatchState::Stopped) || (from == WatchState::Paused && to
        == WatchState::Stopped)
}

pub fn allowed_transition(from: WatchState, to: WatchState) -> (r: bool)
    ensures
        r == allowed_spec(from, to),
{
    match (from, to) {
        (WatchState::Stopped, WatchState::Running) => true,
        (WatchState::Running, WatchState::Paused) => true,
        (WatchState::Paused, WatchState::Running) => true,
        (WatchState::Running, WatchState::Stopped) => true,
        (WatchState::Paused, WatchState::Stopped) => true,
        _ => false,
    }
}

/// Moves the watch for `path` to state `to`, if that change is allowed.
pub fn transition(reg: &mut Registry, canonical: &str, to: WatchState, now: u64) -> (r: Result<WatchEntry, String>)
    ensures
        match entry_index(old(reg).watches@, canonical@) {
            None => r matches Err(m) && m@ == canonical@ + " is not a registered watch"@
                && final(reg).watches@ == old(reg).watches@,
            Some(k) => {
                let e = old(reg).watches@[k];
                if allowed_spec(e.state, to) {
                    r matches Ok(ne) && ne == (WatchEntry { state: to, updated_at: now, ..e })
                        && final(reg).watches@ == old(reg).watches@.update(k, ne)
                } else {
                    r matches Err(m) && m@ == "cannot go from "@ + state_label(e.state) + " to "@
                        + state_label(to) && final(reg).watches@ == old(reg).watches@
                }
            },
        },
{
    match index_of(&reg.watches, canonical) {
        None => Err(concat(canonical, " is not a registered watch")),
        Some(k) => {
            let from = reg.watches[k].state;
            if !allowed_transition(from, to) {
                let a = concat3("cannot go from ", from.label(), " to ");
                return Err(concat(a.as_str(), to.label()));
            }
            let mut e = reg.watches[k].clone();
            e.state = to;
            e.updated_at = now;
            reg.watches.set(k, e.clone());
            Ok(e)
        },
    }
}

/// Changes the watch's recursion scope (no state change).
pub fn set_recursive(reg: &mut Registry, canonical: &str, recursive: bool, now: u64) -> (r: Result<WatchEntry, String>)
    ensures
        match entry_index(old(reg).watches@, canonical@) {
            None => r matches Err(m) && m@ == canonical@ + " is not a registered watch"@
                && final(reg).watches@ == old(reg).watches@,
            Some(k) => {
                let ne = WatchEntry { recursive, updated_at: now, ..old(reg).watches@[k] };
                r == Ok::<WatchEntry, String>(ne) && final(reg).watches@ == old(reg).watches@.update(k, ne)
            },
        },
{
    match index_of(&reg.watches, canonical) {
        None => Err(concat(canonical, " is not a registered watch")),
        Some(k) => {
            let mut e = reg.watches[k].clone();
            e.recursive = recursive;
            e.updated_at = now;
            reg.watches.set(k, e.clone());
            Ok(e)
        },
    }
}

/// Records that an event was seen for the watch (no-op for an unknown one).
pub fn record_event(reg: &mut Registry, canonical: &str, now: u64)
    ensures
        match entry_index(old(reg).watches@, canonical@) {
            None => final(reg).watches@ == old(reg).watches@,
            Some(k) => final(reg).watches@ == old(reg).watches@.update(
                k,
                WatchEntry { last_event_at: Some(now), updated_at: now, ..old(reg).watches@[k] },
            ),
        },
{
    match index_of(&reg.watches, canonical) {
        None => {},
        Some(k) => {
            let mut e = reg.watches[k].clone();
            e.last_event_at = Some(now);
            e.updated_at = now;
            reg.watches.set(k, e);
        },
    }
}

/// Records `moved` more organized files for the watch.
pub fn record_success(reg: &mut Registry, canonical: &str, moved: u64, now: u64)
    requires
        match entry_index(old(reg).watches@, canonical@) {
            Some(k) => old(reg).watches@[k].organized_count + moved <= u64::MAX,
            None => true,
        },
    ensures
        match entry_index(old(reg).watches@, canonical@) {
            None => final(reg).watches@ == old(reg).watches@,
            Some(k) => final(reg).watches@ == old(reg).watches@.update(
                k,
                WatchEntry {
                    organized_count: (old(reg).watches@[k].organized_count + moved) as u64,
                    last_success_at: Some(now),
                    updated_at: now,
                    ..old(reg).watches@[k]
                },
            ),
        },
{
    match index_of(&reg.watches, canonical) {
        None => {},
        Some(k) => {
            let mut e = reg.watches[k].clone();
            e.organized_count = e.organized_count + moved;
            e.last_success_at = Some(now);
            e.updated_at = now;
            reg.watches.set(k, e);
        },
    }
}

/// Records an error for the watch.
pub fn record_error(reg: &mut Registry, canonical: &str, message: String, now: u64)
    requires
        match entry_index(old(reg).watches@, canonical@) {
            Some(k) => old(reg).watches@[k].error_count < u64::MAX,
            None => true,
        },
    ensures
        match entry_index(old(reg).watches@, canonical@) {
            None => final(reg).watches@ == old(reg).watches@,
            Some(k) => final(reg).watches@ == old(reg).watches@.update(
                k,
                WatchEntry {
                    error_count: (old(reg).watches@[k].error_count + 1) as u64,
                    last_error: Some(message),
                    updated_at: now,
                    ..old(reg).watches@[k]
                },
            ),
        },
{
    match index_of(&reg.watches, canonical) {
        None => {},
        Some(k) => {
            let mut e = reg.watches[k].clone();
            e.error_count = e.error_count + 1;
            e.last_error = Some(message);
            e.updated_at = now;
            reg.watches.set(k, e);
        },
    }
}

/// Validates a candidate watch root from what a no-follow look at it
/// found (`kind`), its canonical form, and whether that canonical path is
/// a software project root: it must be a real directory, not the
/// filesystem root, not a built-in category directory, not a project.
pub open spec fn validate_root_spec(kind: PathKind, canonical: Result<Seq<char>, Seq<char>>, project_root: bool) -> Result<Seq<char>, Seq<char>> {
    if kind == PathKind::Absent {
        Err("the path does not exist"@)
    } else if kind == PathKind::Symlink {
        Err("the watch root itself must not be a symlink"@)
    } else if kind != PathKind::Dir {
        Err("the watch root must be a directory"@)
    } else {
        match canonical {
            Err(e) => Err("cannot resolve path: "@ + e),
            Ok(c) => if crate::path::parent_path(c) is None {
                Err("refusing to watch the filesystem root"@)
            } else if crate::scanner::is_category_name(crate::scanner::name_or_empty(c)) {
                Err("'"@ + crate::scanner::name_or_empty(c) + "' is one of Sift's own category directories and cannot be watched"@)
            } else if project_root {
                Err("the watch root is a recognized software project root and cannot be watched"@)
            } else {
                Ok(c)
            },
        }
    }
}

pub fn validate_root(kind: PathKind, canonical: Result<String, String>, project_root: bool) -> (r: Result<String, String>)
    ensures
        crate::config::str_res_view(r) == validate_root_spec(kind, crate::config::str_res_view(canonical), project_root),
{
    if kind == PathKind::Absent {
        return Err("the path does not exist".to_owned());
    }
    if kind == PathKind::Symlink {
        return Err("the watch root itself must not be a symlink".to_owned());
    }
    if kind != PathKind::Dir {
        return Err("the watch root must be a directory".to_owned());
    }
    let c = match canonical {
        Err(e) => {
            return Err(concat("cannot resolve path: ", e.as_str()));
        },
        Ok(c) => c,
    };
    if crate::path::path_parent(c.as_str()).is_none() {
        return Err("refusing to watch the filesystem root".to_owned());
    }
    let name = crate::scanner::file_name_or_empty(c.as_str());
    if crate::scanner::is_sift_category_dir(name.as_str()) {
        return Err(concat3("'", name.as_str(), "' is one of Sift's own category directories and cannot be watched"));
    }
    if project_root {
        return Err("the watch root is a recognized software project root and cannot be watched".to_owned());
    }
    Ok(c)
}

/// The daemon's singleton lock file in the watch data directory.
pub fn daemon_lock_path(watch_dir: &str) -> (r: String)
    ensures
        r@ == crate::path::join(watch_dir@, "daemon.lock"@),
{
    path_join(watch_dir, "daemon.lock")
}

/// The daemon's status record in the watch data directory.
pub fn daemon_info_path(watch_dir: &str) -> (r: String)
    ensures
        r@ == crate::path::join(watch_dir@, "daemon.info"@),
{
    path_join(watch_dir, "daemon.info")
}

/// The daemon's stop-request file in the watch data directory.
pub fn daemon_stop_path(watch_dir: &str) -> (r: String)
    ensures
        r@ == crate::path::join(watch_dir@, "daemon.stop"@),
{
    path_join(watch_dir, "daemon.stop")
}

/// The daemon's log file in the watch data directory.
pub fn daemon_log_path(watch_dir: &str) -> (r: String)
    ensures
        r@ == crate::path::join(watch_dir@, "daemon.log"@),
{
    path_join(watch_dir, "daemon.log")
}

} // verus!
