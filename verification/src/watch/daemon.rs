//! The daemon's bookkeeping decisions: which roots to stop and start
//! monitoring when the registry changes, and which root an event belongs
//! to. Watchers, the event channel and the loop itself are the
//! application's.
use vstd::prelude::*;
use crate::path::{path_strip_prefix, paths_equal, same_path, strip_prefix, strings_view};

verus! {

/// A monitored (or to-be-monitored) root: its path and recursion scope.
pub open spec fn roots_view(v: Seq<(String, bool)>) -> Seq<(Seq<char>, bool)> {
    v.map_values(|r: (String, bool)| (r.0@, r.1))
}

/// Whether `(p, rec)` is among `rs` (paths compared as paths).
pub open spec fn has_root(rs: Seq<(Seq<char>, bool)>, p: Seq<char>, rec: bool) -> bool {
    exists|k: int| 0 <= k < rs.len() && same_path(#[trigger] rs[k].0, p) && rs[k].1 == rec
}

/// The monitored roots to tear down: no longer running, or running with a
/// different recursion scope (a monitor's scope is fixed when it is built).
pub open spec fn to_drop_spec(running: Seq<(Seq<char>, bool)>, monitored: Seq<(Seq<char>, bool)>) -> Seq<Seq<char>> {
    monitored.filter(|m: (Seq<char>, bool)| !has_root(running, m.0, m.1)).map_values(|m: (Seq<char>, bool)| m.0)
}

/// The running roots to start monitoring: those not already monitored
/// with the same scope.
pub open spec fn to_start_spec(running: Seq<(Seq<char>, bool)>, monitored: Seq<(Seq<char>, bool)>) -> Seq<(Seq<char>, bool)> {
    running.filter(|r: (Seq<char>, bool)| !has_root(monitored, r.0, r.1))
}

/// What reconciling the monitored roots with the registry does.
#[derive(Debug)]
pub struct ReconcilePlan {
    pub drop: Vec<String>,
    pub start: Vec<(String, bool)>,
}

fn contains_root(rs: &Vec<(String, bool)>, p: &str, rec: bool) -> (r: bool)
    ensures
        r == has_root(roots_view(rs@), p@, rec),
{
    let ghost v = roots_view(rs@);
    let mut i: usize = 0;
    while i < rs.len()
        invariant
            i <= rs@.len(),
            v == roots_view(rs@),
            forall|k: int| 0 <= k < i ==> !(same_path(#[trigger] v[k].0, p@) && v[k].1 == rec),
        decreases rs@.len() - i,
    {
        assert(v[i as int] == (rs@[i as int].0@, rs@[i as int].1));
        if rs[i].1 == rec && paths_equal(rs[i].0.as_str(), p) {
            assert(same_path(v[i as int].0, p@) && v[i as int].1 == rec);
            return true;
        }
        i += 1;
    }
    false
}

pub open spec fn drop_pred(running: Seq<(Seq<char>, bool)>) -> spec_fn((Seq<char>, bool)) -> bool {
    |m: (Seq<char>, bool)| !has_root(running, m.0, m.1)
}

pub open spec fn start_pred(monitored: Seq<(Seq<char>, bool)>) -> spec_fn((Seq<char>, bool)) -> bool {
    |r: (Seq<char>, bool)| !has_root(monitored, r.0, r.1)
}

/// Compares the running watches of the registry with what is monitored.
pub fn plan_reconcile(running: &Vec<(String, bool)>, monitored: &Vec<(String, bool)>) -> (r: ReconcilePlan)
    ensures
        strings_view(r.drop@) == to_drop_spec(roots_view(running@), roots_view(monitored@)),
        roots_view(r.start@) == to_start_spec(roots_view(running@), roots_view(monitored@)),
{
    let ghost rv = roots_view(running@);
    let ghost mv = roots_view(monitored@);
    let mut drop: Vec<String> = Vec::new();
    let mut i: usize = 0;
    assert(mv.subrange(0, 0).filter(drop_pred(rv)) =~= Seq::<(Seq<char>, bool)>::empty()) by {
        reveal(Seq::filter);
    }
    while i < monitored.len()
        invariant
            i <= monitored@.len(),
            rv == roots_view(running@),
            mv == roots_view(monitored@),
            strings_view(drop@) == mv.subrange(0, i as int).filter(drop_pred(rv)).map_values(
                |m: (Seq<char>, bool)| m.0,
            ),
        decreases monitored@.len() - i,
    {
        let ghost pre = mv.subrange(0, i as int);
        proof {
            pre.lemma_filter_push(mv[i as int], drop_pred(rv));
            assert(mv.subrange(0, i + 1) =~= pre.push(mv[i as int]));
        }
        assert(mv[i as int] == (monitored@[i as int].0@, monitored@[i as int].1));
        if !contains_root(running, monitored[i].0.as_str(), monitored[i].1) {
            let ghost b = strings_view(drop@);
            drop.push(monitored[i].0.clone());
            assert(strings_view(drop@) =~= b.push(mv[i as int].0));
            assert(pre.filter(drop_pred(rv)).push(mv[i as int]).map_values(|m: (Seq<char>, bool)| m.0)
                =~= pre.filter(drop_pred(rv)).map_values(|m: (Seq<char>, bool)| m.0).push(mv[i as int].0));
        }
        i += 1;
    }
    assert(mv.subrange(0, mv.len() as int) =~= mv);
    assert(to_drop_spec(rv, mv) == mv.filter(drop_pred(rv)).map_values(|m: (Seq<char>, bool)| m.0));
    let mut start: Vec<(String, bool)> = Vec::new();
    let mut j: usize = 0;
    assert(rv.subrange(0, 0).filter(start_pred(mv)) =~= Seq::<(Seq<char>, bool)>::empty()) by {
        reveal(Seq::filter);
    }
    while j < running.len()
        invariant
            j <= running@.len(),
            rv == roots_view(running@),
            mv == roots_view(monitored@),
            roots_view(start@) == rv.subrange(0, j as int).filter(start_pred(mv)),
        decreases running@.len() - j,
    {
        let ghost pre = rv.subrange(0, j as int);
        proof {
            pre.lemma_filter_push(rv[j as int], start_pred(mv));
            assert(rv.subrange(0, j + 1) =~= pre.push(rv[j as int]));
        }
        assert(rv[j as int] == (running@[j as int].0@, running@[j as int].1));
        if !contains_root(monitored, running[j].0.as_str(), running[j].1) {
            let ghost b = roots_view(start@);
            start.push((running[j].0.clone(), running[j].1));
            assert(roots_view(start@) =~= b.push(rv[j as int]));
        }
        j += 1;
    }
    assert(rv.subrange(0, rv.len() as int) =~= rv);
    assert(to_start_spec(rv, mv) == rv.filter(start_pred(mv)));
    ReconcilePlan { drop, start }
}

/// The first monitored root `path` lies under (as a path prefix).
pub open spec fn route_spec(roots: Seq<Seq<char>>, path: Seq<char>) -> Option<int>
    decreases roots.len(),
{
    if roots.len() == 0 {
        None
    } else if strip_prefix(path, roots[0]) is Some {
        Some(0)
    } else {
        match route_spec(roots.drop_first(), path) {
            Some(k) => Some(k + 1),
            None => None,
        }
    }
}

/// The root a filesystem event at `path` belongs to, if any.
pub fn route_event(roots: &Vec<String>, path: &str) -> (r: Option<usize>)
    ensures
        match r {
            Some(k) => route_spec(strings_view(roots@), path@) == Some(k as int) && k < roots@.len(),
            None => route_spec(strings_view(roots@), path@) is None,
        },
{
    let ghost v = strings_view(roots@);
    let mut i: usize = 0;
    assert(v.subrange(0, v.len() as int) =~= v);
    while i < roots.len()
        invariant
            i <= roots@.len(),
            v == strings_view(roots@),
            route_spec(v, path@) == match route_spec(v.subrange(i as int, v.len() as int), path@) {
                Some(k) => Some(k + i),
                None => None,
            },
        decreases roots@.len() - i,
    {
        let ghost rest = v.subrange(i as int, v.len() as int);
        assert(rest.drop_first() =~= v.subrange(i + 1, v.len() as int));
        assert(rest[0] == roots@[i as int]@);
        if path_strip_prefix(path, roots[i].as_str()).is_some() {
            return Some(i);
        }
        i += 1;
    }
    None
}

/// Reconciling starts every running watch that is not monitored with its
/// own scope, and tears down every monitored root that is not running with
/// that scope.
pub proof fn law_reconcile_matches_registry(running: Seq<(Seq<char>, bool)>, monitored: Seq<(Seq<char>, bool)>)
    ensures
        forall|k: int|
            0 <= k < running.len() && !has_root(monitored, #[trigger] running[k].0, running[k].1)
                ==> to_start_spec(running, monitored).contains(running[k]),
        forall|k: int|
            0 <= k < monitored.len() && !has_root(running, #[trigger] monitored[k].0, monitored[k].1)
                ==> to_drop_spec(running, monitored).contains(monitored[k].0),
{
    running.filter_lemma(start_pred(monitored));
    monitored.filter_lemma(drop_pred(running));
    assert forall|k: int|
        0 <= k < running.len() && !has_root(monitored, #[trigger] running[k].0, running[k].1)
            implies to_start_spec(running, monitored).contains(running[k]) by {
        assert(start_pred(monitored)(running[k]));
    }
    assert forall|k: int|
        0 <= k < monitored.len() && !has_root(running, #[trigger] monitored[k].0, monitored[k].1)
            implies to_drop_spec(running, monitored).contains(monitored[k].0) by {
        let f = monitored.filter(drop_pred(running));
        assert(drop_pred(running)(monitored[k]));
        assert(f.contains(monitored[k]));
        let w = choose|w: int| 0 <= w < f.len() && f[w] == monitored[k];
        assert(f.map_values(|m: (Seq<char>, bool)| m.0)[w] == monitored[k].0);
    }
}

} // verus!
