//! The deterministic core of watch: turning one stabilized candidate into
//! either a reported skip or a plan to execute, through the same scanner
//! and planner manual organize uses, and tracking each root's candidates.
use vstd::prelude::*;
use crate::classifier::CategoryDB;
use crate::config::{could_be_generated, policy_wf, EffectivePolicy};
use crate::domain::{ActionResult, Op, Plan};
use crate::executor::{ExecutionError, ExecutionReport};
use crate::path::{
    comps_view,
    join,
    path_join,
    path_strip_prefix,
    parent_path,
    path_parent,
    strip_prefix,
    Comp,
};
use crate::planner::{
    action_view,
    actions_view,
    could_be_own_output_dir,
    extends,
    lookup_asked,
    lemma_asked_seq,
    policy_observed,
    QueryView,
    has_valid_override,
    local_policy_in,
    local_policy_override_ok,
    own_output_dir_spec,
    plan_entry_with_strategy,
    strategy_resolution,
    EntryPlan,
    FsSnapshot,
    Query,
};
use crate::scanner::{revalidate_candidate, revalidate_spec};
use crate::watch::eligibility::{
    eligible_spec,
    is_eligible_candidate_path,
    is_transient_filename,
    transient_spec,
};
use crate::watch::stability::{
    keys_of,
    poll_kept,
    poll_ready_spec,
    tracked_index,
    PendingView,
    Snapshot,
    StabilityTracker,
};

verus! {

/// What happened to one candidate.
#[derive(Debug)]
pub struct ProcessOutcome {
    /// A file was actually moved.
    pub organized: bool,
    /// The candidate was safely skipped, and why.
    pub skip_reason: Option<String>,
    /// Execution was attempted and failed.
    pub failure: Option<String>,
    /// Set whenever a history record was written.
    pub history_id: Option<String>,
}

/// Whether some ancestor between `watch_root` and the candidate (not the
/// candidate itself) could be one of the organize destinations of the
/// policy governing its own parent: a name the date template's first
/// level generates, or a built-in category / `Move` rule destination that
/// does not govern itself with its own valid `.sift.toml`. Governing
/// policies are re-derived top-down, switching at each directory-own
/// `.sift.toml`.
pub open spec fn crosses(snap: FsSnapshot, gov: EffectivePolicy, dir: Seq<char>, comps: Seq<Comp<Seq<char>>>) -> bool
    decreases comps.len(),
{
    if comps.len() == 0 {
        false
    } else {
        match comps[0] {
            Comp::Normal(name) => {
                if gov.template matches Some(t) && could_be_generated(t@, 0, name) {
                    true
                } else {
                    let child = join(dir, name);
                    if own_output_dir_spec(gov, name) && !has_valid_override(snap, child) {
                        true
                    } else {
                        let next = match local_policy_in(snap.local_policies@, child) {
                            Some(Ok(p)) => p,
                            _ => gov,
                        };
                        crosses(snap, next, child, comps.drop_first())
                    }
                }
            },
            _ => crosses(snap, gov, dir, comps.drop_first()),
        }
    }
}

/// Whether the snapshot holds every observation `crosses` consults (each
/// level's own policy file, down to where the walk stops).
pub open spec fn crosses_observed(snap: FsSnapshot, gov: EffectivePolicy, dir: Seq<char>, comps: Seq<Comp<Seq<char>>>) -> bool
    decreases comps.len(),
{
    if comps.len() == 0 {
        true
    } else {
        match comps[0] {
            Comp::Normal(name) => {
                if gov.template matches Some(t) && could_be_generated(t@, 0, name) {
                    true
                } else {
                    let child = join(dir, name);
                    if own_output_dir_spec(gov, name) && !has_valid_override(snap, child) {
                        policy_observed(snap.local_policies@, child)
                    } else {
                        let next = match local_policy_in(snap.local_policies@, child) {
                            Some(Ok(p)) => p,
                            _ => gov,
                        };
                        policy_observed(snap.local_policies@, child) && crosses_observed(
                            snap,
                            next,
                            child,
                            comps.drop_first(),
                        )
                    }
                }
            },
            _ => crosses_observed(snap, gov, dir, comps.drop_first()),
        }
    }
}

pub open spec fn crosses_spec_observed(snap: FsSnapshot, root: Seq<char>, path: Seq<char>, root_policy: EffectivePolicy) -> bool {
    match strip_prefix(path, root) {
        None => true,
        Some(rel) => rel.len() == 0 || crosses_observed(snap, root_policy, root, rel.drop_last()),
    }
}

pub open spec fn crosses_spec(snap: FsSnapshot, root: Seq<char>, path: Seq<char>, root_policy: EffectivePolicy) -> bool {
    match strip_prefix(path, root) {
        None => false,
        Some(rel) => rel.len() > 0 && crosses(snap, root_policy, root, rel.drop_last()),
    }
}

fn local_policy_ref<'a>(snap: &'a FsSnapshot, d: &str, asked: &mut Vec<Query>) -> (r: Option<&'a EffectivePolicy>)
    ensures
        match r {
            Some(p) => local_policy_in(snap.local_policies@, d@) == Some(Ok::<EffectivePolicy, Seq<char>>(*p)),
            None => !(local_policy_in(snap.local_policies@, d@) matches Some(Ok(_))),
        },
        extends(old(asked)@, final(asked)@),
        lookup_asked(
            old(asked)@,
            final(asked)@,
            policy_observed(snap.local_policies@, d@),
            QueryView::LocalPolicy(d@),
        ),
{
    let ghost ls = snap.local_policies@;
    let mut i: usize = 0;
    assert(ls.subrange(0, ls.len() as int) =~= ls);
    while i < snap.local_policies.len()
        invariant
            i <= ls.len(),
            ls == snap.local_policies@,
            forall|j: int| 0 <= j < i ==> ls[j].0@ != d@,
            local_policy_in(ls, d@) == local_policy_in(ls.subrange(i as int, ls.len() as int), d@),
        decreases ls.len() - i,
    {
        let ghost rest = ls.subrange(i as int, ls.len() as int);
        assert(rest.drop_first() =~= ls.subrange(i + 1, ls.len() as int));
        assert(rest[0] == ls[i as int]);
        if crate::text::str_eq(snap.local_policies[i].0.as_str(), d) {
            return match &snap.local_policies[i].1 {
                Some(Ok(p)) => Some(p),
                _ => None,
            };
        }
        i += 1;
    }
    asked.push(Query::LocalPolicy(d.to_owned()));
    None
}

pub fn crosses_strategy_generated_boundary(
    snap: &FsSnapshot,
    watch_root: &str,
    path: &str,
    root_policy: &EffectivePolicy,
    asked: &mut Vec<Query>,
) -> (r: bool)
    ensures
        r == crosses_spec(*snap, watch_root@, path@, *root_policy),
        extends(old(asked)@, final(asked)@),
        final(asked)@ == old(asked)@ <==> crosses_spec_observed(*snap, watch_root@, path@, *root_policy),
{
    let rel = match path_strip_prefix(path, watch_root) {
        Some(r) => r,
        None => {
            return false;
        },
    };
    if rel.len() == 0 {
        return false;
    }
    let ghost rv = comps_view(rel@);
    let last = rel.len() - 1;
    let mut governing: &EffectivePolicy = root_policy;
    let mut dir = watch_root.to_owned();
    let mut i: usize = 0;
    assert(rv.drop_last().subrange(0, rv.len() - 1) =~= rv.drop_last());
    while i < last
        invariant
            i <= last,
            last == rel@.len() - 1,
            rv == comps_view(rel@),
            strip_prefix(path@, watch_root@) == Some(rv),
            crosses_spec(*snap, watch_root@, path@, *root_policy) == crosses(
                *snap,
                *governing,
                dir@,
                rv.drop_last().subrange(i as int, rv.len() - 1),
            ),
            extends(old(asked)@, asked@),
            crosses_spec_observed(*snap, watch_root@, path@, *root_policy) == (asked@ == old(asked)@
                && crosses_observed(*snap, *governing, dir@, rv.drop_last().subrange(i as int, rv.len() - 1))),
        decreases last - i,
    {
        let ghost sub = rv.drop_last().subrange(i as int, rv.len() - 1);
        assert(sub.drop_first() =~= rv.drop_last().subrange(i + 1, rv.len() - 1));
        assert(sub[0] == crate::path::comp_view(rel@[i as int]));
        match &rel[i] {
            Comp::Normal(name) => {
                let generated = match &governing.template {
                    Some(t) => t.component_could_be_generated(0, name.as_str()),
                    None => false,
                };
                if generated {
                    return true;
                }
                let child = path_join(dir.as_str(), name.as_str());
                let ghost a0 = asked@;
                if could_be_own_output_dir(governing, name.as_str()) {
                    let ok = local_policy_override_ok(snap, child.as_str(), asked);
                    proof {
                        lemma_asked_seq(old(asked)@, a0, asked@);
                        if !policy_observed(snap.local_policies@, child@) {
                            assert(asked@.len() != a0.len());
                        }
                    }
                    if !ok {
                        return true;
                    }
                }
                let ghost a1 = asked@;
                let found = local_policy_ref(snap, child.as_str(), asked);
                proof {
                    lemma_asked_seq(old(asked)@, a1, asked@);
                    lemma_asked_seq(a0, a1, asked@);
                    lemma_asked_seq(old(asked)@, a0, a1);
                    if !policy_observed(snap.local_policies@, child@) {
                        assert(asked@.len() != a1.len());
                    }
                }
                match found {
                    Some(p) => {
                        governing = p;
                    },
                    None => {},
                }
                dir = child;
            },
            _ => {},
        }
        i += 1;
    }
    assert(rv.drop_last().subrange(last as int, rv.len() - 1).len() == 0);
    false
}

/// What processing one candidate comes to before anything is executed.
#[derive(Debug)]
pub enum CandidateStep {
    /// Nothing to execute; the candidate's outcome.
    Done(ProcessOutcome),
    /// Execute this plan (its `CreateDir`s, then the candidate's action).
    Execute(Plan),
}

pub open spec fn skip_outcome(reason: Option<Seq<char>>) -> (bool, Option<Seq<char>>, Option<Seq<char>>, Option<Seq<char>>) {
    (false, reason, None, None)
}

pub open spec fn outcome_view(o: ProcessOutcome) -> (bool, Option<Seq<char>>, Option<Seq<char>>, Option<Seq<char>>) {
    (o.organized, crate::planner::opt_view(o.skip_reason), crate::planner::opt_view(o.failure), crate::planner::opt_view(o.history_id))
}

/// Whether the snapshot holds every observation processing the candidate
/// at `path` consults.
pub open spec fn candidate_observed(
    snap: FsSnapshot,
    watch_root: Seq<char>,
    root_policy: EffectivePolicy,
    policy: EffectivePolicy,
    table: Seq<(Seq<char>, crate::domain::Category)>,
    path: Seq<char>,
) -> bool {
    &&& crate::scanner::revalidate_observed(snap, watch_root, path)
    &&& match revalidate_spec(snap, watch_root, path) {
        Err(_) => true,
        Ok(e) => crosses_spec_observed(snap, watch_root, path, root_policy) && (crosses_spec(
            snap,
            watch_root,
            path,
            root_policy,
        ) || crate::planner::strategy_observed(
            snap,
            e,
            match parent_path(path) {
                Some(d) => d,
                None => watch_root,
            },
            policy,
            table,
        )),
    }
}

/// Processes one stabilized candidate: re-validate it against the live
/// state, refuse it under a self-generated destination directory, plan
/// it with the same per-entry planner manual organize uses under
/// `policy` (the policy governing its own directory), and hand back the
/// plan unless its action is a skip. `root_policy` governs `watch_root`.
pub fn process_candidate(
    watch_root: &str,
    root_policy: &EffectivePolicy,
    policy: &EffectivePolicy,
    builtin: &CategoryDB,
    path: &str,
    snap: &FsSnapshot,
    asked: &mut Vec<Query>,
) -> (r: CandidateStep)
    requires
        policy_wf(*policy),
    ensures
        match revalidate_spec(*snap, watch_root@, path@) {
            Err(why) => r matches CandidateStep::Done(o) && outcome_view(o) == skip_outcome(Some(why)),
            Ok(e) => if crosses_spec(*snap, watch_root@, path@, *root_policy) {
                r matches CandidateStep::Done(o) && outcome_view(o) == skip_outcome(Some("date-organized directory"@))
            } else {
                let dir = match parent_path(path@) {
                    Some(d) => d,
                    None => watch_root@,
                };
                let res = strategy_resolution(*snap, e, dir, *policy, builtin@);
                if res.0.op == Op::Skip {
                    r matches CandidateStep::Done(o) && outcome_view(o) == skip_outcome(res.0.reason)
                } else {
                    r matches CandidateStep::Execute(plan) && actions_view(plan.actions@)
                        == crate::path::insert_all_sorted(Seq::empty(), res.1).map_values(
                        |d: Seq<char>| crate::planner::create_dir_view(d),
                    ).push(res.0)
                }
            },
        },
        extends(old(asked)@, final(asked)@),
        final(asked)@ == old(asked)@ <==> candidate_observed(
            *snap,
            watch_root@,
            *root_policy,
            *policy,
            builtin@,
            path@,
        ),
{
    let ghost a0 = asked@;
    let rv = revalidate_candidate(snap, watch_root, path, asked);
    let ghost a1 = asked@;
    let entry = match rv {
        Ok(e) => e,
        Err(reason) => {
            return CandidateStep::Done(
                ProcessOutcome {
                    organized: false,
                    skip_reason: Some(reason.to_owned()),
                    failure: None,
                    history_id: None,
                },
            );
        },
    };
    let crossing = crosses_strategy_generated_boundary(snap, watch_root, path, root_policy, asked);
    let ghost a2 = asked@;
    proof {
        lemma_asked_seq(a0, a1, a2);
    }
    if crossing {
        return CandidateStep::Done(
            ProcessOutcome {
                organized: false,
                skip_reason: Some("date-organized directory".to_owned()),
                failure: None,
                history_id: None,
            },
        );
    }
    let containing_dir = match path_parent(path) {
        Some(d) => d,
        None => watch_root.to_owned(),
    };
    let ep = plan_entry_with_strategy(&entry, containing_dir.as_str(), policy, builtin, snap, asked);
    proof {
        lemma_asked_seq(a1, a2, asked@);
        lemma_asked_seq(a0, a1, asked@);
    }
    let EntryPlan { create_dirs, action } = ep;
    if action.op == Op::Skip {
        return CandidateStep::Done(
            ProcessOutcome {
                organized: false,
                skip_reason: crate::domain::clone_opt_string(&action.reason),
                failure: None,
                history_id: None,
            },
        );
    }
    let mut actions = create_dirs;
    let ghost before = actions@;
    actions.push(action);
    assert(actions_view(actions@) =~= actions_view(before).push(action_view(action)));
    CandidateStep::Execute(Plan { actions })
}

/// The first failed outcome's message, if any.
pub open spec fn first_failure(v: Seq<ActionResult>) -> Option<Seq<char>>
    decreases v.len(),
{
    if v.len() == 0 {
        None
    } else {
        match v[0].result {
            Err(e) => Some(e@),
            Ok(()) => first_failure(v.drop_first()),
        }
    }
}

pub open spec fn moved_any(v: Seq<ActionResult>) -> bool {
    exists|i: int| 0 <= i < v.len() && v[i].op == Op::Move && #[trigger] v[i].result is Ok
}

/// What an executed candidate plan came to: organized when nothing failed
/// and a move succeeded; the first failure otherwise.
pub fn execution_outcome(res: &Result<ExecutionReport, ExecutionError>) -> (r: ProcessOutcome)
    ensures
        match res {
            Ok(rep) => outcome_view(r) == (
                first_failure(rep.outcomes@) is None && moved_any(rep.outcomes@),
                None::<Seq<char>>,
                first_failure(rep.outcomes@),
                Some(rep.history_id@),
            ),
            Err(e) => outcome_view(r) == (
                false,
                None::<Seq<char>>,
                Some(e.message@),
                crate::planner::opt_view(e.history_id),
            ),
        },
{
    match res {
        Err(e) => ProcessOutcome {
            organized: false,
            skip_reason: None,
            failure: Some(e.message.clone()),
            history_id: crate::domain::clone_opt_string(&e.history_id),
        },
        Ok(rep) => {
            let v = &rep.outcomes;
            let mut failure: Option<String> = None;
            let mut moved = false;
            let mut i: usize = 0;
            assert(v@.subrange(0, v@.len() as int) =~= v@);
            while i < v.len()
                invariant
                    i <= v@.len(),
                    failure is None ==> first_failure(v@) == first_failure(v@.subrange(i as int, v@.len() as int)),
                    failure is Some ==> crate::planner::opt_view(failure) == first_failure(v@),
                    moved == exists|j: int| 0 <= j < i && v@[j].op == Op::Move && #[trigger] v@[j].result is Ok,
                decreases v@.len() - i,
            {
                let ghost rest = v@.subrange(i as int, v@.len() as int);
                assert(rest.drop_first() =~= v@.subrange(i + 1, v@.len() as int));
                assert(rest[0] == v@[i as int]);
                if failure.is_none() {
                    match &v[i].result {
                        Err(e) => {
                            failure = Some(e.clone());
                        },
                        Ok(()) => {},
                    }
                }
                if v[i].op == Op::Move && v[i].result.is_ok() {
                    moved = true;
                }
                proof {
                    if !moved {
                        assert forall|j: int| 0 <= j < i + 1 && v@[j].op == Op::Move implies !(#[trigger] v@[j].result is Ok) by {
                        }
                    }
                }
                i += 1;
            }
            assert(v@.subrange(v@.len() as int, v@.len() as int).len() == 0);
            ProcessOutcome {
                organized: failure.is_none() && moved,
                skip_reason: None,
                failure,
                history_id: Some(rep.history_id.clone()),
            }
        },
    }
}

/// Live per-root state: the candidates being debounced right now.
pub struct RootMonitor {
    pub root: String,
    pub recursive: bool,
    /// The candidates being debounced.
    pub tracker: StabilityTracker,
}

impl RootMonitor {
    /// The tracked candidates.
    pub closed spec fn pending(&self) -> Seq<PendingView> {
        self.tracker.view()
    }

    pub closed spec fn wf(&self) -> bool {
        self.tracker.wf()
    }

    /// The watched root (the `root` field).
    pub open spec fn root_path(&self) -> Seq<char> {
        self.root@
    }

    /// Whether subfolders are watched too (the `recursive` field).
    pub open spec fn is_recursive(&self) -> bool {
        self.recursive
    }

    pub fn new(root: String, recursive: bool) -> (r: Self)
        ensures
            r.root_path() == root@,
            r.is_recursive() == recursive,
            r.pending().len() == 0,
            r.wf(),
    {
        RootMonitor { root, recursive, tracker: StabilityTracker::new() }
    }

    /// Feeds one raw event path in: a structurally ineligible path (wrong
    /// depth, outside the root, the root itself) or a transient download
    /// name is never tracked.
    pub fn observe_event(&mut self, path: &str, now: u64)
        requires
            old(self).wf(),
        ensures
            final(self).wf(),
            final(self).root_path() == old(self).root_path(),
            final(self).is_recursive() == old(self).is_recursive(),
            if eligible_spec(old(self).root_path(), old(self).is_recursive(), path@) && !transient_spec(
                crate::scanner::name_or_empty(path@),
            ) && tracked_index(old(self).pending(), path@) is None {
                final(self).pending() == old(self).pending().push((path@, None, now))
            } else {
                final(self).pending() == old(self).pending()
            },
    {
        if !is_eligible_candidate_path(self.root.as_str(), self.recursive, path) {
            return;
        }
        let name = crate::scanner::file_name_or_empty(path);
        if is_transient_filename(name.as_str()) {
            return;
        }
        self.tracker.track(path.to_owned(), now);
    }

    /// Drops every pending candidate without processing it.
    pub fn discard_pending(&mut self)
        ensures
            final(self).pending().len() == 0,
            final(self).wf(),
            final(self).root_path() == old(self).root_path(),
            final(self).is_recursive() == old(self).is_recursive(),
    {
        self.tracker.discard_all();
    }

    pub fn pending_count(&self) -> (r: usize)
        ensures
            r == self.pending().len(),
    {
        self.tracker.len()
    }

    /// The pending paths, in the order they were first observed.
    pub fn pending_paths(&self) -> (r: Vec<String>)
        ensures
            r@.map_values(|s: String| s@) == keys_of(self.pending()),
    {
        self.tracker.tracked_paths()
    }

    /// The candidates that have been stable for `window` ms (see
    /// `StabilityTracker::poll_ready`).
    pub fn poll_ready(&mut self, now: u64, window: u64, observed: &Vec<(String, Option<Snapshot>)>) -> (r: Vec<String>)
        requires
            old(self).wf(),
        ensures
            final(self).wf(),
            final(self).root_path() == old(self).root_path(),
            final(self).is_recursive() == old(self).is_recursive(),
            final(self).pending() == poll_kept(old(self).pending(), observed@, now, window),
            r@.map_values(|s: String| s@) == poll_ready_spec(old(self).pending(), observed@, now, window),
    {
        self.tracker.poll_ready(now, window, observed)
    }
}

} // verus!
