//! Conservative reconciliation of an interrupted execution journal.
//!
//! Only actions durably `Prepared` are examined. A prepared move is proven
//! completed only by identity evidence (the destination holds exactly the
//! object the source held when it was prepared, and the source no longer
//! does); everything else becomes `Ambiguous`, never guessed, retried or
//! undone. What the filesystem shows arrives as `MoveEvidence`.
use vstd::prelude::*;
use crate::domain::{
    all_terminal, Action, ActionProbe, ActionResult, ActionState, ExecutionState, HistoryItem, Op,
};
use crate::path::{paths_equal, same_path};

verus! {

/// What a no-follow look at one path found.
#[derive(Debug, Clone, Copy, PartialEq, Eq, Structural)]
pub struct ObservedMeta {
    /// Device and inode, where the platform has stable file ids.
    pub dev: Option<u64>,
    pub ino: Option<u64>,
    pub len: u64,
    pub is_file: bool,
    pub is_dir: bool,
    pub is_symlink: bool,
}

/// The live state of a prepared move's source and destination
/// (`None`: nothing there).
#[derive(Debug, Clone, Copy, PartialEq, Eq, Structural)]
pub struct MoveEvidence {
    pub src: Option<ObservedMeta>,
    pub dst: Option<ObservedMeta>,
}

/// Only a stable `(dev, ino)` match is proof; a recorded size must agree
/// too.
pub open spec fn identity_spec(p: ActionProbe, md: ObservedMeta) -> bool {
    match (p.dev, p.ino, md.dev, md.ino) {
        (Some(d), Some(i), Some(md_d), Some(md_i)) => d == md_d && i == md_i && match p.len {
            Some(l) => md.len == l,
            None => true,
        },
        _ => false,
    }
}

pub fn identity_matches(probe: &ActionProbe, md: &ObservedMeta) -> (r: bool)
    ensures
        r == identity_spec(*probe, *md),
{
    match (probe.dev, probe.ino, md.dev, md.ino) {
        (Some(d), Some(i), Some(md_d), Some(md_i)) => d == md_d && i == md_i && match probe.len {
            Some(l) => md.len == l,
            None => true,
        },
        _ => false,
    }
}

/// A prepared `Move`/`MoveDir` demonstrably completed: the destination is
/// a different path, holds the right kind of entry (never a symlink) and
/// exactly the probed object, and the source no longer holds it (which
/// rules out a hardlink made at the destination).
pub open spec fn proven_spec(a: Action, probe: ActionProbe, ev: MoveEvidence) -> bool {
    match a.dst {
        None => false,
        Some(dst) => {
            &&& !same_path(dst@, a.src@)
            &&& !(ev.src matches Some(s) && identity_spec(probe, s))
            &&& match ev.dst {
                None => false,
                Some(md) => {
                    &&& !md.is_symlink
                    &&& ((a.op == Op::Move && md.is_file) || (a.op == Op::MoveDir && md.is_dir))
                    &&& identity_spec(probe, md)
                },
            }
        },
    }
}

pub fn prove_completed_move(action: &Action, probe: &ActionProbe, ev: &MoveEvidence) -> (r: bool)
    ensures
        r == proven_spec(*action, *probe, *ev),
{
    let dst = match &action.dst {
        Some(d) => d,
        None => {
            return false;
        },
    };
    if paths_equal(dst.as_str(), action.src.as_str()) {
        return false;
    }
    if let Some(s) = &ev.src {
        if identity_matches(probe, s) {
            return false;
        }
    }
    let md = match &ev.dst {
        Some(m) => m,
        None => {
            return false;
        },
    };
    if md.is_symlink {
        return false;
    }
    let kind_ok = match action.op {
        Op::Move => md.is_file,
        Op::MoveDir => md.is_dir,
        _ => false,
    };
    if !kind_ok {
        return false;
    }
    identity_matches(probe, md)
}

pub open spec fn evidence_in(ev: Seq<(usize, MoveEvidence)>, i: int) -> Option<MoveEvidence>
    decreases ev.len(),
{
    if ev.len() == 0 {
        None
    } else if ev[0].0 == i {
        Some(ev[0].1)
    } else {
        evidence_in(ev.drop_first(), i)
    }
}

/// Whether reconciliation proves prepared action `i` completed.
pub open spec fn proves(item: HistoryItem, ev: Seq<(usize, MoveEvidence)>, i: int) -> bool {
    let a = item.actions@[i];
    &&& (a.op == Op::Move || a.op == Op::MoveDir)
    &&& item.prepared_probe matches Some(pp)
    &&& pp.action_index == i
    &&& evidence_in(ev, i) matches Some(e)
    &&& proven_spec(a, pp.probe, e)
}

pub open spec fn is_prepared_at(item: HistoryItem, i: int) -> bool {
    0 <= i < item.action_states@.len() && i < item.actions@.len() && item.action_states@[i]
        == ActionState::Prepared
}

/// The state reconciliation gives action `i`.
pub open spec fn reconciled_state(item: HistoryItem, ev: Seq<(usize, MoveEvidence)>, i: int) -> ActionState {
    if is_prepared_at(item, i) {
        if proves(item, ev, i) {
            ActionState::Succeeded
        } else {
            ActionState::Ambiguous
        }
    } else {
        item.action_states@[i]
    }
}

pub open spec fn no_prepared(item: HistoryItem) -> bool {
    forall|i: int| #[trigger] is_prepared_at(item, i) ==> false
}

pub open spec fn resolved_state(item: HistoryItem) -> ExecutionState {
    if all_terminal(item) {
        ExecutionState::Completed
    } else {
        ExecutionState::Interrupted
    }
}

/// The outcome recorded for a proven move.
pub open spec fn terminal_result_spec(a: Action) -> ActionResult {
    ActionResult {
        src: a.src,
        dst: a.dst,
        op: a.op,
        result: Ok(()),
        undoable: a.undoable && (a.op == Op::Move || a.op == Op::MoveDir),
    }
}

/// The outcomes after reconciling the first `k` actions: a proven action
/// with no recorded outcome gets one appended.
pub open spec fn reconciled_outcomes(item: HistoryItem, ev: Seq<(usize, MoveEvidence)>, k: int) -> Seq<ActionResult>
    decreases k,
{
    if k <= 0 {
        item.outcomes@
    } else {
        let prev = reconciled_outcomes(item, ev, k - 1);
        let i = k - 1;
        if is_prepared_at(item, i) && proves(item, ev, i) && prev.len() <= i {
            prev.push(terminal_result_spec(item.actions@[i]))
        } else {
            prev
        }
    }
}

fn find_evidence(ev: &Vec<(usize, MoveEvidence)>, i: usize) -> (r: Option<MoveEvidence>)
    ensures
        r == evidence_in(ev@, i as int),
{
    let mut k: usize = 0;
    assert(ev@.subrange(0, ev@.len() as int) =~= ev@);
    while k < ev.len()
        invariant
            k <= ev@.len(),
            evidence_in(ev@, i as int) == evidence_in(ev@.subrange(k as int, ev@.len() as int), i as int),
        decreases ev@.len() - k,
    {
        let ghost rest = ev@.subrange(k as int, ev@.len() as int);
        assert(rest.drop_first() =~= ev@.subrange(k + 1, ev@.len() as int));
        assert(rest[0] == ev@[k as int]);
        if ev[k].0 == i {
            return Some(ev[k].1);
        }
        k += 1;
    }
    None
}

fn terminal_result(action: &Action) -> (r: ActionResult)
    ensures
        r == terminal_result_spec(*action),
{
    let mv = match action.op {
        Op::Move | Op::MoveDir => true,
        _ => false,
    };
    ActionResult {
        src: action.src.clone(),
        dst: crate::domain::clone_opt_string(&action.dst),
        op: action.op,
        result: Ok(()),
        undoable: action.undoable && mv,
    }
}

/// Reconciles a journal in memory; returns whether anything changed.
/// Every durably `Prepared` action becomes `Succeeded` (proven) or
/// `Ambiguous`; nothing else is touched. The execution state becomes
/// `Completed` exactly when every action is terminal. `evidence` holds,
/// per action index, what the filesystem shows for a prepared move.
pub fn reconcile_item(item: &mut HistoryItem, evidence: &Vec<(usize, MoveEvidence)>) -> (r: bool)
    ensures
        final(item).actions == old(item).actions,
        final(item).id == old(item).id,
        final(item).timestamp == old(item).timestamp,
        final(item).kind == old(item).kind,
        final(item).origin == old(item).origin,
        final(item).watch_root == old(item).watch_root,
        final(item).journal_version == old(item).journal_version,
        final(item).action_states@.len() == old(item).action_states@.len(),
        forall|i: int|
            0 <= i < old(item).action_states@.len() ==> #[trigger] final(item).action_states@[i]
                == reconciled_state(*old(item), evidence@, i),
        final(item).outcomes@ == reconciled_outcomes(
            *old(item),
            evidence@,
            old(item).actions@.len() as int,
        ),
        final(item).execution_state == resolved_state(*final(item)),
        no_prepared(*final(item)),
        r ==> final(item).prepared_probe is None,
        !r ==> final(item).prepared_probe == old(item).prepared_probe,
        r == (exists|i: int| is_prepared_at(*old(item), i)) || old(item).execution_state
            != resolved_state(*final(item)),
        (no_prepared(*old(item)) && old(item).execution_state == resolved_state(*old(item))) ==> (!r
            && final(item).action_states@ == old(item).action_states@ && final(item).outcomes@
            == old(item).outcomes@ && final(item).execution_state == old(item).execution_state),
{
    let ghost orig = *item;
    let mut changed = false;
    let n = item.actions.len();
    let mut i: usize = 0;
    while i < n
        invariant
            i <= n,
            n == orig.actions@.len(),
            item.actions == orig.actions,
            item.id == orig.id,
            item.prepared_probe == orig.prepared_probe,
            item.execution_state == orig.execution_state,
            item.timestamp == orig.timestamp,
            item.kind == orig.kind,
            item.origin == orig.origin,
            item.watch_root == orig.watch_root,
            item.journal_version == orig.journal_version,
            item.action_states@.len() == orig.action_states@.len(),
            forall|j: int|
                0 <= j < orig.action_states@.len() ==> #[trigger] item.action_states@[j] == if j < i {
                    reconciled_state(orig, evidence@, j)
                } else {
                    orig.action_states@[j]
                },
            item.outcomes@ == reconciled_outcomes(orig, evidence@, i as int),
            changed == exists|j: int| 0 <= j < i && is_prepared_at(orig, j),
        decreases n - i,
    {
        let prepared = i < item.action_states.len() && item.action_states[i] == ActionState::Prepared;
        if prepared {
            let is_mv = match item.actions[i].op {
                Op::Move | Op::MoveDir => true,
                _ => false,
            };
            let proven = if is_mv {
                match item.prepared_probe {
                    Some(pp) => {
                        if pp.action_index == i {
                            match find_evidence(evidence, i) {
                                Some(ev) => prove_completed_move(&item.actions[i], &pp.probe, &ev),
                                None => false,
                            }
                        } else {
                            false
                        }
                    },
                    None => false,
                }
            } else {
                false
            };
            assert(proven == proves(orig, evidence@, i as int));
            if proven {
                item.action_states.set(i, ActionState::Succeeded);
                if item.outcomes.len() <= i {
                    let t = terminal_result(&item.actions[i]);
                    item.outcomes.push(t);
                }
            } else {
                item.action_states.set(i, ActionState::Ambiguous);
            }
            changed = true;
            assert(is_prepared_at(orig, i as int));
        } else {
            assert(!is_prepared_at(orig, i as int));
            proof {
                if changed {
                } else {
                    assert forall|j: int| 0 <= j < i + 1 implies !is_prepared_at(orig, j) by {
                        if j < i {
                        }
                    }
                }
            }
        }
        i += 1;
    }
    assert forall|k: int| #[trigger] is_prepared_at(*item, k) implies false by {
        assert(item.action_states@[k] == reconciled_state(orig, evidence@, k));
    }
    proof {
        if no_prepared(orig) {
            assert(!changed) by {
                if exists|j: int| 0 <= j < n && is_prepared_at(orig, j) {
                    let j = choose|j: int| 0 <= j < n && is_prepared_at(orig, j);
                    assert(is_prepared_at(orig, j));
                }
            }
            assert forall|j: int| 0 <= j < orig.action_states@.len() implies item.action_states@[j]
                == orig.action_states@[j] by {
                assert(!is_prepared_at(orig, j) || j >= n);
            }
            assert(item.action_states@ =~= orig.action_states@);
            lemma_outcomes_unchanged(orig, evidence@, n as int);
            lemma_all_terminal_eq(*item, orig);
        }
    }
    let ghost mid = *item;
    let all_t = item.all_actions_terminal();
    let resolved = if all_t {
        ExecutionState::Completed
    } else {
        ExecutionState::Interrupted
    };
    if item.execution_state != resolved {
        item.execution_state = resolved;
        changed = true;
    }
    if changed {
        item.prepared_probe = None;
    }
    proof {
        assert forall|j: int| #[trigger] crate::domain::state_at(*item, j) == crate::domain::state_at(mid, j) by {
        }
        if all_terminal(mid) {
            assert forall|j: int| 0 <= j < item.actions@.len() implies crate::domain::is_terminal(
                #[trigger] crate::domain::state_at(*item, j),
            ) by {
                assert(crate::domain::state_at(mid, j) == crate::domain::state_at(*item, j));
            }
        }
        if all_terminal(*item) {
            assert forall|j: int| 0 <= j < mid.actions@.len() implies crate::domain::is_terminal(
                #[trigger] crate::domain::state_at(mid, j),
            ) by {
                assert(crate::domain::state_at(mid, j) == crate::domain::state_at(*item, j));
            }
        }
        assert(all_terminal(*item) == all_terminal(mid));
        assert forall|k: int| #[trigger] is_prepared_at(*item, k) implies false by {
            assert(is_prepared_at(mid, k));
        }
    }
    changed
}

proof fn lemma_all_terminal_eq(a: HistoryItem, b: HistoryItem)
    requires
        a.actions@.len() == b.actions@.len(),
        a.action_states@ == b.action_states@,
        a.outcomes@ == b.outcomes@,
    ensures
        all_terminal(a) == all_terminal(b),
{
    assert forall|j: int| #[trigger] crate::domain::state_at(a, j) == crate::domain::state_at(b, j) by {
    }
    if all_terminal(a) {
        assert forall|j: int| 0 <= j < b.actions@.len() implies crate::domain::is_terminal(
            #[trigger] crate::domain::state_at(b, j),
        ) by {
            assert(crate::domain::state_at(a, j) == crate::domain::state_at(b, j));
        }
    }
    if all_terminal(b) {
        assert forall|j: int| 0 <= j < a.actions@.len() implies crate::domain::is_terminal(
            #[trigger] crate::domain::state_at(a, j),
        ) by {
            assert(crate::domain::state_at(a, j) == crate::domain::state_at(b, j));
        }
    }
}

proof fn lemma_outcomes_unchanged(item: HistoryItem, ev: Seq<(usize, MoveEvidence)>, k: int)
    requires
        no_prepared(item),
    ensures
        reconciled_outcomes(item, ev, k) == item.outcomes@,
    decreases k,
{
    if k > 0 {
        lemma_outcomes_unchanged(item, ev, k - 1);
        assert(!is_prepared_at(item, k - 1));
    }
}

/// The action whose evidence reconciliation needs, among the first `upto`:
/// the prepared one whose source probe was recorded, if any.
pub open spec fn evidence_index(item: HistoryItem, upto: int) -> Option<usize> {
    match item.prepared_probe {
        Some(pp) => if pp.action_index < upto && is_prepared_at(item, pp.action_index as int) {
            Some(pp.action_index)
        } else {
            None
        },
        None => None,
    }
}

/// Indices of the actions reconciliation needs evidence for: prepared
/// moves whose probe was recorded (at most one, the journal's prepared
/// probe names a single action).
pub fn evidence_needed(item: &HistoryItem) -> (r: Vec<usize>)
    ensures
        r@ == (match evidence_index(*item, item.actions@.len() as int) {
            Some(k) => seq![k],
            None => Seq::<usize>::empty(),
        }),
        forall|k: int| 0 <= k < r@.len() ==> is_prepared_at(*item, #[trigger] r@[k] as int),
{
    let mut out: Vec<usize> = Vec::new();
    let n = item.actions.len();
    let mut i: usize = 0;
    while i < n
        invariant
            i <= n,
            n == item.actions@.len(),
            out@ == (match evidence_index(*item, i as int) {
                Some(k) => seq![k],
                None => Seq::<usize>::empty(),
            }),
        decreases n - i,
    {
        if i < item.action_states.len() && item.action_states[i] == ActionState::Prepared {
            match item.prepared_probe {
                Some(pp) => {
                    if pp.action_index == i {
                        out.push(i);
                    }
                },
                None => {},
            }
        }
        i += 1;
    }
    out
}


/// A prepared file move whose destination is a different path that now
/// holds a regular file (not a symlink) with the probed device and inode
/// (and the recorded length, when one was recorded), while the source no
/// longer holds that object, is proven completed.
pub proof fn law_completed_file_move_is_proven(a: Action, probe: ActionProbe, ev: MoveEvidence, dst: String, md: ObservedMeta)
    requires
        a.op == Op::Move,
        a.dst == Some(dst),
        !same_path(dst@, a.src@),
        ev.dst == Some(md),
        md.is_file,
        !md.is_symlink,
        probe.dev is Some && md.dev == probe.dev,
        probe.ino is Some && md.ino == probe.ino,
        probe.len is None || probe.len == Some(md.len),
        ev.src matches Some(s) ==> s.dev != probe.dev || s.ino != probe.ino,
    ensures
        proven_spec(a, probe, ev),
{
}

/// A prepared directory move is proven the same way, with a directory at
/// the destination.
pub proof fn law_completed_dir_move_is_proven(a: Action, probe: ActionProbe, ev: MoveEvidence, dst: String, md: ObservedMeta)
    requires
        a.op == Op::MoveDir,
        a.dst == Some(dst),
        !same_path(dst@, a.src@),
        ev.dst == Some(md),
        md.is_dir,
        !md.is_symlink,
        probe.dev is Some && md.dev == probe.dev,
        probe.ino is Some && md.ino == probe.ino,
        probe.len is None || probe.len == Some(md.len),
        ev.src matches Some(s) ==> s.dev != probe.dev || s.ino != probe.ino,
    ensures
        proven_spec(a, probe, ev),
{
}

/// Nothing else proves a move: no destination entry, a symlink there, an
/// object that is not the probed one, or the source still holding it
/// leaves it unproven.
pub proof fn law_move_unproven_without_identity(a: Action, probe: ActionProbe, ev: MoveEvidence)
    ensures
        ev.dst is None ==> !proven_spec(a, probe, ev),
        (ev.dst matches Some(md) && md.is_symlink) ==> !proven_spec(a, probe, ev),
        (ev.dst matches Some(md) && (md.dev != probe.dev || md.ino != probe.ino || probe.dev is None
            || probe.ino is None)) ==> !proven_spec(a, probe, ev),
        (ev.src matches Some(s) && s.dev == probe.dev && s.ino == probe.ino && probe.dev is Some
            && probe.ino is Some && (probe.len is None || probe.len == Some(s.len))) ==> !proven_spec(a, probe, ev),
{
}

/// Reconciling a journal interrupted right after its prepared file move
/// completed marks that move `Succeeded`: the destination (a different
/// path) holds a regular file, not a symlink, with the probed device and
/// inode and the recorded length, and the source no longer holds it.
pub proof fn law_reconcile_proves_completed_move(
    item: HistoryItem,
    ev: Seq<(usize, MoveEvidence)>,
    i: int,
    dst: String,
    md: ObservedMeta,
)
    requires
        is_prepared_at(item, i),
        item.actions@[i].op == Op::Move,
        item.actions@[i].dst == Some(dst),
        !same_path(dst@, item.actions@[i].src@),
        item.prepared_probe matches Some(pp) && pp.action_index == i && pp.probe.dev is Some && pp.probe.ino
            is Some && md.dev == pp.probe.dev && md.ino == pp.probe.ino && (pp.probe.len is None
            || pp.probe.len == Some(md.len)),
        evidence_in(ev, i) matches Some(e) && e.dst == Some(md) && (e.src is None || (e.src matches Some(s)
            && (s.dev != md.dev || s.ino != md.ino))),
        md.is_file,
        !md.is_symlink,
    ensures
        reconciled_state(item, ev, i) == ActionState::Succeeded,
{
}
} // verus!
