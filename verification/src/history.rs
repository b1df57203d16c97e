//! The execution history: journal naming, the fault-injection switch
//! journal writes consult, and the decisions of `undo`. Reading and
//! writing the journal files happen outside this module.
use vstd::prelude::*;
use crate::domain::{
    Action, ActionResult, ActionState, ExecutionState, HistoryItem, Op, JOURNAL_VERSION, state_at,
};
use crate::executor::JournalStage;
use crate::planner::PathKind;
use crate::text::{concat, concat3, dec, fmt_u128, fmt_u64};

verus! {

/// The identifier of a new history record, from the clock reading in
/// nanoseconds since the epoch.
pub fn new_history_id(nanos: u128) -> (r: String)
    ensures
        r@ == "hist-"@ + dec(nanos as nat),
{
    let n = fmt_u128(nanos);
    concat("hist-", n.as_str())
}

/// The name of the temporary file a journal write goes through before its
/// atomic rename (scoped by the writing process's id).
pub fn temp_name(id: &str, pid: u32) -> (r: String)
    ensures
        r@ == "."@ + id@ + "."@ + dec(pid as nat) + ".tmp"@,
{
    let p = fmt_u64(pid as u64, 0);
    assert(crate::text::zero_pad(dec(pid as nat), 0) == dec(pid as nat));
    let a = concat3(".", id, ".");
    concat3(a.as_str(), p.as_str(), ".tmp")
}

/// Makes the `(skip + 1)`-th journal write of `stage` fail. The switch is
/// `(stage, writes of that stage to let through first)`.
pub fn inject_journal_fault(slot: &mut Option<(JournalStage, usize)>, stage: JournalStage, skip: usize)
    ensures
        *final(slot) == Some((stage, skip)),
{
    *slot = Some((stage, skip));
}

/// Clears any injected journal fault.
pub fn clear_journal_fault(slot: &mut Option<(JournalStage, usize)>)
    ensures
        *final(slot) is None,
{
    *slot = None;
}

/// Whether this write of `stage` is the one to fail: the switch fires once
/// (and then clears) when its count for `stage` has run down; other
/// stages pass it untouched.
pub fn journal_fault_triggered(slot: &mut Option<(JournalStage, usize)>, stage: JournalStage) -> (r: bool)
    ensures
        match *old(slot) {
            Some((s, n)) => if s == stage {
                if n == 0 {
                    r && *final(slot) is None
                } else {
                    !r && *final(slot) == Some((s, (n - 1) as usize))
                }
            } else {
                !r && *final(slot) == *old(slot)
            },
            None => !r && *final(slot) is None,
        },
        (r, *final(slot)) == fault_step(*old(slot), stage),
{
    match *slot {
        Some((s, n)) => {
            if s == stage {
                if n == 0 {
                    *slot = None;
                    true
                } else {
                    *slot = Some((s, n - 1));
                    false
                }
            } else {
                false
            }
        },
        None => false,
    }
}

/// One write of `stage` through the fault switch: whether it fails, and
/// the switch afterwards.
pub open spec fn fault_step(slot: Option<(JournalStage, usize)>, stage: JournalStage) -> (bool, Option<(JournalStage, usize)>) {
    match slot {
        Some((s, n)) => if s == stage {
            if n == 0 {
                (true, None)
            } else {
                (false, Some((s, (n - 1) as usize)))
            }
        } else {
            (false, slot)
        },
        None => (false, None),
    }
}

/// Which of a run of journal writes (by stage) the switch fails.
pub open spec fn fault_run(slot: Option<(JournalStage, usize)>, ws: Seq<JournalStage>) -> Seq<bool>
    decreases ws.len(),
{
    if ws.len() == 0 {
        Seq::empty()
    } else {
        let st = fault_step(slot, ws[0]);
        seq![st.0] + fault_run(st.1, ws.drop_first())
    }
}

/// How many of `ws` are writes of `stage`.
pub open spec fn stage_count(ws: Seq<JournalStage>, stage: JournalStage) -> nat
    decreases ws.len(),
{
    if ws.len() == 0 {
        0
    } else {
        (if ws[0] == stage {
            1nat
        } else {
            0nat
        }) + stage_count(ws.drop_first(), stage)
    }
}

/// A fault injected for `stage` after `k` writes fails exactly the
/// `(k + 1)`-th write of that stage, and no other write: writes of other
/// stages never count or fail, and once it has fired it is used up.
pub proof fn law_injected_fault_fires_once(stage: JournalStage, k: usize, ws: Seq<JournalStage>, i: int)
    requires
        0 <= i < ws.len(),
    ensures
        fault_run(Some((stage, k)), ws)[i] == (ws[i] == stage && stage_count(ws.subrange(0, i), stage) == k),
    decreases ws.len(),
{
    let st = fault_step(Some((stage, k)), ws[0]);
    lemma_fault_run_len(Some((stage, k)), ws);
    if i == 0 {
        assert(ws.subrange(0, 0).len() == 0);
        assert(stage_count(ws.subrange(0, 0), stage) == 0);
    } else {
        let rest = ws.drop_first();
        assert(ws.subrange(0, i).drop_first() =~= rest.subrange(0, i - 1));
        assert(ws.subrange(0, i)[0] == ws[0]);
        assert(rest[i - 1] == ws[i]);
        if ws[0] == stage {
            if k == 0 {
                lemma_no_fault(rest, i - 1);
            } else {
                law_injected_fault_fires_once(stage, (k - 1) as usize, rest, i - 1);
            }
        } else {
            law_injected_fault_fires_once(stage, k, rest, i - 1);
        }
    }
}

proof fn lemma_fault_run_len(slot: Option<(JournalStage, usize)>, ws: Seq<JournalStage>)
    ensures
        fault_run(slot, ws).len() == ws.len(),
        ws.len() > 0 ==> fault_run(slot, ws)[0] == fault_step(slot, ws[0]).0,
        forall|i: int| 0 < i < ws.len() ==> #[trigger] fault_run(slot, ws)[i] == fault_run(
            fault_step(slot, ws[0]).1,
            ws.drop_first(),
        )[i - 1],
    decreases ws.len(),
{
    if ws.len() > 0 {
        lemma_fault_run_len(fault_step(slot, ws[0]).1, ws.drop_first());
    }
}

proof fn lemma_no_fault(ws: Seq<JournalStage>, i: int)
    requires
        0 <= i < ws.len(),
    ensures
        !fault_run(None, ws)[i],
    decreases ws.len(),
{
    lemma_fault_run_len(None, ws);
    if i > 0 {
        lemma_no_fault(ws.drop_first(), i - 1);
    }
}

// ------------------------------------------------------------------- undo

/// Why undoing a recorded move must be refused, given what now occupies
/// its original location and its recorded destination.
pub open spec fn undo_refusal(op: Op, src_kind: PathKind, dst_kind: PathKind) -> Option<Seq<char>> {
    if src_kind != PathKind::Absent {
        Some("original location is occupied"@)
    } else if dst_kind == PathKind::Absent {
        Some("moved destination no longer exists"@)
    } else if dst_kind == PathKind::Symlink {
        Some("moved destination is a symlink"@)
    } else if op == Op::MoveDir {
        if dst_kind != PathKind::Dir {
            Some("moved destination is not a directory"@)
        } else {
            None
        }
    } else if dst_kind == PathKind::Dir {
        Some("moved destination is a directory"@)
    } else if dst_kind != PathKind::File {
        Some("moved destination is not a regular file"@)
    } else {
        None
    }
}

/// Checks one undo: a file move is reversed only onto a free original
/// location from a plain regular file, a directory move only from a real
/// directory; never through a symlink.
pub fn undo_check(op: Op, src_kind: PathKind, dst_kind: PathKind) -> (r: Option<&'static str>)
    ensures
        crate::scanner::opt_str_view(r) == undo_refusal(op, src_kind, dst_kind),
{
    if src_kind != PathKind::Absent {
        Some("original location is occupied")
    } else if dst_kind == PathKind::Absent {
        Some("moved destination no longer exists")
    } else if dst_kind == PathKind::Symlink {
        Some("moved destination is a symlink")
    } else if op == Op::MoveDir {
        if dst_kind != PathKind::Dir {
            Some("moved destination is not a directory")
        } else {
            None
        }
    } else if dst_kind == PathKind::Dir {
        Some("moved destination is a directory")
    } else if dst_kind != PathKind::File {
        Some("moved destination is not a regular file")
    } else {
        None
    }
}

/// The record of one undo attempt of `action` (moving its destination
/// back to its source): refused with a reason, or the rename's result.
pub open spec fn undo_outcome_spec(a: Action, refusal: Option<Seq<char>>, renamed: Result<(), Seq<char>>) -> (Seq<char>, Option<Seq<char>>, Op, Result<(), Seq<char>>) {
    let src = match a.dst {
        Some(d) => d@,
        None => Seq::empty(),
    };
    (
        src,
        Some(a.src@),
        a.op,
        match refusal {
            Some(why) => Err("Undo refused: "@ + why),
            None => match renamed {
                Ok(()) => Ok(()),
                Err(e) => Err("Undo failed: "@ + e),
            },
        },
    )
}

pub open spec fn result_view(r: Result<(), String>) -> Result<(), Seq<char>> {
    match r {
        Ok(()) => Ok(()),
        Err(e) => Err(e@),
    }
}

/// Builds the record of one undo attempt; `renamed` is the rename's result
/// and is only consulted when nothing refused the undo.
pub fn undo_outcome(action: &Action, refusal: Option<&str>, renamed: Result<(), String>) -> (r: ActionResult)
    requires
        action.dst is Some,
    ensures
        (r.src@, crate::planner::opt_view(r.dst), r.op, result_view(r.result)) == undo_outcome_spec(
            *action,
            crate::scanner::opt_str_view(refusal),
            result_view(renamed),
        ),
        !r.undoable,
{
    let dst = match &action.dst {
        Some(d) => d.clone(),
        None => String::new(),
    };
    let result = match refusal {
        Some(why) => Err(concat("Undo refused: ", why)),
        None => match renamed {
            Ok(()) => Ok(()),
            Err(e) => Err(concat("Undo failed: ", e.as_str())),
        },
    };
    ActionResult { src: dst, dst: Some(action.src.clone()), op: action.op, result, undoable: false }
}

/// Which recorded actions `undo` reverses: those durably `Succeeded`,
/// undoable moves; plus how many trash actions it skips and how many moves
/// it leaves alone because their outcome is not proven.
pub open spec fn undo_selected(hist: HistoryItem, i: int) -> bool {
    let a = hist.actions@[i];
    a.op != Op::Trash && state_at(hist, i) == ActionState::Succeeded && a.undoable && (a.op
        == Op::Move || a.op == Op::MoveDir) && a.dst is Some
}

pub open spec fn trash_count(hist: HistoryItem, k: int) -> nat
    decreases k,
{
    if k <= 0 {
        0
    } else {
        trash_count(hist, k - 1) + if hist.actions@[k - 1].op == Op::Trash {
            1nat
        } else {
            0nat
        }
    }
}

pub open spec fn unproven_count(hist: HistoryItem, k: int) -> nat
    decreases k,
{
    if k <= 0 {
        0
    } else {
        let a = hist.actions@[k - 1];
        unproven_count(hist, k - 1) + if a.op != Op::Trash && state_at(hist, k - 1)
            != ActionState::Succeeded && (a.op == Op::Move || a.op == Op::MoveDir) {
            1nat
        } else {
            0nat
        }
    }
}

/// What `undo` will do with a record.
pub struct UndoSelection {
    /// Indices of the actions to reverse, in order.
    pub reverse: Vec<usize>,
    pub trash_skipped: usize,
    pub unproven: usize,
}

pub fn undo_selection(hist: &HistoryItem) -> (r: UndoSelection)
    ensures
        forall|k: int| 0 <= k < r.reverse@.len() ==> undo_selected(*hist, #[trigger] r.reverse@[k] as int),
        forall|k: int| 0 <= k < r.reverse@.len() ==> r.reverse@[k] < hist.actions@.len(),
        forall|k: int, l: int| 0 <= k < l < r.reverse@.len() ==> r.reverse@[k] < r.reverse@[l],
        forall|i: int|
            0 <= i < hist.actions@.len() && undo_selected(*hist, i) ==> r.reverse@.contains(i as usize),
        r.trash_skipped == trash_count(*hist, hist.actions@.len() as int),
        r.unproven == unproven_count(*hist, hist.actions@.len() as int),
{
    let n = hist.actions.len();
    let mut reverse: Vec<usize> = Vec::new();
    let mut trash: usize = 0;
    let mut unproven: usize = 0;
    let mut i: usize = 0;
    while i < n
        invariant
            i <= n,
            n == hist.actions@.len(),
            forall|k: int| 0 <= k < reverse@.len() ==> undo_selected(*hist, #[trigger] reverse@[k] as int),
            forall|k: int| 0 <= k < reverse@.len() ==> reverse@[k] < i,
            forall|k: int, l: int| 0 <= k < l < reverse@.len() ==> reverse@[k] < reverse@[l],
            forall|j: int| 0 <= j < i && undo_selected(*hist, j) ==> reverse@.contains(j as usize),
            trash == trash_count(*hist, i as int),
            unproven == unproven_count(*hist, i as int),
            trash <= i,
            unproven <= i,
        decreases n - i,
    {
        let a = &hist.actions[i];
        if a.op == Op::Trash {
            trash += 1;
        } else {
            let st = hist.state_of(i);
            let is_mv = a.op == Op::Move || a.op == Op::MoveDir;
            if st == ActionState::Succeeded {
                if a.undoable && is_mv && a.dst.is_some() {
                    let ghost before = reverse@;
                    reverse.push(i);
                    proof {
                        assert forall|j: int| 0 <= j < i + 1 && undo_selected(*hist, j) implies reverse@.contains(j as usize) by {
                            if j == i {
                                assert(reverse@[before.len() as int] == i);
                            } else {
                                let w = choose|w: int| 0 <= w < before.len() && before[w] == j as usize;
                                assert(reverse@[w] == j as usize);
                            }
                        }
                    }
                }
            } else if is_mv {
                unproven += 1;
            }
        }
        i += 1;
    }
    UndoSelection { reverse, trash_skipped: trash, unproven }
}

/// The record of an undo attempt: one succeeded/failed action per undo
/// outcome, under a new journal id.
pub fn undo_record(original_id: &str, new_id: String, timestamp: u64, outcomes: Vec<ActionResult>) -> (r: HistoryItem)
    ensures
        r.id == new_id,
        r.timestamp == timestamp,
        r.kind@ == "undo"@,
        r.origin@ == "manual"@,
        r.watch_root is None,
        r.execution_state == ExecutionState::Completed,
        r.prepared_probe is None,
        r.journal_version == JOURNAL_VERSION,
        r.outcomes@ == outcomes@,
        r.actions@.len() == outcomes@.len(),
        r.action_states@.len() == outcomes@.len(),
        forall|k: int|
            0 <= k < outcomes@.len() ==> {
                let a = #[trigger] r.actions@[k];
                &&& a.src == outcomes@[k].src
                &&& a.dst == outcomes@[k].dst
                &&& a.op == outcomes@[k].op
                &&& a.reason matches Some(m) && m@ == "undo of "@ + original_id@
                &&& !a.undoable
                &&& r.action_states@[k] == if outcomes@[k].result is Ok {
                    ActionState::Succeeded
                } else {
                    ActionState::Failed
                }
            },
{
    let mut actions: Vec<Action> = Vec::new();
    let mut states: Vec<ActionState> = Vec::new();
    let mut i: usize = 0;
    while i < outcomes.len()
        invariant
            i <= outcomes@.len(),
            actions@.len() == i,
            states@.len() == i,
            forall|k: int|
                0 <= k < i ==> {
                    let a = #[trigger] actions@[k];
                    &&& a.src == outcomes@[k].src
                    &&& a.dst == outcomes@[k].dst
                    &&& a.op == outcomes@[k].op
                    &&& a.reason matches Some(m) && m@ == "undo of "@ + original_id@
                    &&& !a.undoable
                    &&& states@[k] == if outcomes@[k].result is Ok {
                        ActionState::Succeeded
                    } else {
                        ActionState::Failed
                    }
                },
        decreases outcomes@.len() - i,
    {
        let o = &outcomes[i];
        actions.push(
            Action {
                src: o.src.clone(),
                dst: crate::domain::clone_opt_string(&o.dst),
                op: o.op,
                reason: Some(concat("undo of ", original_id)),
                undoable: false,
            },
        );
        states.push(
            if o.result.is_ok() {
                ActionState::Succeeded
            } else {
                ActionState::Failed
            },
        );
        i += 1;
    }
    HistoryItem {
        id: new_id,
        actions,
        timestamp,
        outcomes,
        kind: "undo".to_owned(),
        origin: "manual".to_owned(),
        watch_root: None,
        execution_state: ExecutionState::Completed,
        action_states: states,
        prepared_probe: None,
        journal_version: JOURNAL_VERSION,
    }
}

/// Undo reverses exactly the moves a run durably completed: a recorded,
/// undoable file or folder move that succeeded is selected (a trash, a
/// skip or an unproven move never is), and when the live filesystem makes
/// it safe, undoing it moves the destination back to the original path.
pub proof fn law_undo_reverses_completed_moves(hist: HistoryItem, i: int, dst_kind: PathKind)
    requires
        0 <= i < hist.actions@.len(),
    ensures
        undo_selected(hist, i) <==> ({
            let a = hist.actions@[i];
            &&& a.op == Op::Move || a.op == Op::MoveDir
            &&& a.undoable
            &&& a.dst is Some
            &&& state_at(hist, i) == ActionState::Succeeded
        }),
        ({
            let a = hist.actions@[i];
            undo_selected(hist, i) && undo_refusal(a.op, PathKind::Absent, dst_kind) is None ==> undo_outcome_spec(
                a,
                None,
                Ok(()),
            ) == (a.dst->Some_0@, Some(a.src@), a.op, Ok::<(), Seq<char>>(()))
        }),
{
}

/// Undo only ever moves a file back onto a free original location, only
/// from the kind of thing that was moved (a regular file, or a real
/// directory for a folder move), and never through a symlink.
pub proof fn law_undo_never_overwrites(op: Op, src_kind: PathKind, dst_kind: PathKind)
    ensures
        undo_refusal(op, src_kind, dst_kind) is None ==> {
            &&& src_kind == PathKind::Absent
            &&& dst_kind != PathKind::Symlink
            &&& op == Op::MoveDir ==> dst_kind == PathKind::Dir
            &&& op != Op::MoveDir ==> dst_kind == PathKind::File
        },
{
}

} // verus!
