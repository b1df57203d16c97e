//! Executing a plan under a write-ahead journal, as a state machine.
//!
//! The machine decides; its driver performs. Each `Command` asks the
//! driver for one piece of outside work (write the journal, probe a
//! source, run a mutation) and each `Event` hands back what came of it.
//! The safety invariant, which `advance` carries as a law: **no mutating
//! action is ever requested until its intent (`Prepared`) is durably
//! recorded.**
use vstd::prelude::*;
use crate::domain::{
    Action,
    ActionProbe,
    ActionResult,
    ActionState,
    ExecutionState,
    HistoryItem,
    Op,
    Plan,
    PreparedProbe,
    JOURNAL_VERSION,
};
use crate::text::{concat, concat3};

verus! {

/// The point in the write-ahead lifecycle a journal write belongs to.
#[derive(Debug, Clone, Copy, PartialEq, Eq, Structural)]
pub enum JournalStage {
    /// The journal's first write, before any mutation.
    Initial,
    /// The per-action write-ahead intent, before a mutation.
    Prepare,
    /// A terminal outcome (succeeded/failed) for one action.
    Outcome,
    /// The final `execution_state = completed` write.
    Finalize,
    /// Persisting a reconciliation result.
    Recover,
    /// Persisting the record describing an undo attempt.
    UndoRecord,
}

/// A completed execution: every action reached a durably recorded outcome.
#[derive(Debug)]
pub struct ExecutionReport {
    pub history_id: String,
    pub outcomes: Vec<ActionResult>,
    pub execution_state: ExecutionState,
}

/// How far execution got before it could not continue.
#[derive(Debug, Clone, Copy, PartialEq, Eq, Structural)]
pub enum ExecutionFailure {
    /// The initial journal write failed: nothing was persisted and no
    /// mutation was attempted.
    NotStarted,
    /// The journal was persisted, but execution could not be completed.
    Interrupted,
}

/// A non-recoverable execution failure.
#[derive(Debug)]
pub struct ExecutionError {
    pub failure: ExecutionFailure,
    /// Present whenever the initial journal was persisted.
    pub history_id: Option<String>,
    /// Outcomes that are durably recorded.
    pub outcomes: Vec<ActionResult>,
    /// True iff a mutation may have occurred whose outcome is not durably
    /// recorded.
    pub may_have_mutated: bool,
    pub message: String,
}

impl ExecutionError {
    /// The human-readable message (what `Display` shows).
    pub fn to_string(&self) -> (r: String)
        ensures
            r@ == self.message@,
    {
        self.message.clone()
    }
}

/// Outside work the machine asks its driver to perform next.
#[derive(Debug)]
pub enum Command {
    /// Durably write `item()` as the journal, tagged with this stage.
    WriteJournal(JournalStage),
    /// Capture the identity of action `i`'s source (a move).
    Probe(usize),
    /// Perform action `i`'s filesystem mutation.
    Run(usize),
    /// Execution is over.
    Finished(Result<ExecutionReport, ExecutionError>),
}

/// What came of the last command.
#[derive(Debug)]
pub enum Event {
    Journal(Result<(), String>),
    Probed(Option<ActionProbe>),
    Ran(Result<(), String>),
}

/// Where the machine is.
#[derive(Debug, Clone, Copy, PartialEq, Eq, Structural)]
pub enum Stage {
    AwaitInitial,
    AwaitSkipRecord(usize),
    AwaitProbe(usize),
    AwaitPrepare(usize),
    AwaitRun(usize),
    /// The outcome of action `i` was pushed; `bool`: whether it succeeded.
    AwaitOutcome(usize, bool),
    AwaitFinalize,
    Done,
}

/// A plan being executed.
pub struct Execution {
    item: HistoryItem,
    stage: Stage,
    /// The probe recorded with the prepared action, if any.
    prepared: Option<PreparedProbe>,
    /// The journal as last durably written.
    durable: Ghost<Option<HistoryItem>>,
    /// Whether any mutation has been requested.
    ran_any: Ghost<bool>,
}

pub open spec fn is_mutating(op: Op) -> bool {
    op != Op::Skip
}

pub open spec fn is_move(op: Op) -> bool {
    op == Op::Move || op == Op::MoveDir
}

/// The outcome recorded for `a` when its mutation returned `res`.
pub open spec fn outcome_spec(a: Action, res: Result<(), String>) -> ActionResult {
    ActionResult {
        src: a.src,
        dst: a.dst,
        op: a.op,
        undoable: a.undoable && res is Ok && is_move(a.op),
        result: res,
    }
}

pub fn outcome_for(action: &Action, op_result: Result<(), String>) -> (r: ActionResult)
    ensures
        r == outcome_spec(*action, op_result),
{
    let ok = op_result.is_ok();
    let mv = match action.op {
        Op::Move | Op::MoveDir => true,
        _ => false,
    };
    ActionResult {
        src: action.src.clone(),
        dst: crate::domain::clone_opt_string(&action.dst),
        op: action.op,
        undoable: action.undoable && ok && mv,
        result: op_result,
    }
}

/// The durable journal records action `i` (a mutating one) as prepared,
/// under a running execution.
pub open spec fn intent_durable(d: Option<HistoryItem>, actions: Seq<Action>, i: int) -> bool {
    match d {
        Some(j) => {
            &&& 0 <= i < actions.len()
            &&& j.actions@ == actions
            &&& j.action_states@.len() == actions.len()
            &&& j.action_states@[i] == ActionState::Prepared
            &&& j.execution_state == ExecutionState::Running
            &&& is_mutating(actions[i].op)
        },
        None => false,
    }
}

impl Execution {
    /// The machine's invariant.
    pub closed spec fn wf(self) -> bool {
        let n = self.item.actions@.len();
        &&& self.item.action_states@.len() == n
        &&& self.item.outcomes@.len() <= n
        &&& outcomes_follow_actions(self.item)
        &&& forall|j: int|
            0 <= j < self.item.outcomes@.len() ==> crate::domain::is_terminal(
                #[trigger] self.item.action_states@[j],
            )
        &&& (self.stage != Stage::AwaitFinalize && self.stage != Stage::Done)
            ==> self.item.execution_state == ExecutionState::Running
        &&& match self.stage {
            Stage::AwaitInitial => self.durable@ is None && !self.ran_any@
                && self.item.outcomes@.len() == 0,
            Stage::AwaitSkipRecord(i) => i < n && self.item.outcomes@.len() == i + 1
                && self.durable@ is Some,
            Stage::AwaitProbe(i) => i < n && self.item.outcomes@.len() == i && self.durable@ is Some
                && is_mutating(self.item.actions@[i as int].op),
            Stage::AwaitPrepare(i) => i < n && self.item.outcomes@.len() == i && self.durable@ is Some
                && self.item.action_states@[i as int] == ActionState::Prepared
                && is_mutating(self.item.actions@[i as int].op),
            Stage::AwaitRun(i) => i < n && self.item.outcomes@.len() == i && self.ran_any@ && intent_durable(
                self.durable@,
                self.item.actions@,
                i as int,
            ),
            Stage::AwaitOutcome(i, _) => i < n && self.item.outcomes@.len() == i + 1
                && self.durable@ is Some && self.ran_any@,
            Stage::AwaitFinalize => self.item.outcomes@.len() == n && self.durable@ is Some
                && self.item.execution_state == ExecutionState::Completed,
            Stage::Done => true,
        }
    }

    /// The journal the driver writes on `WriteJournal`.
    pub closed spec fn journal(self) -> HistoryItem {
        self.item
    }

    /// The journal as last durably written (`None` before the first write).
    pub closed spec fn durable_journal(self) -> Option<HistoryItem> {
        self.durable@
    }

    /// Whether any mutation has been requested so far.
    pub closed spec fn has_run(self) -> bool {
        self.ran_any@
    }

    /// The journal to write now.
    pub fn item(&self) -> (r: &HistoryItem)
        ensures
            *r == self.journal(),
    {
        &self.item
    }
}

/// Each outcome is about the action at the same position (its source,
/// destination and operation), and is undoable exactly when that action
/// was, it succeeded, and it was a move; there are no more outcomes than
/// actions.
pub open spec fn outcomes_match(outs: Seq<ActionResult>, actions: Seq<Action>) -> bool {
    &&& outs.len() <= actions.len()
    &&& forall|j: int|
        0 <= j < outs.len() ==> (#[trigger] outs[j]).src == actions[j].src && outs[j].dst
            == actions[j].dst && outs[j].op == actions[j].op && outs[j].undoable == (
        actions[j].undoable && outs[j].result is Ok && is_move(actions[j].op))
}

/// Each recorded outcome of the journal is about the action at the same
/// position.
pub open spec fn outcomes_follow_actions(item: HistoryItem) -> bool {
    outcomes_match(item.outcomes@, item.actions@)
}

/// The event that answers command `r`: a journal write's result, a probe,
/// or a mutation's result; nothing answers `Finished`.
pub open spec fn answers(r: Command, ev: Event) -> bool {
    match r {
        Command::WriteJournal(_) => ev is Journal,
        Command::Probe(_) => ev is Probed,
        Command::Run(_) => ev is Ran,
        Command::Finished(_) => false,
    }
}

impl Execution {
    /// Where the machine stands.
    pub closed spec fn stage(self) -> Stage {
        self.stage
    }

    /// The source probe recorded with the action last prepared, kept so
    /// that a failed outcome write can restore the prepared journal.
    pub closed spec fn recorded_probe(self) -> Option<PreparedProbe> {
        self.prepared
    }
}

/// `post` is the journal `pre` with the given per-action states, outcomes,
/// execution state and prepared probe, every other field kept.
pub open spec fn journal_with(
    pre: HistoryItem,
    post: HistoryItem,
    states: Seq<ActionState>,
    outcomes: Seq<ActionResult>,
    es: ExecutionState,
    probe: Option<PreparedProbe>,
) -> bool {
    &&& post.id == pre.id
    &&& post.actions == pre.actions
    &&& post.timestamp == pre.timestamp
    &&& post.kind == pre.kind
    &&& post.origin == pre.origin
    &&& post.watch_root == pre.watch_root
    &&& post.journal_version == pre.journal_version
    &&& post.action_states@ == states
    &&& post.outcomes@ == outcomes
    &&& post.execution_state == es
    &&& post.prepared_probe == probe
}

/// Starting action `i` of journal `j` (finalizing once every action is
/// done) leaves the machine as `post` and asks for `r`: the journal is
/// marked completed and written; a no-op is recorded as succeeded and its
/// outcome written; a move first has its source probed; any other mutation
/// has its intent (`Prepared`) written.
pub open spec fn starts_action(j: HistoryItem, post: Execution, r: Command, i: int) -> bool {
    let a = j.actions@;
    let st = j.action_states@;
    let out = j.outcomes@;
    if i == a.len() {
        &&& journal_with(j, post.journal(), st, out, ExecutionState::Completed, None)
        &&& post.stage() == Stage::AwaitFinalize
        &&& r == Command::WriteJournal(JournalStage::Finalize)
    } else if a[i].op == Op::Skip {
        &&& journal_with(
            j,
            post.journal(),
            st.update(i, ActionState::Succeeded),
            out.push(outcome_spec(a[i], Ok(()))),
            j.execution_state,
            j.prepared_probe,
        )
        &&& post.stage() == Stage::AwaitSkipRecord(i as usize)
        &&& r == Command::WriteJournal(JournalStage::Outcome)
    } else if is_move(a[i].op) {
        &&& journal_with(j, post.journal(), st, out, j.execution_state, j.prepared_probe)
        &&& post.stage() == Stage::AwaitProbe(i as usize)
        &&& r == Command::Probe(i as usize)
    } else {
        &&& journal_with(
            j,
            post.journal(),
            st.update(i, ActionState::Prepared),
            out,
            j.execution_state,
            None,
        )
        &&& post.recorded_probe() is None
        &&& post.stage() == Stage::AwaitPrepare(i as usize)
        &&& r == Command::WriteJournal(JournalStage::Prepare)
    }
}

/// `r` ends the execution as interrupted, reporting journal `j`'s id and
/// recorded outcomes, whether a mutation may have gone unrecorded, and
/// `msg`.
pub open spec fn interrupted_with(r: Command, j: HistoryItem, mutated: bool, msg: Seq<char>) -> bool {
    r matches Command::Finished(Err(e)) && e.failure == ExecutionFailure::Interrupted
        && e.history_id == Some(j.id) && e.outcomes@ == j.outcomes@ && e.may_have_mutated
        == mutated && e.message@ == msg
}

/// The prepared probe recorded for action `i` from what probing its source
/// gave.
pub open spec fn probe_record(i: usize, p: Option<ActionProbe>) -> Option<PreparedProbe> {
    match p {
        Some(p) => Some(PreparedProbe { action_index: i, probe: p }),
        None => None,
    }
}

/// One step of the machine: `pre`, handed `ev`, becomes `post` and asks
/// for `r`.
pub open spec fn advanced(pre: Execution, ev: Event, post: Execution, r: Command) -> bool {
    let j = pre.journal();
    let a = j.actions@;
    let st = j.action_states@;
    let out = j.outcomes@;
    match pre.stage() {
        Stage::AwaitInitial => match ev {
            Event::Journal(Ok(_)) => post.durable_journal() == Some(j) && starts_action(
                j,
                post,
                r,
                0,
            ),
            Event::Journal(Err(e)) => {
                &&& post.stage() == Stage::Done
                &&& post.journal() == j
                &&& r matches Command::Finished(Err(x)) && x.failure == ExecutionFailure::NotStarted
                    && x.history_id is None && x.outcomes@.len() == 0 && !x.may_have_mutated
                    && x.message@
                    == "cannot start execution: the history journal could not be written ("@ + e@
                    + ")"@
            },
            _ => true,
        },
        Stage::AwaitSkipRecord(i) => match ev {
            Event::Journal(Ok(_)) => post.durable_journal() == Some(j) && starts_action(
                j,
                post,
                r,
                i + 1,
            ),
            Event::Journal(Err(e)) => {
                &&& post.stage() == Stage::Done
                &&& post.journal() == j
                &&& interrupted_with(
                    r,
                    j,
                    false,
                    "execution interrupted while recording a no-op outcome ("@ + e@ + ")"@,
                )
            },
            _ => true,
        },
        Stage::AwaitProbe(i) => match ev {
            Event::Probed(p) => {
                &&& journal_with(
                    j,
                    post.journal(),
                    st.update(i as int, ActionState::Prepared),
                    out,
                    j.execution_state,
                    probe_record(i, p),
                )
                &&& post.recorded_probe() == probe_record(i, p)
                &&& post.stage() == Stage::AwaitPrepare(i)
                &&& r == Command::WriteJournal(JournalStage::Prepare)
            },
            _ => true,
        },
        Stage::AwaitPrepare(i) => match ev {
            Event::Journal(Ok(_)) => {
                &&& post.durable_journal() == Some(j)
                &&& post.journal() == j
                &&& post.has_run()
                &&& post.stage() == Stage::AwaitRun(i)
                &&& r == Command::Run(i)
            },
            Event::Journal(Err(e)) => {
                &&& journal_with(
                    j,
                    post.journal(),
                    st.update(i as int, ActionState::Pending),
                    out,
                    j.execution_state,
                    None,
                )
                &&& post.stage() == Stage::Done
                &&& interrupted_with(
                    r,
                    post.journal(),
                    false,
                    "execution interrupted before changing "@ + a[i as int].src@
                        + ": its intent could not be recorded ("@ + e@ + ")"@,
                )
            },
            _ => true,
        },
        Stage::AwaitRun(i) => match ev {
            Event::Ran(res) => {
                &&& journal_with(
                    j,
                    post.journal(),
                    st.update(
                        i as int,
                        if res is Ok {
                            ActionState::Succeeded
                        } else {
                            ActionState::Failed
                        },
                    ),
                    out.push(outcome_spec(a[i as int], res)),
                    j.execution_state,
                    None,
                )
                &&& post.stage() == Stage::AwaitOutcome(i, res is Ok)
                &&& r == Command::WriteJournal(JournalStage::Outcome)
            },
            _ => true,
        },
        Stage::AwaitOutcome(i, ok) => match ev {
            Event::Journal(Ok(_)) => post.durable_journal() == Some(j) && starts_action(
                j,
                post,
                r,
                i + 1,
            ),
            Event::Journal(Err(e)) => {
                &&& journal_with(
                    j,
                    post.journal(),
                    st.update(i as int, ActionState::Prepared),
                    out.drop_last(),
                    j.execution_state,
                    pre.recorded_probe(),
                )
                &&& post.stage() == Stage::Done
                &&& interrupted_with(
                    r,
                    post.journal(),
                    ok,
                    "execution interrupted after "@ + a[i as int].src@
                        + ": its outcome could not be recorded ("@ + e@ + ")"@,
                )
            },
            _ => true,
        },
        Stage::AwaitFinalize => match ev {
            Event::Journal(Ok(_)) => {
                &&& post.durable_journal() == Some(j)
                &&& post.journal() == j
                &&& post.stage() == Stage::Done
                &&& r matches Command::Finished(Ok(rep)) && rep.history_id == j.id
                    && rep.outcomes@ == out && rep.execution_state == ExecutionState::Completed
            },
            Event::Journal(Err(e)) => {
                &&& post.stage() == Stage::Done
                &&& post.journal() == j
                &&& interrupted_with(
                    r,
                    j,
                    false,
                    "all actions were recorded, but the completion record could not be persisted ("@
                        + e@ + ")"@,
                )
            },
            _ => true,
        },
        Stage::Done => true,
    }
}

impl Execution {
    /// Whether `ev` is the kind of event the pending command answers.
    pub open spec fn expects(self, ev: Event) -> bool {
        match self.stage() {
            Stage::AwaitProbe(_) => ev is Probed,
            Stage::AwaitRun(_) => ev is Ran,
            Stage::Done => false,
            _ => ev is Journal,
        }
    }

    pub open spec fn is_done(self) -> bool {
        self.stage() == Stage::Done
    }

    fn interrupted(&self, mutated: bool, message: String) -> (r: Command)
        ensures
            interrupted_with(r, self.item, mutated, message@),
    {
        Command::Finished(
            Err(
                ExecutionError {
                    failure: ExecutionFailure::Interrupted,
                    history_id: Some(self.item.id.clone()),
                    outcomes: clone_outcomes(&self.item.outcomes),
                    may_have_mutated: mutated,
                    message,
                },
            ),
        )
    }

    /// Starts action `i` (or finalizes once every action is done).
    fn begin_action(&mut self, i: usize) -> (r: Command)
        requires
            i <= old(self).item.actions@.len(),
            old(self).item.outcomes@.len() == i,
            old(self).item.action_states@.len() == old(self).item.actions@.len(),
            old(self).durable@ is Some,
            old(self).item.execution_state == ExecutionState::Running,
            outcomes_follow_actions(old(self).item),
            forall|j: int|
                0 <= j < old(self).item.outcomes@.len() ==> crate::domain::is_terminal(
                    #[trigger] old(self).item.action_states@[j],
                ),
        ensures
            final(self).wf(),
            final(self).item.actions == old(self).item.actions,
            final(self).item.id == old(self).item.id,
            final(self).durable@ == old(self).durable@,
            final(self).ran_any@ == old(self).ran_any@,
            r is WriteJournal || r is Probe,
            final(self).stage != Stage::Done,
            starts_action(old(self).item, *final(self), r, i as int),
    {
        let n = self.item.actions.len();
        if i == n {
            self.item.execution_state = ExecutionState::Completed;
            self.item.prepared_probe = None;
            self.stage = Stage::AwaitFinalize;
            return Command::WriteJournal(JournalStage::Finalize);
        }
        let op = self.item.actions[i].op;
        match op {
            Op::Skip => {
                let outcome = outcome_for(&self.item.actions[i], Ok(()));
                self.item.action_states.set(i, ActionState::Succeeded);
                self.item.outcomes.push(outcome);
                self.stage = Stage::AwaitSkipRecord(i);
                Command::WriteJournal(JournalStage::Outcome)
            },
            Op::Move | Op::MoveDir => {
                self.stage = Stage::AwaitProbe(i);
                Command::Probe(i)
            },
            _ => {
                self.prepared = None;
                self.item.action_states.set(i, ActionState::Prepared);
                self.item.prepared_probe = None;
                self.stage = Stage::AwaitPrepare(i);
                Command::WriteJournal(JournalStage::Prepare)
            },
        }
    }

    /// Hands the machine what came of its last command and gets the next
    /// one.
    pub fn advance(&mut self, ev: Event) -> (r: Command)
        requires
            old(self).wf(),
            old(self).expects(ev),
        ensures
            final(self).wf(),
            r matches Command::Run(i) ==> intent_durable(
                final(self).durable_journal(),
                final(self).journal().actions@,
                i as int,
            ),
            r matches Command::Run(_) ==> final(self).has_run(),
            r matches Command::Finished(Err(e)) && e.failure == ExecutionFailure::NotStarted
                ==> !final(self).has_run() && final(self).durable_journal() is None,
            r matches Command::Finished(Err(e)) && e.may_have_mutated ==> final(self).has_run(),
            r matches Command::Finished(Ok(rep)) ==> (final(self).durable_journal() matches Some(
                d,
            ) && crate::domain::all_terminal(d) && d.execution_state == ExecutionState::Completed
                && rep.outcomes@ == d.outcomes@ && d.actions == final(self).journal().actions
                && d.outcomes@.len() == d.actions@.len() && outcomes_follow_actions(d)),
            r matches Command::Finished(Ok(rep)) ==> rep.execution_state == ExecutionState::Completed
                && rep.outcomes@.len() == final(self).journal().actions@.len() && outcomes_match(
                rep.outcomes@,
                final(self).journal().actions@,
            ),
            r matches Command::Finished(Err(e)) ==> outcomes_match(
                e.outcomes@,
                final(self).journal().actions@,
            ) && (e.failure == ExecutionFailure::NotStarted <==> e.history_id is None),
            r matches Command::Finished(Err(e)) ==> (e.failure == ExecutionFailure::NotStarted
                ==> e.outcomes@.len() == 0 && !e.may_have_mutated),
            forall|e: Event| #[trigger] final(self).expects(e) == answers(r, e),
            r is Finished <==> final(self).is_done(),
            old(self).has_run() ==> final(self).has_run(),
            final(self).journal().actions == old(self).journal().actions,
            final(self).journal().id == old(self).journal().id,
            advanced(*old(self), ev, *final(self), r),
            !(r is Run) ==> final(self).has_run() == old(self).has_run(),
    {
        let stage = self.stage;
        match stage {
            Stage::AwaitInitial => {
                match ev {
                    Event::Journal(Ok(())) => {
                        self.durable = Ghost(Some(self.item));
                        self.begin_action(0)
                    },
                    Event::Journal(Err(e)) => {
                        self.stage = Stage::Done;
                        let m = concat3(
                            "cannot start execution: the history journal could not be written (",
                            e.as_str(),
                            ")",
                        );
                        Command::Finished(
                            Err(
                                ExecutionError {
                                    failure: ExecutionFailure::NotStarted,
                                    history_id: None,
                                    outcomes: Vec::new(),
                                    may_have_mutated: false,
                                    message: m,
                                },
                            ),
                        )
                    },
                    _ => {
                        self.stage = Stage::Done;
                        Command::Finished(Err(self.protocol_error()))
                    },
                }
            },
            Stage::AwaitSkipRecord(i) => match ev {
                Event::Journal(Ok(())) => {
                    self.durable = Ghost(Some(self.item));
                    let n = self.item.actions.len();
                    assert(i < n);
                    self.begin_action(i + 1)
                },
                Event::Journal(Err(e)) => {
                    self.stage = Stage::Done;
                    let m = concat3(
                        "execution interrupted while recording a no-op outcome (",
                        e.as_str(),
                        ")",
                    );
                    self.interrupted(false, m)
                },
                _ => {
                    self.stage = Stage::Done;
                    self.interrupted(false, "unexpected event".to_owned())
                },
            },
            Stage::AwaitProbe(i) => match ev {
                Event::Probed(probe) => {
                    let prepared = match probe {
                        Some(p) => Some(PreparedProbe { action_index: i, probe: p }),
                        None => None,
                    };
                    self.prepared = prepared;
                    self.item.action_states.set(i, ActionState::Prepared);
                    self.item.prepared_probe = prepared;
                    self.stage = Stage::AwaitPrepare(i);
                    Command::WriteJournal(JournalStage::Prepare)
                },
                _ => {
                    self.stage = Stage::Done;
                    self.interrupted(false, "unexpected event".to_owned())
                },
            },
            Stage::AwaitPrepare(i) => match ev {
                Event::Journal(Ok(())) => {
                    self.durable = Ghost(Some(self.item));
                    self.ran_any = Ghost(true);
                    self.stage = Stage::AwaitRun(i);
                    Command::Run(i)
                },
                Event::Journal(Err(e)) => {
                    self.item.action_states.set(i, ActionState::Pending);
                    self.item.prepared_probe = None;
                    self.stage = Stage::Done;
                    let head = concat3(
                        "execution interrupted before changing ",
                        self.item.actions[i].src.as_str(),
                        ": its intent could not be recorded (",
                    );
                    let m = concat(head.as_str(), e.as_str());
                    let m2 = concat(m.as_str(), ")");
                    self.interrupted(false, m2)
                },
                _ => {
                    self.stage = Stage::Done;
                    self.interrupted(false, "unexpected event".to_owned())
                },
            },
            Stage::AwaitRun(i) => match ev {
                Event::Ran(res) => {
                    let ok = res.is_ok();
                    let outcome = outcome_for(&self.item.actions[i], res);
                    self.item.action_states.set(
                        i,
                        if ok {
                            ActionState::Succeeded
                        } else {
                            ActionState::Failed
                        },
                    );
                    self.item.prepared_probe = None;
                    self.item.outcomes.push(outcome);
                    self.stage = Stage::AwaitOutcome(i, ok);
                    Command::WriteJournal(JournalStage::Outcome)
                },
                _ => {
                    self.stage = Stage::Done;
                    self.interrupted(false, "unexpected event".to_owned())
                },
            },
            Stage::AwaitOutcome(i, ok) => match ev {
                Event::Journal(Ok(())) => {
                    self.durable = Ghost(Some(self.item));
                    let n = self.item.actions.len();
                    assert(i < n);
                    self.begin_action(i + 1)
                },
                Event::Journal(Err(e)) => {
                    self.item.outcomes.pop();
                    self.item.action_states.set(i, ActionState::Prepared);
                    self.item.prepared_probe = self.prepared;
                    self.stage = Stage::Done;
                    let head = concat3(
                        "execution interrupted after ",
                        self.item.actions[i].src.as_str(),
                        ": its outcome could not be recorded (",
                    );
                    let m = concat(head.as_str(), e.as_str());
                    let m2 = concat(m.as_str(), ")");
                    self.interrupted(ok, m2)
                },
                _ => {
                    self.stage = Stage::Done;
                    self.interrupted(false, "unexpected event".to_owned())
                },
            },
            Stage::AwaitFinalize => match ev {
                Event::Journal(Ok(())) => {
                    self.durable = Ghost(Some(self.item));
                    self.stage = Stage::Done;
                    Command::Finished(
                        Ok(
                            ExecutionReport {
                                history_id: self.item.id.clone(),
                                outcomes: clone_outcomes(&self.item.outcomes),
                                execution_state: ExecutionState::Completed,
                            },
                        ),
                    )
                },
                Event::Journal(Err(e)) => {
                    self.stage = Stage::Done;
                    let m = concat3(
                        "all actions were recorded, but the completion record could not be persisted (",
                        e.as_str(),
                        ")",
                    );
                    self.interrupted(false, m)
                },
                _ => {
                    self.stage = Stage::Done;
                    self.interrupted(false, "unexpected event".to_owned())
                },
            },
            Stage::Done => {
                self.interrupted(false, "unexpected event".to_owned())
            },
        }
    }

    fn protocol_error(&self) -> (r: ExecutionError)
        ensures
            r.failure == ExecutionFailure::NotStarted,
            r.history_id is None,
            r.outcomes@.len() == 0,
            !r.may_have_mutated,
    {
        ExecutionError {
            failure: ExecutionFailure::NotStarted,
            history_id: None,
            outcomes: Vec::new(),
            may_have_mutated: false,
            message: "unexpected event".to_owned(),
        }
    }
}

fn clone_outcomes(v: &Vec<ActionResult>) -> (r: Vec<ActionResult>)
    ensures
        r@ == v@,
{
    let mut out: Vec<ActionResult> = Vec::new();
    let mut i: usize = 0;
    while i < v.len()
        invariant
            i <= v@.len(),
            out@ == v@.subrange(0, i as int),
        decreases v@.len() - i,
    {
        out.push(v[i].clone());
        assert(out@ =~= v@.subrange(0, i + 1));
        i += 1;
    }
    assert(v@.subrange(0, v@.len() as int) =~= v@);
    out
}

pub open spec fn all_pending(n: nat) -> Seq<ActionState> {
    Seq::new(n, |i: int| ActionState::Pending)
}

/// Begins executing `plan` under a write-ahead journal identified by
/// `history_id`: the whole plan is journaled as running, every action
/// pending, before anything else happens. `kind` and `watch_root` are
/// recorded for display only.
pub fn execute_plan(
    plan: Plan,
    history_id: String,
    kind: &str,
    watch_root: Option<String>,
    timestamp: u64,
) -> (r: (Execution, Command))
    ensures
        r.0.wf(),
        r.1 == Command::WriteJournal(JournalStage::Initial),
        r.0.journal().id == history_id,
        r.0.journal().actions == plan.actions,
        r.0.journal().action_states@ == all_pending(plan.actions@.len()),
        r.0.journal().outcomes@.len() == 0,
        r.0.journal().execution_state == ExecutionState::Running,
        r.0.journal().kind@ == kind@,
        r.0.journal().origin@ == (if watch_root is Some {
            "watch"@
        } else {
            "manual"@
        }),
        r.0.journal().watch_root == watch_root,
        r.0.journal().timestamp == timestamp,
        r.0.journal().prepared_probe is None,
        r.0.journal().journal_version == JOURNAL_VERSION,
        !r.0.has_run(),
        forall|e: Event| #[trigger] r.0.expects(e) == answers(r.1, e),
{
    let n = plan.actions.len();
    let mut states: Vec<ActionState> = Vec::new();
    let mut i: usize = 0;
    while i < n
        invariant
            i <= n,
            states@ == all_pending(i as nat),
        decreases n - i,
    {
        states.push(ActionState::Pending);
        assert(states@ =~= all_pending((i + 1) as nat));
        i += 1;
    }
    let origin = if watch_root.is_some() {
        "watch".to_owned()
    } else {
        "manual".to_owned()
    };
    let item = HistoryItem {
        id: history_id,
        actions: plan.actions,
        timestamp,
        outcomes: Vec::new(),
        kind: kind.to_owned(),
        origin,
        watch_root,
        execution_state: ExecutionState::Running,
        action_states: states,
        prepared_probe: None,
        journal_version: JOURNAL_VERSION,
    };
    let ex = Execution {
        item,
        stage: Stage::AwaitInitial,
        prepared: None,
        durable: Ghost(None),
        ran_any: Ghost(false),
    };
    (ex, Command::WriteJournal(JournalStage::Initial))
}

} // verus!
