//! The data every command shares: scanned entries, categories, planned
//! actions, and the durable execution journal with its per-action states.
use vstd::prelude::*;

verus! {

/// Journal schema version written by the current executor (`0` = legacy).
pub const JOURNAL_VERSION: u32 = 1;

#[derive(Debug, Clone, Copy, PartialEq, Eq, Hash, Structural)]
pub enum Category {
    Document,
    Image,
    Video,
    Audio,
    Archive,
    ThreeD,
    /// Source code and scripts.
    Code,
    /// Structured/tabular data.
    Data,
    /// An ordinary regular file with no more specific category.
    Other,
    Junk,
    BuildOutput,
    Sensitive,
    /// Not an ordinary classifiable file at all (a directory, a symlink).
    Unknown,
}

/// One directory entry as described by no-follow metadata.
#[derive(Debug)]
pub struct Entry {
    pub path: String,
    pub is_dir: bool,
    pub is_symlink: bool,
    pub hidden: bool,
    pub size: Option<u64>,
    pub mtime: Option<u64>,
    pub project_root: bool,
    pub protected: bool,
    pub classified_as: Option<Category>,
}

impl Clone for Entry {
    fn clone(&self) -> (r: Self)
        ensures
            r == *self,
    {
        Entry {
            path: self.path.clone(),
            is_dir: self.is_dir,
            is_symlink: self.is_symlink,
            hidden: self.hidden,
            size: self.size,
            mtime: self.mtime,
            project_root: self.project_root,
            protected: self.protected,
            classified_as: self.classified_as,
        }
    }
}

#[derive(Debug, Clone, Copy, PartialEq, Eq, Structural)]
pub enum Op {
    CreateDir,
    /// Moves a regular file.
    Move,
    /// Moves an entire directory intact.
    MoveDir,
    Trash,
    Skip,
}

#[derive(Debug)]
pub struct Action {
    pub src: String,
    /// The destination of a move (or the file a duplicate matched).
    pub dst: Option<String>,
    pub op: Op,
    pub reason: Option<String>,
    pub undoable: bool,
}

pub fn clone_opt_string(s: &Option<String>) -> (r: Option<String>)
    ensures
        r == *s,
{
    match s {
        Some(x) => Some(x.clone()),
        None => None,
    }
}

impl Clone for Action {
    fn clone(&self) -> (r: Self)
        ensures
            r == *self,
    {
        Action {
            src: self.src.clone(),
            dst: clone_opt_string(&self.dst),
            op: self.op,
            reason: clone_opt_string(&self.reason),
            undoable: self.undoable,
        }
    }
}

#[derive(Debug)]
pub struct Plan {
    pub actions: Vec<Action>,
}

/// Execution-level lifecycle state of a journal.
#[derive(Debug, Clone, Copy, PartialEq, Eq, Structural)]
pub enum ExecutionState {
    Running,
    Completed,
    Interrupted,
}

impl Default for ExecutionState {
    /// Records written before this field existed were only persisted after
    /// execution finished, so a missing state means the run completed.
    fn default() -> (r: Self)
        ensures
            r == ExecutionState::Completed,
    {
        ExecutionState::Completed
    }
}

/// Durable per-action state.
#[derive(Debug, Clone, Copy, PartialEq, Eq, Structural)]
pub enum ActionState {
    /// Part of the plan, never authorized.
    Pending,
    /// Intent durably recorded; no terminal outcome known.
    Prepared,
    Succeeded,
    Failed,
    /// Reconciliation could not prove whether the prepared mutation happened.
    Ambiguous,
}

/// Identity of a source path captured immediately before its mutation.
#[derive(Debug, Clone, Copy, PartialEq, Eq, Structural)]
pub struct ActionProbe {
    pub dev: Option<u64>,
    pub ino: Option<u64>,
    pub len: Option<u64>,
    pub mtime: Option<u64>,
    pub is_dir: bool,
    pub is_symlink: bool,
}

/// The single prepared action's source probe, stored on the journal.
#[derive(Debug, Clone, Copy, PartialEq, Eq, Structural)]
pub struct PreparedProbe {
    /// Index into `actions` of the prepared action this probe describes.
    pub action_index: usize,
    pub probe: ActionProbe,
}

#[derive(Debug)]
pub struct ActionResult {
    pub src: String,
    pub dst: Option<String>,
    pub op: Op,
    pub result: Result<(), String>,
    pub undoable: bool,
}

pub fn clone_result(r: &Result<(), String>) -> (c: Result<(), String>)
    ensures
        c == *r,
{
    match r {
        Ok(u) => Ok(*u),
        Err(e) => Err(e.clone()),
    }
}

impl Clone for ActionResult {
    fn clone(&self) -> (r: Self)
        ensures
            r == *self,
    {
        ActionResult {
            src: self.src.clone(),
            dst: clone_opt_string(&self.dst),
            op: self.op,
            result: clone_result(&self.result),
            undoable: self.undoable,
        }
    }
}

#[derive(Debug)]
pub struct HistoryItem {
    pub id: String,
    pub actions: Vec<Action>,
    pub timestamp: u64,
    pub outcomes: Vec<ActionResult>,
    /// "organize", "clean", "undo", ...; display only.
    pub kind: String,
    /// "manual" or "watch" (empty in legacy records); display only.
    pub origin: String,
    /// The watch root responsible, set only for watch-initiated runs.
    pub watch_root: Option<String>,
    pub execution_state: ExecutionState,
    /// Per-action durable state, parallel to `actions` (empty in legacy records).
    pub action_states: Vec<ActionState>,
    /// Source identity for the one currently prepared action.
    pub prepared_probe: Option<PreparedProbe>,
    pub journal_version: u32,
}

/// The durable state of action `i`: the stored state when there is one,
/// otherwise derived from the matching outcome (legacy records).
pub open spec fn state_at(item: HistoryItem, i: int) -> ActionState {
    if 0 <= i < item.action_states@.len() {
        item.action_states@[i]
    } else if 0 <= i < item.outcomes@.len() {
        if item.outcomes@[i].result is Ok {
            ActionState::Succeeded
        } else {
            ActionState::Failed
        }
    } else {
        ActionState::Pending
    }
}

pub open spec fn is_terminal(s: ActionState) -> bool {
    s == ActionState::Succeeded || s == ActionState::Failed
}

pub open spec fn is_unresolved(s: ActionState) -> bool {
    s == ActionState::Pending || s == ActionState::Prepared || s == ActionState::Ambiguous
}

pub open spec fn all_terminal(item: HistoryItem) -> bool {
    forall|i: int| 0 <= i < item.actions@.len() ==> is_terminal(#[trigger] state_at(item, i))
}

/// Number of actions among the first `n` that are not terminal.
pub open spec fn unresolved_below(item: HistoryItem, n: int) -> nat
    decreases n,
{
    if n <= 0 {
        0
    } else {
        unresolved_below(item, n - 1) + if is_unresolved(state_at(item, n - 1)) {
            1nat
        } else {
            0nat
        }
    }
}

pub open spec fn effective(item: HistoryItem) -> ExecutionState {
    match item.execution_state {
        ExecutionState::Interrupted => ExecutionState::Interrupted,
        _ => if all_terminal(item) {
            ExecutionState::Completed
        } else {
            ExecutionState::Interrupted
        },
    }
}

impl HistoryItem {
    /// Durable state of one action.
    pub fn state_of(&self, index: usize) -> (r: ActionState)
        ensures
            r == state_at(*self, index as int),
    {
        if index < self.action_states.len() {
            return self.action_states[index];
        }
        if index < self.outcomes.len() {
            if self.outcomes[index].result.is_ok() {
                ActionState::Succeeded
            } else {
                ActionState::Failed
            }
        } else {
            ActionState::Pending
        }
    }

    /// Whether every action has a terminal, durably known outcome.
    pub fn all_actions_terminal(&self) -> (r: bool)
        ensures
            r == all_terminal(*self),
    {
        let n = self.actions.len();
        let mut i: usize = 0;
        while i < n
            invariant
                i <= n,
                n == self.actions@.len(),
                forall|j: int| 0 <= j < i ==> is_terminal(#[trigger] state_at(*self, j)),
            decreases n - i,
        {
            let s = self.state_of(i);
            if !(s == ActionState::Succeeded || s == ActionState::Failed) {
                return false;
            }
            i += 1;
        }
        true
    }

    /// Effective execution state: a `Running` or `Completed` journal is
    /// completed exactly when every action is terminal, otherwise it was
    /// interrupted.
    pub fn effective_state(&self) -> (r: ExecutionState)
        ensures
            r == effective(*self),
    {
        let all_terminal = self.all_actions_terminal();
        match self.execution_state {
            ExecutionState::Running => {
                if all_terminal {
                    ExecutionState::Completed
                } else {
                    ExecutionState::Interrupted
                }
            },
            ExecutionState::Completed => {
                if all_terminal {
                    ExecutionState::Completed
                } else {
                    ExecutionState::Interrupted
                }
            },
            ExecutionState::Interrupted => ExecutionState::Interrupted,
        }
    }

    /// Actions that never reached a terminal outcome (pending, prepared or
    /// ambiguous).
    pub fn unresolved_actions(&self) -> (r: usize)
        ensures
            r == unresolved_below(*self, self.actions@.len() as int),
    {
        let n = self.actions.len();
        let mut count: usize = 0;
        let mut i: usize = 0;
        while i < n
            invariant
                i <= n,
                n == self.actions@.len(),
                count == unresolved_below(*self, i as int),
                count <= i,
            decreases n - i,
        {
            let s = self.state_of(i);
            if s == ActionState::Pending || s == ActionState::Prepared || s
                == ActionState::Ambiguous {
                count += 1;
            }
            i += 1;
        }
        count
    }
}

/// Law: a journal has unresolved actions exactly when not every action is
/// terminal, so a nonzero count always comes with an interrupted
/// effective state.
pub proof fn law_unresolved_iff_not_terminal(item: HistoryItem)
    ensures
        (unresolved_below(item, item.actions@.len() as int) == 0) == all_terminal(item),
        unresolved_below(item, item.actions@.len() as int) > 0 ==> effective(item)
            == ExecutionState::Interrupted,
{
    lemma_unresolved_zero(item, item.actions@.len() as int);
}

proof fn lemma_unresolved_zero(item: HistoryItem, n: int)
    requires
        0 <= n,
    ensures
        (unresolved_below(item, n) == 0) == (forall|i: int|
            0 <= i < n ==> is_terminal(#[trigger] state_at(item, i))),
    decreases n,
{
    if n > 0 {
        lemma_unresolved_zero(item, n - 1);
        let s = state_at(item, n - 1);
        assert(is_terminal(s) != is_unresolved(s));
        if unresolved_below(item, n) == 0 {
            assert forall|i: int| 0 <= i < n implies is_terminal(#[trigger] state_at(item, i)) by {
                if i < n - 1 {
                } else {
                }
            }
        }
    }
}

} // verus!
