use sift::domain::{Action, ActionProbe, ActionResult, ActionState, ExecutionState, HistoryItem, Op, Plan};
use sift::executor::{execute_plan, Command, Event, ExecutionFailure, JournalStage};
use sift::history::{undo_outcome, undo_selection, clear_journal_fault, inject_journal_fault, journal_fault_triggered, undo_check};
use sift::planner::PathKind;
use sift::domain::PreparedProbe;
use sift::recovery::evidence_needed;

fn plan() -> Plan {
    Plan {
        actions: vec![
            Action { src: "/t/Docs".into(), dst: None, op: Op::CreateDir, reason: None, undoable: false },
            Action { src: "/t/a.pdf".into(), dst: Some("/t/Docs/a.pdf".into()), op: Op::Move, reason: None, undoable: true },
            Action { src: "/t/.x".into(), dst: None, op: Op::Skip, reason: Some("hidden file".into()), undoable: false },
        ],
    }
}

fn probe() -> ActionProbe {
    ActionProbe { dev: Some(1), ino: Some(2), len: Some(3), mtime: Some(4), is_dir: false, is_symlink: false }
}

#[test]
fn a_run_journals_before_every_mutation_and_completes() {
    let (mut exec, mut cmd) = execute_plan(plan(), "h1".into(), "organize", None, 7);
    let mut journal_writes = 0;
    let mut runs = Vec::new();
    let mut last_stage = None;
    let report = loop {
        let ev = match cmd {
            Command::WriteJournal(stage) => {
                journal_writes += 1;
                last_stage = Some(stage);
                Event::Journal(Ok(()))
            }
            Command::Probe(_) => Event::Probed(Some(probe())),
            Command::Run(i) => {
                // The intent for this action is durable before it runs.
                assert!(matches!(last_stage, Some(JournalStage::Prepare) | Some(JournalStage::Initial) | Some(JournalStage::Outcome)));
                runs.push(i);
                Event::Ran(Ok(()))
            }
            Command::Finished(r) => break r,
        };
        cmd = exec.advance(ev);
    };
    let report = report.unwrap();
    assert_eq!(report.history_id, "h1");
    assert_eq!(report.execution_state, ExecutionState::Completed);
    assert_eq!(report.outcomes.len(), 3);
    let srcs: Vec<&str> = report.outcomes.iter().map(|o| o.src.as_str()).collect();
    assert_eq!(srcs, vec!["/t/Docs", "/t/a.pdf", "/t/.x"]);
    assert_eq!(report.outcomes[1].op, Op::Move);
    assert!(report.outcomes[1].undoable);
    assert!(runs.contains(&1));
    assert!(journal_writes >= 2);
    assert_eq!(exec.item().execution_state, ExecutionState::Completed);
}

#[test]
fn a_failed_initial_journal_write_mutates_nothing() {
    let (mut exec, cmd) = execute_plan(plan(), "h2".into(), "organize", Some("/t".into()), 7);
    assert!(matches!(cmd, Command::WriteJournal(JournalStage::Initial)));
    match exec.advance(Event::Journal(Err("disk full".into()))) {
        Command::Finished(Err(e)) => {
            assert_eq!(e.failure, ExecutionFailure::NotStarted);
            assert!(!e.may_have_mutated);
            assert!(e.history_id.is_none());
        }
        other => panic!("unexpected {:?}", other),
    }
}

#[test]
fn journal_faults_fire_on_the_requested_write() {
    let mut slot = None;
    inject_journal_fault(&mut slot, JournalStage::Outcome, 1);
    assert!(!journal_fault_triggered(&mut slot, JournalStage::Prepare));
    assert!(!journal_fault_triggered(&mut slot, JournalStage::Outcome));
    assert!(journal_fault_triggered(&mut slot, JournalStage::Outcome));
    assert!(slot.is_none());
    inject_journal_fault(&mut slot, JournalStage::Finalize, 0);
    clear_journal_fault(&mut slot);
    assert!(!journal_fault_triggered(&mut slot, JournalStage::Finalize));
}

#[test]
fn undo_never_overwrites_or_follows_symlinks() {
    assert_eq!(undo_check(Op::Move, PathKind::File, PathKind::File), Some("original location is occupied"));
    assert_eq!(undo_check(Op::Move, PathKind::Absent, PathKind::Absent), Some("moved destination no longer exists"));
    assert_eq!(undo_check(Op::Move, PathKind::Absent, PathKind::Symlink), Some("moved destination is a symlink"));
    assert_eq!(undo_check(Op::MoveDir, PathKind::Absent, PathKind::File), Some("moved destination is not a directory"));
    assert_eq!(undo_check(Op::Move, PathKind::Absent, PathKind::Dir), Some("moved destination is a directory"));
    assert_eq!(undo_check(Op::Move, PathKind::Absent, PathKind::File), None);
    assert_eq!(undo_check(Op::MoveDir, PathKind::Absent, PathKind::Dir), None);
}

#[test]
fn undo_reverses_only_completed_moves() {
    let actions = vec![
        Action { src: "/t/a.pdf".into(), dst: Some("/t/Docs/a.pdf".into()), op: Op::Move, reason: None, undoable: true },
        Action { src: "/t/x.tmp".into(), dst: None, op: Op::Trash, reason: None, undoable: false },
        Action { src: "/t/b.jpg".into(), dst: Some("/t/Images/b.jpg".into()), op: Op::Move, reason: None, undoable: true },
        Action { src: "/t/c.jpg".into(), dst: Some("/t/Images/c.jpg".into()), op: Op::Move, reason: None, undoable: true },
    ];
    let hist = HistoryItem {
        id: "h".into(),
        actions: actions.clone(),
        timestamp: 0,
        outcomes: Vec::<ActionResult>::new(),
        kind: "organize".into(),
        origin: "manual".into(),
        watch_root: None,
        execution_state: ExecutionState::Interrupted,
        action_states: vec![ActionState::Succeeded, ActionState::Succeeded, ActionState::Prepared, ActionState::Failed],
        prepared_probe: None,
        journal_version: 2,
    };
    let sel = undo_selection(&hist);
    assert_eq!(sel.reverse, vec![0]);
    assert_eq!(sel.trash_skipped, 1);
    assert_eq!(sel.unproven, 2);
    let r = undo_outcome(&actions[0], None, Ok(()));
    assert_eq!(r.src, "/t/Docs/a.pdf");
    assert_eq!(r.dst.as_deref(), Some("/t/a.pdf"));
    assert!(r.result.is_ok());
    assert!(!r.undoable);
}

#[test]
fn evidence_is_needed_only_for_the_prepared_probed_move() {
    let actions = vec![
        Action { src: "/t/a.pdf".into(), dst: Some("/t/Docs/a.pdf".into()), op: Op::Move, reason: None, undoable: true },
        Action { src: "/t/b.jpg".into(), dst: Some("/t/Images/b.jpg".into()), op: Op::Move, reason: None, undoable: true },
    ];
    let mut hist = HistoryItem {
        id: "h".into(),
        actions,
        timestamp: 0,
        outcomes: Vec::<ActionResult>::new(),
        kind: "organize".into(),
        origin: "manual".into(),
        watch_root: None,
        execution_state: ExecutionState::Running,
        action_states: vec![ActionState::Succeeded, ActionState::Prepared],
        prepared_probe: Some(PreparedProbe { action_index: 1, probe: probe() }),
        journal_version: 2,
    };
    assert_eq!(evidence_needed(&hist), vec![1]);
    hist.prepared_probe = Some(PreparedProbe { action_index: 0, probe: probe() });
    assert_eq!(evidence_needed(&hist), Vec::<usize>::new());
    hist.prepared_probe = None;
    assert_eq!(evidence_needed(&hist), Vec::<usize>::new());
}

#[test]
fn outcomes_are_undoable_only_for_successful_moves() {
    let (mut exec, mut cmd) = execute_plan(plan(), "h3".into(), "organize", None, 7);
    let report = loop {
        let ev = match cmd {
            Command::WriteJournal(_) => Event::Journal(Ok(())),
            Command::Probe(_) => Event::Probed(Some(probe())),
            Command::Run(i) => Event::Ran(if i == 1 { Err("busy".into()) } else { Ok(()) }),
            Command::Finished(r) => break r,
        };
        cmd = exec.advance(ev);
    };
    let report = report.unwrap();
    assert_eq!(report.execution_state, ExecutionState::Completed);
    assert_eq!(report.outcomes.len(), 3);
    assert!(report.outcomes[1].result.is_err());
    assert!(!report.outcomes[1].undoable);
    assert!(!report.outcomes[0].undoable && !report.outcomes[2].undoable);
}
