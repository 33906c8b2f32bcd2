use tidydog::testing::{FakeFileOps, FakeStore};
use tidydog::{Action, Engine, FileOps, GateError, JournalEntry, PlanOp, PlanStatus, ScopeGuard, Store};

fn guard() -> ScopeGuard {
    ScopeGuard::new(vec!["/scope".to_string()], vec![])
}

fn files_of(files: &[&str]) -> Vec<String> {
    files.iter().map(|s| s.to_string()).collect()
}

fn engine_with_fail(files: &[&str], fail_at: usize) -> Engine<ScopeGuard, FakeStore, FakeFileOps> {
    let fileops = FakeFileOps::with_files(files_of(files)).with_fail_at(fail_at);
    Engine::new(guard(), FakeStore::default(), fileops)
}

fn engine(files: &[&str]) -> Engine<ScopeGuard, FakeStore, FakeFileOps> {
    let fileops = FakeFileOps::with_files(files_of(files));
    Engine::new(guard(), FakeStore::default(), fileops)
}

fn mv(from: &str, to: &str) -> PlanOp {
    PlanOp::new(Action::Move, "h".to_string(), from.to_string(), to.to_string())
}

#[test]
fn propose_changes_nothing() {
    let mut e = engine(&["/scope/a.txt"]);
    let plan = e.propose(vec![mv("/scope/a.txt", "/scope/docs/a.txt")], None, None);
    assert_eq!(plan.status, PlanStatus::Proposed);
    assert!(e.fileops.path_exists("/scope/a.txt"));
    assert!(!e.fileops.path_exists("/scope/docs/a.txt"));
}

#[test]
fn execute_requires_confirm() {
    let mut e = engine(&["/scope/a.txt"]);
    let plan = e.propose(vec![mv("/scope/a.txt", "/scope/docs/a.txt")], None, None);
    assert_eq!(e.execute(&plan.plan_id, true), Err(GateError::NotConfirmed));
    assert!(e.fileops.path_exists("/scope/a.txt"));
}

#[test]
fn execute_requires_user_flag() {
    let mut e = engine(&["/scope/a.txt"]);
    let plan = e.propose(vec![mv("/scope/a.txt", "/scope/docs/a.txt")], None, None);
    e.confirm(&plan.plan_id).unwrap();
    assert_eq!(e.execute(&plan.plan_id, false), Err(GateError::NotUserConfirmed));
    assert!(e.fileops.path_exists("/scope/a.txt"));
}

#[test]
fn happy_move() {
    let mut e = engine(&["/scope/a.txt"]);
    let plan = e.propose(vec![mv("/scope/a.txt", "/scope/docs/a.txt")], None, None);
    e.confirm(&plan.plan_id).unwrap();
    let out = e.execute(&plan.plan_id, true).unwrap();
    assert_eq!(out.moved, 1);
    assert!(!e.fileops.path_exists("/scope/a.txt"));
    assert!(e.fileops.path_exists("/scope/docs/a.txt"));
    assert_eq!(e.store.get_plan(&plan.plan_id).unwrap().status, PlanStatus::Executed);
}

#[test]
fn scope_denied_no_change() {
    let mut e = engine(&["/outside/x.txt"]);
    let plan = e.propose(vec![mv("/outside/x.txt", "/scope/x.txt")], None, None);
    e.confirm(&plan.plan_id).unwrap();
    let res = e.execute(&plan.plan_id, true);
    assert!(matches!(res, Err(GateError::ScopeDenied { .. })));
    assert!(e.fileops.path_exists("/outside/x.txt"));
    assert!(!e.fileops.path_exists("/scope/x.txt"));
}

#[test]
fn conflict_renamed_not_overwritten() {
    let mut e = engine(&["/scope/a.txt", "/scope/docs/a.txt"]);
    let plan = e.propose(vec![mv("/scope/a.txt", "/scope/docs/a.txt")], None, None);
    e.confirm(&plan.plan_id).unwrap();
    let out = e.execute(&plan.plan_id, true).unwrap();
    assert_eq!(out.renamed, 1);
    assert!(e.fileops.path_exists("/scope/docs/a.txt"));
    assert!(e.fileops.path_exists("/scope/docs/a (1).txt"));
    assert!(!e.fileops.path_exists("/scope/a.txt"));
}

#[test]
fn stage_is_soft_delete_and_restorable() {
    let mut e = engine(&["/scope/old.dmg"]);
    let op = PlanOp::new(
        Action::Stage,
        "hash-dmg".to_string(),
        "/scope/old.dmg".to_string(),
        "/scope/old.dmg".to_string(),
    );
    let plan = e.propose(vec![op], None, None);
    e.confirm(&plan.plan_id).unwrap();
    let out = e.execute(&plan.plan_id, true).unwrap();
    assert_eq!(out.staged, 1);
    assert!(!e.fileops.path_exists("/scope/old.dmg"));
    assert!(e.fileops.is_staged("hash-dmg"));
    e.undo(&plan.plan_id).unwrap();
    assert!(e.fileops.path_exists("/scope/old.dmg"));
}

#[test]
fn undo_reverses_move() {
    let mut e = engine(&["/scope/a.txt"]);
    let plan = e.propose(vec![mv("/scope/a.txt", "/scope/docs/a.txt")], None, None);
    e.confirm(&plan.plan_id).unwrap();
    e.execute(&plan.plan_id, true).unwrap();
    e.undo(&plan.plan_id).unwrap();
    assert!(e.fileops.path_exists("/scope/a.txt"));
    assert!(!e.fileops.path_exists("/scope/docs/a.txt"));
    assert_eq!(e.store.get_plan(&plan.plan_id).unwrap().status, PlanStatus::Undone);
}

#[test]
fn journal_first_completed_at_set_after_execute() {
    let mut e = engine(&["/scope/a.txt"]);
    let plan = e.propose(vec![mv("/scope/a.txt", "/scope/docs/a.txt")], None, None);
    e.confirm(&plan.plan_id).unwrap();
    e.execute(&plan.plan_id, true).unwrap();
    assert!(e.store.inflight_entries().is_empty());
}

#[test]
fn no_inflight_before_execute() {
    let mut e = engine(&["/scope/a.txt"]);
    let _plan = e.propose(vec![mv("/scope/a.txt", "/scope/docs/a.txt")], None, None);
    assert!(e.store.inflight_entries().is_empty());
}

#[test]
fn partial_execute_prior_ops_remain_in_journal() {
    let files = ["/scope/f0.txt", "/scope/f1.txt", "/scope/f2.txt", "/scope/f3.txt", "/scope/f4.txt"];
    let mut e = engine_with_fail(&files, 2);
    let ops = vec![
        mv("/scope/f0.txt", "/scope/d/f0.txt"),
        mv("/scope/f1.txt", "/scope/d/f1.txt"),
        mv("/scope/f2.txt", "/scope/d/f2.txt"),
        mv("/scope/f3.txt", "/scope/d/f3.txt"),
        mv("/scope/f4.txt", "/scope/d/f4.txt"),
    ];
    let plan = e.propose(ops, None, None);
    e.confirm(&plan.plan_id).unwrap();

    let result = e.execute(&plan.plan_id, true);
    assert!(matches!(result, Err(GateError::PartialExecute { completed: 2, .. })));

    assert!(!e.fileops.path_exists("/scope/f0.txt"));
    assert!(e.fileops.path_exists("/scope/d/f0.txt"));
    assert!(!e.fileops.path_exists("/scope/f1.txt"));
    assert!(e.fileops.path_exists("/scope/d/f1.txt"));
    assert!(e.fileops.path_exists("/scope/f2.txt"));

    let journal = e.store.journal_for_plan(&plan.plan_id);
    assert_eq!(journal.len(), 3);
    let completed: Vec<_> = journal.iter().filter(|e| e.completed_at.is_some()).collect();
    let inflight: Vec<_> = journal.iter().filter(|e| e.completed_at.is_none()).collect();
    assert_eq!(completed.len(), 2);
    assert_eq!(inflight.len(), 1);
    assert_eq!(e.store.get_plan(&plan.plan_id).unwrap().status, PlanStatus::Executed);
}

#[test]
fn partial_execute_then_undo_reverts_completed_ops() {
    let files = ["/scope/f0.txt", "/scope/f1.txt", "/scope/f2.txt"];
    let mut e = engine_with_fail(&files, 2);
    let ops = vec![
        mv("/scope/f0.txt", "/scope/d/f0.txt"),
        mv("/scope/f1.txt", "/scope/d/f1.txt"),
        mv("/scope/f2.txt", "/scope/d/f2.txt"),
    ];
    let plan = e.propose(ops, None, None);
    e.confirm(&plan.plan_id).unwrap();
    e.execute(&plan.plan_id, true).unwrap_err();

    e.undo(&plan.plan_id).unwrap();
    assert!(e.fileops.path_exists("/scope/f0.txt"));
    assert!(e.fileops.path_exists("/scope/f1.txt"));
    assert!(!e.fileops.path_exists("/scope/d/f0.txt"));
    assert!(!e.fileops.path_exists("/scope/d/f1.txt"));
}

fn inflight_entry(plan_id: &str, from: &str, to: &str, executed_at: u64) -> JournalEntry {
    JournalEntry {
        entry_id: 0,
        plan_id: plan_id.to_string(),
        op_id: "op-1".to_string(),
        action: Action::Move,
        content_hash: "h".to_string(),
        from: from.to_string(),
        to: to.to_string(),
        executed_at,
        completed_at: None,
        undoable: true,
        undone_at: None,
        created_dirs: vec![],
    }
}

#[test]
fn recover_inflight_to_exists_marks_completed() {
    let mut store = FakeStore::default();
    let entry_id = store.append_journal(inflight_entry("plan-1", "/scope/a.txt", "/scope/docs/a.txt", 1000));
    assert_eq!(store.inflight_entries().len(), 1);

    store.complete_journal(entry_id, 1001);

    assert_eq!(store.inflight_entries().len(), 0);
    let entries = store.journal_for_plan("plan-1");
    assert!(entries[0].completed_at.is_some());
}

#[test]
fn recover_inflight_from_exists_means_op_not_started() {
    let mut store = FakeStore::default();
    store.append_journal(inflight_entry("plan-2", "/scope/still-here.txt", "/scope/docs/still-here.txt", 2000));

    let inflight = store.inflight_entries();
    assert_eq!(inflight.len(), 1);
    assert_eq!(inflight[0].from, "/scope/still-here.txt");
    assert!(!std::path::Path::new(&inflight[0].from).exists());
}

#[test]
fn undo_out_of_window_denied() {
    let files: Vec<String> = (0..6).map(|i| format!("/scope/f{i}.txt")).collect();
    let refs: Vec<&str> = files.iter().map(|s| s.as_str()).collect();
    let mut e = engine(&refs);

    let mut first_id = String::new();
    for i in 0..6 {
        let from = format!("/scope/f{i}.txt");
        let to = format!("/scope/d/f{i}.txt");
        let plan = e.propose(vec![mv(&from, &to)], None, None);
        if i == 0 {
            first_id = plan.plan_id.clone();
        }
        e.confirm(&plan.plan_id).unwrap();
        e.execute(&plan.plan_id, true).unwrap();
    }
    assert_eq!(e.undo(&first_id), Err(GateError::OutOfUndoWindow));
}
