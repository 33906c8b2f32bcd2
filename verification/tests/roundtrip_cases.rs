use tidydog::testing::{FakeFileOps, FakeStore};
use tidydog::{Action, Engine, FileOps, PlanOp, PlanStatus, ScopeGuard, Store};

fn engine(files: &[&str]) -> Engine<ScopeGuard, FakeStore, FakeFileOps> {
    let files: Vec<String> = files.iter().map(|s| s.to_string()).collect();
    Engine::new(
        ScopeGuard::new(vec!["/scope".to_string()], vec![]),
        FakeStore::default(),
        FakeFileOps::with_files(files),
    )
}

fn op(action: Action, from: &str, to: &str) -> PlanOp {
    PlanOp::new(action, "h".to_string(), from.to_string(), to.to_string())
}

#[test]
fn undo_restores_chained_moves() {
    let mut e = engine(&["/scope/x.txt", "/scope/keep.txt"]);
    let plan = e.propose(
        vec![op(Action::Move, "/scope/x.txt", "/scope/y.txt"), op(Action::Move, "/scope/y.txt", "/scope/z/z.txt")],
        None,
        None,
    );
    e.confirm(&plan.plan_id).unwrap();
    let out = e.execute(&plan.plan_id, true).unwrap();
    assert_eq!(out.moved, 2);
    assert!(e.fileops.path_exists("/scope/z/z.txt"));
    assert!(!e.fileops.path_exists("/scope/x.txt"));

    e.undo(&plan.plan_id).unwrap();
    assert!(e.fileops.path_exists("/scope/x.txt"));
    assert!(e.fileops.path_exists("/scope/keep.txt"));
    assert!(!e.fileops.path_exists("/scope/y.txt"));
    assert!(!e.fileops.path_exists("/scope/z/z.txt"));
    assert_eq!(e.store.get_plan(&plan.plan_id).unwrap().status, PlanStatus::Undone);
}

#[test]
fn undo_restores_rename_and_move() {
    let mut e = engine(&["/scope/a.txt", "/scope/b.txt"]);
    let plan = e.propose(
        vec![op(Action::Rename, "/scope/a.txt", "/scope/a2.txt"), op(Action::Move, "/scope/b.txt", "/scope/docs/b.txt")],
        None,
        None,
    );
    e.confirm(&plan.plan_id).unwrap();
    let out = e.execute(&plan.plan_id, true).unwrap();
    assert_eq!(out.renamed, 1);
    assert_eq!(out.moved, 1);

    e.undo(&plan.plan_id).unwrap();
    assert!(e.fileops.path_exists("/scope/a.txt"));
    assert!(e.fileops.path_exists("/scope/b.txt"));
    assert!(!e.fileops.path_exists("/scope/a2.txt"));
    assert!(!e.fileops.path_exists("/scope/docs/b.txt"));
}

#[test]
fn undo_restores_quarantine_and_move() {
    let mut e = engine(&["/scope/dup.txt", "/scope/b.txt"]);
    let plan = e.propose(
        vec![
            PlanOp::new(Action::Stage, "hdup".to_string(), "/scope/dup.txt".to_string(), String::new()),
            op(Action::Move, "/scope/b.txt", "/scope/docs/b.txt"),
        ],
        None,
        None,
    );
    e.confirm(&plan.plan_id).unwrap();
    let out = e.execute(&plan.plan_id, true).unwrap();
    assert_eq!(out.staged, 1);
    assert!(!e.fileops.path_exists("/scope/dup.txt"));

    e.undo(&plan.plan_id).unwrap();
    assert!(e.fileops.path_exists("/scope/dup.txt"));
    assert!(e.fileops.path_exists("/scope/b.txt"));
    assert!(!e.fileops.path_exists("/scope/docs/b.txt"));
}
