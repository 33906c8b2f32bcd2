use tidydog::{preview_level, Action, Conflict, PlanOp, PreviewLevel};

fn mv(i: usize) -> PlanOp {
    PlanOp::new(
        Action::Move,
        "h".to_string(),
        format!("/scope/a{i}.txt"),
        format!("/scope/docs/a{i}.txt"),
    )
}

#[test]
fn empty_is_auto() {
    assert_eq!(preview_level(&[]), PreviewLevel::Auto);
}

#[test]
fn few_moves_standard() {
    let ops: Vec<PlanOp> = (0..3).map(mv).collect();
    assert_eq!(preview_level(&ops), PreviewLevel::Standard);
}

#[test]
fn stage_forces_full_review() {
    let ops = vec![
        mv(0),
        PlanOp::new(
            Action::Stage,
            "h".to_string(),
            "/scope/old.dmg".to_string(),
            "/scope/old.dmg".to_string(),
        ),
    ];
    assert_eq!(preview_level(&ops), PreviewLevel::FullReview);
}

#[test]
fn many_ops_full_review() {
    let ops: Vec<PlanOp> = (0..10).map(mv).collect();
    assert_eq!(preview_level(&ops), PreviewLevel::FullReview);
}

#[test]
fn conflict_forces_full_review() {
    let mut op = mv(0);
    op.conflict = Conflict::Rename;
    assert_eq!(preview_level(&[op]), PreviewLevel::FullReview);
}
