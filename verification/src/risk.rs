//! Preview level and risk counts of a set of operations: the riskier a plan,
//! the stronger the review it asks of the user.

use vstd::prelude::*;
use crate::model::{Action, Conflict, PlanOp, PreviewLevel, RiskTally, OpV, op_views};

verus! {

/// Operation count from which a plan always needs a full review.
pub const FULL_REVIEW_COUNT: usize = 10;

/// Some operation quarantines a file.
pub open spec fn has_stage(ops: Seq<OpV>) -> bool {
    exists|i: int| 0 <= i < ops.len() && ops[i].action == Action::Stage
}

/// Some operation resolves a clash by renaming.
pub open spec fn has_conflict(ops: Seq<OpV>) -> bool {
    exists|i: int| 0 <= i < ops.len() && ops[i].conflict == Conflict::Rename
}

/// The preview level of a set of operations:
/// empty → auto; any quarantine, any clash, or ten or more operations → full
/// review; otherwise standard.
pub open spec fn preview_of(ops: Seq<OpV>) -> PreviewLevel {
    if ops.len() == 0 {
        PreviewLevel::Auto
    } else if has_stage(ops) || has_conflict(ops) || ops.len() >= FULL_REVIEW_COUNT {
        PreviewLevel::FullReview
    } else {
        PreviewLevel::Standard
    }
}

/// Number of quarantining operations.
pub open spec fn stage_count(ops: Seq<OpV>) -> nat
    decreases ops.len(),
{
    if ops.len() == 0 {
        0
    } else {
        stage_count(ops.drop_last()) + (if ops.last().action == Action::Stage {
            1nat
        } else {
            0nat
        })
    }
}

/// Number of clash-renaming operations.
pub open spec fn conflict_count(ops: Seq<OpV>) -> nat
    decreases ops.len(),
{
    if ops.len() == 0 {
        0
    } else {
        conflict_count(ops.drop_last()) + (if ops.last().conflict == Conflict::Rename {
            1nat
        } else {
            0nat
        })
    }
}

/// Number of operations with the given action.
pub open spec fn action_count(ops: Seq<OpV>, a: Action) -> nat
    decreases ops.len(),
{
    if ops.len() == 0 {
        0
    } else {
        action_count(ops.drop_last(), a) + (if ops.last().action == a {
            1nat
        } else {
            0nat
        })
    }
}

pub proof fn lemma_counts_bounded(ops: Seq<OpV>)
    ensures
        stage_count(ops) <= ops.len(),
        conflict_count(ops) <= ops.len(),
        stage_count(ops) == action_count(ops, Action::Stage),
    decreases ops.len(),
{
    if ops.len() > 0 {
        lemma_counts_bounded(ops.drop_last());
    }
}

pub proof fn lemma_action_count_bounded(ops: Seq<OpV>, a: Action)
    ensures
        action_count(ops, a) <= ops.len(),
    decreases ops.len(),
{
    if ops.len() > 0 {
        lemma_action_count_bounded(ops.drop_last(), a);
    }
}

/// The operations that quarantine a file.
pub open spec fn staged_ops(ops: Seq<OpV>) -> Seq<OpV> {
    ops.filter(|o: OpV| o.action == Action::Stage)
}

/// The operations whose clash with an existing file was resolved by
/// renaming, whatever their action.
pub open spec fn renamed_on_clash(ops: Seq<OpV>) -> Seq<OpV> {
    ops.filter(|o: OpV| o.conflict == Conflict::Rename)
}

/// The risk counts count operations by their own marks: the quarantine count
/// is the number of operations whose action is a quarantine, the clash count
/// the number whose clash was resolved by renaming (an operation's action
/// plays no part in it). Each is positive exactly when such an operation is
/// in the plan, the condition that forces a full review.
pub proof fn lemma_counts_are_filters(ops: Seq<OpV>)
    ensures
        stage_count(ops) == staged_ops(ops).len(),
        conflict_count(ops) == renamed_on_clash(ops).len(),
        (stage_count(ops) > 0) == has_stage(ops),
        (conflict_count(ops) > 0) == has_conflict(ops),
    decreases ops.len(),
{
    reveal(Seq::filter);
    if ops.len() > 0 {
        let rest = ops.drop_last();
        lemma_counts_are_filters(rest);
        assert(has_stage(ops) == (has_stage(rest) || ops.last().action == Action::Stage)) by {
            if has_stage(ops) {
                let i = choose|i: int| 0 <= i < ops.len() && ops[i].action == Action::Stage;
                if i < ops.len() - 1 {
                    assert(rest[i] == ops[i]);
                }
            }
            if has_stage(rest) {
                let i = choose|i: int| 0 <= i < rest.len() && rest[i].action == Action::Stage;
                assert(ops[i] == rest[i]);
            }
        }
        assert(has_conflict(ops) == (has_conflict(rest) || ops.last().conflict == Conflict::Rename))
            by {
            if has_conflict(ops) {
                let i = choose|i: int| 0 <= i < ops.len() && ops[i].conflict == Conflict::Rename;
                if i < ops.len() - 1 {
                    assert(rest[i] == ops[i]);
                }
            }
            if has_conflict(rest) {
                let i = choose|i: int|
                    0 <= i < rest.len() && rest[i].conflict == Conflict::Rename;
                assert(ops[i] == rest[i]);
            }
        }
    } else {
        assert(!has_stage(ops));
        assert(!has_conflict(ops));
    }
}

/// The preview level of a set of operations.
pub fn preview_level(ops: &[PlanOp]) -> (p: PreviewLevel)
    ensures
        p == preview_of(op_views(ops@)),
{
    let ghost v = op_views(ops@);
    if ops.len() == 0 {
        return PreviewLevel::Auto;
    }
    let mut has_st = false;
    let mut has_cf = false;
    let mut i: usize = 0;
    while i < ops.len()
        invariant
            v == op_views(ops@),
            0 <= i <= ops.len(),
            has_st == exists|j: int| 0 <= j < i && v[j].action == Action::Stage,
            has_cf == exists|j: int| 0 <= j < i && v[j].conflict == Conflict::Rename,
        decreases ops.len() - i,
    {
        if ops[i].action == Action::Stage {
            has_st = true;
        }
        if ops[i].conflict == Conflict::Rename {
            has_cf = true;
        }
        assert(v[i as int] == ops@[i as int]@);
        i += 1;
    }
    if has_st || has_cf || ops.len() >= FULL_REVIEW_COUNT {
        PreviewLevel::FullReview
    } else {
        PreviewLevel::Standard
    }
}

/// The counts a set of operations' risk score is computed from.
pub fn risk_tally(ops: &[PlanOp]) -> (r: RiskTally)
    requires
        ops.len() <= u64::MAX,
    ensures
        r.stages == stage_count(op_views(ops@)),
        r.conflicts == conflict_count(op_views(ops@)),
        r.stages == staged_ops(op_views(ops@)).len(),
        r.conflicts == renamed_on_clash(op_views(ops@)).len(),
        (r.conflicts > 0) == has_conflict(op_views(ops@)),
        (r.stages > 0) == has_stage(op_views(ops@)),
        r.total == ops.len(),
{
    let ghost v = op_views(ops@);
    let mut stages: u64 = 0;
    let mut conflicts: u64 = 0;
    let mut i: usize = 0;
    while i < ops.len()
        invariant
            v == op_views(ops@),
            ops.len() <= u64::MAX,
            0 <= i <= ops.len(),
            stages == stage_count(v.subrange(0, i as int)),
            conflicts == conflict_count(v.subrange(0, i as int)),
        decreases ops.len() - i,
    {
        proof {
            lemma_counts_bounded(v.subrange(0, i as int));
            assert(v.subrange(0, i + 1).drop_last() =~= v.subrange(0, i as int));
        }
        if ops[i].action == Action::Stage {
            stages += 1;
        }
        if ops[i].conflict == Conflict::Rename {
            conflicts += 1;
        }
        i += 1;
    }
    assert(v.subrange(0, ops.len() as int) =~= v);
    proof {
        lemma_counts_are_filters(v);
    }
    RiskTally { stages, conflicts, total: ops.len() as u64 }
}

/// The number of operations with action `a` (the plan summary's move and
/// quarantine counts).
pub fn count_action(ops: &[PlanOp], a: Action) -> (n: usize)
    ensures
        n == action_count(op_views(ops@), a),
{
    let ghost v = op_views(ops@);
    let mut n: usize = 0;
    let mut i: usize = 0;
    while i < ops.len()
        invariant
            v == op_views(ops@),
            0 <= i <= ops.len(),
            n == action_count(v.subrange(0, i as int), a),
        decreases ops.len() - i,
    {
        proof {
            lemma_action_count_bounded(v.subrange(0, i as int), a);
            assert(v.subrange(0, i + 1).drop_last() =~= v.subrange(0, i as int));
            assert(v[i as int] == ops@[i as int]@);
        }
        if ops[i].action == a {
            n += 1;
        }
        i += 1;
    }
    assert(v.subrange(0, ops.len() as int) =~= v);
    n
}

} // verus!
