//! What the application's commands compute around the engine: plan
//! operations from the user interface's input, the messages for gate
//! errors, and crash recovery of operations left in flight.

use vstd::prelude::*;
use crate::gate::GateError;
use crate::model::{
    action_from_str, action_named, denial_name, entry_views, opt_text, Conflict, EntryV,
    JournalEntry, OpV, PlanOp,
};
use crate::ops::{completed_in, inflight, FileOps, Store};
use crate::path::{join_of, join_path};
use crate::text::{decimal, push_decimal, push_str};

verus! {

// ───────────────────────────── plan input ─────────────────────────────

/// One operation as the user interface sends it.
pub struct OpInput {
    pub action: String,
    pub content_hash: String,
    pub from: String,
    pub to: String,
    pub reason: Option<String>,
}

/// The plan operation an input describes (unknown actions read as a move).
pub open spec fn op_of_input(o: OpInput) -> OpV {
    OpV {
        op_id: Seq::empty(),
        seq: 0,
        action: action_named(o.action@),
        content_hash: o.content_hash@,
        from: o.from@,
        to: o.to@,
        conflict: Conflict::NoConflict,
        reason: opt_text(o.reason),
    }
}

/// The plan operation for one input.
pub fn op_from_input(o: OpInput) -> (op: PlanOp)
    ensures
        op@ == op_of_input(o),
{
    let action = action_from_str(o.action.as_str());
    let op = PlanOp::new(action, o.content_hash, o.from, o.to);
    match o.reason {
        Some(r) => op.with_reason(r),
        None => op,
    }
}

/// The plan operations for a list of inputs, in order.
pub fn ops_from_inputs(inputs: Vec<OpInput>) -> (ops: Vec<PlanOp>)
    ensures
        ops@.len() == inputs@.len(),
        forall|i: int| 0 <= i < inputs@.len() ==> #[trigger] ops@[i]@ == op_of_input(inputs@[i]),
{
    let ghost ins = inputs@;
    let mut ops: Vec<PlanOp> = Vec::new();
    let mut rest = inputs;
    while rest.len() > 0
        invariant
            ops@.len() + rest@.len() == ins.len(),
            rest@ == ins.subrange(ops@.len() as int, ins.len() as int),
            forall|i: int| 0 <= i < ops@.len() ==> #[trigger] ops@[i]@ == op_of_input(ins[i]),
        decreases rest.len(),
    {
        let ghost k = ops@.len();
        let o = rest.remove(0);
        assert(o == ins[k as int]);
        let op = op_from_input(o);
        ops.push(op);
        assert(rest@ =~= ins.subrange(ops@.len() as int, ins.len() as int));
    }
    ops
}

// ───────────────────────────── gate errors ─────────────────────────────

/// The message the user sees for a gate error.
pub open spec fn gate_error_text(e: GateError) -> Seq<char> {
    match e {
        GateError::NoSuchPlan => "plan not found"@,
        GateError::NotProposed => "plan is not in proposed state"@,
        GateError::NotConfirmed => "plan must be confirmed before execute"@,
        GateError::NotUserConfirmed => "user confirmation flag required"@,
        GateError::NotExecuted => "plan is not in executed state"@,
        GateError::OutOfUndoWindow => "plan is outside the undo window (last 5)"@,
        GateError::ScopeDenied { op_id, denial } => "scope denied op "@ + op_id@ + ": "@
            + denial_name(denial),
        GateError::FileOp { op_id, message } => "file op failed for "@ + op_id@ + ": "@
            + message@,
        GateError::PartialExecute { failed_op_id, message, completed } => "partial execute: "@
            + decimal(completed as nat) + " ops done, failed at "@ + failed_op_id@ + ": "@
            + message@,
    }
}

/// The message for a gate error.
pub fn gate_err_to_str(e: GateError) -> (r: String)
    ensures
        r@ == gate_error_text(e),
{
    match e {
        GateError::NoSuchPlan => "plan not found".to_string(),
        GateError::NotProposed => "plan is not in proposed state".to_string(),
        GateError::NotConfirmed => "plan must be confirmed before execute".to_string(),
        GateError::NotUserConfirmed => "user confirmation flag required".to_string(),
        GateError::NotExecuted => "plan is not in executed state".to_string(),
        GateError::OutOfUndoWindow => "plan is outside the undo window (last 5)".to_string(),
        GateError::ScopeDenied { op_id, denial } => {
            let mut m = String::new();
            push_str(&mut m, "scope denied op ");
            push_str(&mut m, op_id.as_str());
            push_str(&mut m, ": ");
            push_str(&mut m, denial.name());
            m
        },
        GateError::FileOp { op_id, message } => {
            let mut m = String::new();
            push_str(&mut m, "file op failed for ");
            push_str(&mut m, op_id.as_str());
            push_str(&mut m, ": ");
            push_str(&mut m, message.as_str());
            m
        },
        GateError::PartialExecute { failed_op_id, message, completed } => {
            let mut m = String::new();
            push_str(&mut m, "partial execute: ");
            push_decimal(&mut m, completed as u128);
            push_str(&mut m, " ops done, failed at ");
            push_str(&mut m, failed_op_id.as_str());
            push_str(&mut m, ": ");
            push_str(&mut m, message.as_str());
            m
        },
    }
}

// ───────────────────────────── crash recovery ─────────────────────────────

/// What recovery does with an operation whose completion was never recorded.
#[derive(Debug, Clone, Copy, PartialEq, Eq, Structural)]
pub enum Recovery {
    /// The destination exists: the operation happened; record it complete.
    Complete,
    /// Only the source exists: the operation never started; drop the entry.
    Discard,
    /// Neither exists: nothing can be done but record it complete.
    CompleteUnknown,
}

pub open spec fn recovery_of(to_present: bool, from_present: bool) -> Recovery {
    if to_present {
        Recovery::Complete
    } else if from_present {
        Recovery::Discard
    } else {
        Recovery::CompleteUnknown
    }
}

/// Decides what to do with one in-flight operation.
pub fn recovery_for(to_present: bool, from_present: bool) -> (r: Recovery)
    ensures
        r == recovery_of(to_present, from_present),
{
    if to_present {
        Recovery::Complete
    } else if from_present {
        Recovery::Discard
    } else {
        Recovery::CompleteUnknown
    }
}

/// The recovery an in-flight entry gets, given the present paths: its
/// destination counts as present when it or its quarantined copy exists.
pub open spec fn entry_recovery(e: EntryV, present: Set<Seq<char>>, staging: Seq<char>) -> Recovery {
    recovery_of(
        present.contains(e.to) || present.contains(join_of(staging, e.content_hash)),
        present.contains(e.from),
    )
}

/// The ids of the entries recovery records complete, in order.
pub open spec fn completed_ids(es: Seq<EntryV>, present: Set<Seq<char>>, staging: Seq<char>) -> Seq<u64>
    decreases es.len(),
{
    if es.len() == 0 {
        Seq::empty()
    } else {
        let p = completed_ids(es.drop_last(), present, staging);
        if entry_recovery(es.last(), present, staging) == Recovery::Discard {
            p
        } else {
            p.push(es.last().entry_id)
        }
    }
}

/// The ids of the entries recovery drops, in order.
pub open spec fn discarded_ids(es: Seq<EntryV>, present: Set<Seq<char>>, staging: Seq<char>) -> Seq<u64>
    decreases es.len(),
{
    if es.len() == 0 {
        Seq::empty()
    } else {
        let p = discarded_ids(es.drop_last(), present, staging);
        if entry_recovery(es.last(), present, staging) == Recovery::Discard {
            p.push(es.last().entry_id)
        } else {
            p
        }
    }
}

/// The journal after recording each of `ids` complete at `ts`, in order.
pub open spec fn complete_each(j: Seq<EntryV>, ids: Seq<u64>, ts: u64) -> Seq<EntryV>
    decreases ids.len(),
{
    if ids.len() == 0 {
        j
    } else {
        completed_in(complete_each(j, ids.drop_last(), ts), ids.last(), ts)
    }
}

/// Reconciles the operations left in flight by a crash with the files: an
/// operation whose destination (or quarantined copy) exists, or whose source
/// is gone too, is recorded complete; one whose source alone exists never
/// started, and its entry id is returned for the caller to drop.
pub fn recover_inflight<S: Store, F: FileOps>(
    store: &mut S,
    fileops: &F,
    staging_dir: &str,
    ts: u64,
) -> (discard: Vec<u64>)
    requires
        old(store).well_formed(),
    ensures
        final(store).well_formed(),
        final(store).plans() == old(store).plans(),
        final(store).journal() == complete_each(
            old(store).journal(),
            completed_ids(inflight(old(store).journal()), fileops.present(), staging_dir@),
            ts,
        ),
        discard@ == discarded_ids(inflight(old(store).journal()), fileops.present(), staging_dir@),
{
    let entries = store.inflight_entries();
    let ghost es = entry_views(entries@);
    let ghost j0 = store.journal();
    let ghost pr = fileops.present();
    let mut discard: Vec<u64> = Vec::new();
    let mut i: usize = 0;
    assert(es.subrange(0, 0) =~= Seq::<EntryV>::empty());
    while i < entries.len()
        invariant
            0 <= i <= entries.len(),
            es == entry_views(entries@),
            es == inflight(j0),
            pr == fileops.present(),
            store.well_formed(),
            store.plans() == old(store).plans(),
            j0 == old(store).journal(),
            store.journal() == complete_each(j0, completed_ids(es.subrange(0, i as int), pr, staging_dir@), ts),
            discard@ == discarded_ids(es.subrange(0, i as int), pr, staging_dir@),
        decreases entries.len() - i,
    {
        let e = &entries[i];
        let ghost pre = es.subrange(0, i as int);
        let ghost next = es.subrange(0, i + 1);
        proof {
            assert(next.drop_last() =~= pre);
            assert(next.last() == e@);
        }
        let staged = join_path(staging_dir, e.content_hash.as_str());
        let to_present = fileops.path_exists(e.to.as_str()) || fileops.path_exists(staged.as_str());
        let from_present = fileops.path_exists(e.from.as_str());
        match recovery_for(to_present, from_present) {
            Recovery::Discard => {
                discard.push(e.entry_id);
            },
            _ => {
                let ghost ids = completed_ids(pre, pr, staging_dir@);
                store.complete_journal(e.entry_id, ts);
                proof {
                    assert(completed_ids(next, pr, staging_dir@) == ids.push(e.entry_id));
                    assert(ids.push(e.entry_id).drop_last() =~= ids);
                }
            },
        }
        i += 1;
    }
    assert(es.subrange(0, entries.len() as int) =~= es);
    discard
}

} // verus!
