//! Side-effect interfaces. The engine depends on these, not on a real file
//! system or database, so its logic can be checked against in-memory doubles.
//!
//! Each interface carries an abstract model (spec functions) and states what
//! every operation does to it. Implementations that touch the real world are
//! the application's adapters.

use vstd::prelude::*;
use crate::model::{EntryV, JournalEntry, Plan, PlanStatus, PlanV, texts};
use crate::path::ancestors;

verus! {

/// A plan with another status.
pub open spec fn with_status(p: PlanV, s: PlanStatus) -> PlanV {
    PlanV { status: s, ..p }
}

/// The plan map after setting the status of `id` (no change if absent).
pub open spec fn status_set(m: Map<Seq<char>, PlanV>, id: Seq<char>, s: PlanStatus) -> Map<
    Seq<char>,
    PlanV,
> {
    if m.contains_key(id) {
        m.insert(id, with_status(m[id], s))
    } else {
        m
    }
}

/// A journal entry with the given id.
pub open spec fn with_entry_id(e: EntryV, id: u64) -> EntryV {
    EntryV { entry_id: id, ..e }
}

/// The journal after marking entries with id `id` undone at `ts`.
pub open spec fn undone_in(j: Seq<EntryV>, id: u64, ts: u64) -> Seq<EntryV> {
    j.map_values(|e: EntryV| if e.entry_id == id { EntryV { undone_at: Some(ts), ..e } } else { e })
}

/// The journal after marking entries with id `id` complete at `ts`.
pub open spec fn completed_in(j: Seq<EntryV>, id: u64, ts: u64) -> Seq<EntryV> {
    j.map_values(
        |e: EntryV| if e.entry_id == id { EntryV { completed_at: Some(ts), ..e } } else { e },
    )
}

/// The journal after setting the destination of entries with id `id`.
pub open spec fn retargeted_in(j: Seq<EntryV>, id: u64, to: Seq<char>) -> Seq<EntryV> {
    j.map_values(|e: EntryV| if e.entry_id == id { EntryV { to: to, ..e } } else { e })
}

/// The entries of plan `pid`, in journal order.
pub open spec fn entries_of(j: Seq<EntryV>, pid: Seq<char>) -> Seq<EntryV>
    decreases j.len(),
{
    if j.len() == 0 {
        j
    } else if j.last().plan_id == pid {
        entries_of(j.drop_last(), pid).push(j.last())
    } else {
        entries_of(j.drop_last(), pid)
    }
}

/// The in-flight entries (file operation not confirmed), in journal order.
pub open spec fn inflight(j: Seq<EntryV>) -> Seq<EntryV>
    decreases j.len(),
{
    if j.len() == 0 {
        j
    } else if j.last().completed_at is None {
        inflight(j.drop_last()).push(j.last())
    } else {
        inflight(j.drop_last())
    }
}

/// The first `n` items of `s` (all of them if fewer).
pub open spec fn first_n(s: Seq<Seq<char>>, n: int) -> Seq<Seq<char>> {
    if n < s.len() {
        s.take(n)
    } else {
        s
    }
}

/// `s` without the occurrences of `x`.
pub open spec fn without(s: Seq<Seq<char>>, x: Seq<char>) -> Seq<Seq<char>>
    decreases s.len(),
{
    if s.len() == 0 {
        s
    } else if s.last() == x {
        without(s.drop_last(), x)
    } else {
        without(s.drop_last(), x).push(s.last())
    }
}

/// The executed plans, newest first, after plan `id` has been executed: `id`
/// first, then the others as before.
pub open spec fn after_execution(recent: Seq<Seq<char>>, id: Seq<char>) -> Seq<Seq<char>> {
    seq![id] + without(recent, id)
}

/// Persistence of plans and the journal.
///
/// The model functions default to an unspecified value, so that an
/// implementation outside this verified library, which carries no model, can
/// still be written; every implementation here defines its own.
pub trait Store {
    /// Stored plans by id.
    closed spec fn plans(&self) -> Map<Seq<char>, PlanV> {
        vstd::pervasive::arbitrary()
    }

    /// The journal, oldest entry first.
    closed spec fn journal(&self) -> Seq<EntryV> {
        vstd::pervasive::arbitrary()
    }

    /// Ids of executed plans, most recently executed first.
    closed spec fn recent(&self) -> Seq<Seq<char>> {
        vstd::pervasive::arbitrary()
    }

    /// The store's own consistency condition.
    closed spec fn well_formed(&self) -> bool {
        vstd::pervasive::arbitrary()
    }

    /// Saves (or replaces) a plan.
    fn save_plan(&mut self, plan: Plan)
        requires
            old(self).well_formed(),
        ensures
            final(self).well_formed(),
            final(self).plans() == old(self).plans().insert(plan@.plan_id, plan@),
            final(self).journal() == old(self).journal(),
            final(self).recent() == old(self).recent(),
    ;

    /// The stored plan with this id.
    fn get_plan(&self, plan_id: &str) -> (r: Option<Plan>)
        requires
            self.well_formed(),
        ensures
            match r {
                Some(p) => self.plans().contains_key(plan_id@) && p@ == self.plans()[plan_id@],
                None => !self.plans().contains_key(plan_id@),
            },
    ;

    /// Sets the status of a stored plan.
    fn set_plan_status(&mut self, plan_id: &str, status: PlanStatus)
        requires
            old(self).well_formed(),
        ensures
            final(self).well_formed(),
            final(self).plans() == status_set(old(self).plans(), plan_id@, status),
            final(self).journal() == old(self).journal(),
            status == PlanStatus::Executed ==> final(self).recent() == after_execution(old(self).recent(), plan_id@),
            status != PlanStatus::Executed ==> final(self).recent() == old(self).recent(),
    ;

    /// Appends an entry (append-only) and returns the id given to it, which is
    /// larger than that of every earlier entry.
    fn append_journal(&mut self, entry: JournalEntry) -> (id: u64)
        requires
            old(self).well_formed(),
            old(self).journal().len() < u64::MAX,
        ensures
            final(self).well_formed(),
            final(self).journal() == old(self).journal().push(with_entry_id(entry@, id)),
            forall|i: int|
                0 <= i < old(self).journal().len() ==> #[trigger] old(self).journal()[i].entry_id
                    < id,
            final(self).plans() == old(self).plans(),
            final(self).recent() == old(self).recent(),
    ;

    /// The entries of one plan, in journal order.
    fn journal_for_plan(&self, plan_id: &str) -> (r: Vec<JournalEntry>)
        requires
            self.well_formed(),
        ensures
            crate::model::entry_views(r@) == entries_of(self.journal(), plan_id@),
    ;

    /// Marks an entry undone.
    fn mark_undone(&mut self, entry_id: u64, ts: u64)
        requires
            old(self).well_formed(),
        ensures
            final(self).well_formed(),
            final(self).journal() == undone_in(old(self).journal(), entry_id, ts),
            final(self).plans() == old(self).plans(),
            final(self).recent() == old(self).recent(),
    ;

    /// The ids of the most recently executed plans, newest first, at most `limit`.
    fn recent_executed_plan_ids(&self, limit: usize) -> (r: Vec<String>)
        requires
            self.well_formed(),
        ensures
            texts(r@) == first_n(self.recent(), limit as int),
    ;

    /// Journal-first: confirms an entry's file operation as complete.
    fn complete_journal(&mut self, entry_id: u64, ts: u64)
        requires
            old(self).well_formed(),
        ensures
            final(self).well_formed(),
            final(self).journal() == completed_in(old(self).journal(), entry_id, ts),
            final(self).plans() == old(self).plans(),
            final(self).recent() == old(self).recent(),
    ;

    /// Records where a quarantined file actually went.
    fn update_journal_to(&mut self, entry_id: u64, to: String)
        requires
            old(self).well_formed(),
        ensures
            final(self).well_formed(),
            final(self).journal() == retargeted_in(old(self).journal(), entry_id, to@),
            final(self).plans() == old(self).plans(),
            final(self).recent() == old(self).recent(),
    ;

    /// Crash recovery: the entries whose file operation was never confirmed.
    fn inflight_entries(&self) -> (r: Vec<JournalEntry>)
        requires
            self.well_formed(),
        ensures
            crate::model::entry_views(r@) == inflight(self.journal()),
    ;
}

/// File operations. There is no permanent delete, and a move or quarantine
/// that fails changes nothing.
///
/// The model functions default to an unspecified value, so that an
/// implementation outside this verified library, which carries no model, can
/// still be written; every implementation here defines its own.
pub trait FileOps {
    /// The paths that exist (files and folders).
    closed spec fn present(&self) -> Set<Seq<char>> {
        vstd::pervasive::arbitrary()
    }

    /// Quarantined contents: content hash → where the quarantined copy lies.
    closed spec fn staged(&self) -> Map<Seq<char>, Seq<char>> {
        vstd::pervasive::arbitrary()
    }

    /// Moves or renames a file, creating the destination's folders.
    fn move_file(&mut self, from: &str, to: &str) -> (r: Result<(), String>)
        ensures
            r is Ok ==> {
                &&& old(self).present().contains(from@)
                &&& final(self).present() == old(self).present().remove(from@).insert(to@).union(
                    ancestors(to@),
                )
                &&& final(self).staged() == old(self).staged()
            },
            r is Err ==> final(self).present() == old(self).present() && final(self).staged() == old(self).staged(),
    ;

    /// Quarantines a file (soft delete) and returns where it went.
    fn stage_file(&mut self, from: &str, content_hash: &str) -> (r: Result<String, String>)
        ensures
            r matches Ok(p) ==> {
                &&& old(self).present().contains(from@)
                &&& final(self).present() == old(self).present().remove(from@).insert(p@)
                &&& final(self).staged() == old(self).staged().insert(content_hash@, p@)
            },
            r is Err ==> final(self).present() == old(self).present() && final(self).staged() == old(self).staged(),
    ;

    /// Brings a quarantined file back to `to` (undo).
    fn restore_file(&mut self, content_hash: &str, to: &str) -> (r: Result<(), String>)
        ensures
            r is Ok ==> {
                let sp = old(self).staged()[content_hash@];
                &&& old(self).staged().contains_key(content_hash@)
                &&& final(self).staged() == old(self).staged().remove(content_hash@)
                &&& old(self).present().remove(sp).insert(to@).subset_of(final(self).present())
                &&& final(self).present().subset_of(
                    old(self).present().remove(sp).insert(to@).union(ancestors(to@)),
                )
            },
    ;

    /// Whether a path exists (used to resolve destination clashes).
    fn path_exists(&self, p: &str) -> (b: bool)
        ensures
            b == self.present().contains(p@),
            self.present().finite(),
            self.present().len() <= usize::MAX,
    ;

    /// Removes a folder if it is empty; fails and changes nothing otherwise.
    fn remove_empty_dir(&mut self, dir: &str) -> (r: Result<(), String>)
        ensures
            final(self).staged() == old(self).staged(),
            r is Ok ==> final(self).present() == old(self).present().remove(dir@),
            r is Err ==> final(self).present() == old(self).present(),
    ;
}

} // verus!
