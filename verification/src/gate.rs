//! The approval engine: propose → confirm → execute → undo. **The only path that changes files.**
//!
//! Structural guarantees:
//! - execute refuses unless the plan is confirmed and the user confirmed it;
//! - just before executing, every operation's paths are re-checked by the
//!   guard, and a single refusal leaves everything unchanged;
//! - there is no permanent delete: removal is quarantine (`Stage`);
//! - a destination that exists is never overwritten: the move goes to a free
//!   "name (n).ext" instead;
//! - every file operation is preceded by a journal intent and followed by its
//!   confirmation (journal-first);
//! - undo is limited to the `UNDO_WINDOW` most recently executed plans.

use vstd::prelude::*;
use crate::clock::{now, now_nanos};
use crate::model::{
    Action, Denial, EntryV, JournalEntry, OpV, Plan, PlanOp, PlanStatus, PlanV, entry_views,
    op_views, texts,
};
use crate::ops::{
    FileOps, Store, after_execution, completed_in, entries_of, first_n, retargeted_in, status_set, undone_in,
    with_entry_id,
};
use crate::path::{
    ancestors, extension_of, join_of, join_path, parent, parent_of, stem_and_extension, stem_of,
    lemma_parent_shorter,
};
use crate::risk::{preview_level, preview_of, risk_tally, stage_count, conflict_count, lemma_counts_bounded};
use crate::scope::Guard;
use crate::text::{decimal, lemma_decimal_nonempty, push_char, push_decimal, push_str, digit_char};

verus! {

/// How many of the most recently executed plans can be undone.
pub const UNDO_WINDOW: usize = 5;

/// Why the engine refused or stopped.
#[derive(Debug, Clone, PartialEq, Eq)]
pub enum GateError {
    NoSuchPlan,
    /// confirm needs a proposed plan.
    NotProposed,
    /// execute needs a confirmed plan.
    NotConfirmed,
    /// execute needs the user's confirmation flag.
    NotUserConfirmed,
    /// undo needs an executed plan.
    NotExecuted,
    /// Not among the most recent executed plans.
    OutOfUndoWindow,
    /// The scope guard refused a path; nothing has changed.
    ScopeDenied { op_id: String, denial: Denial },
    /// A file operation of undo failed.
    FileOp { op_id: String, message: String },
    /// Partial execution: the earlier operations completed and can be undone;
    /// the failed operation's intent stays in flight for crash recovery.
    PartialExecute {
        failed_op_id: String,
        message: String,
        /// Number of operations that completed.
        completed: usize,
    },
}

/// Summary of an execution.
#[derive(Debug, Clone, PartialEq, Eq)]
pub struct ExecOutcome {
    pub plan_id: String,
    pub moved: usize,
    pub staged: usize,
    pub renamed: usize,
    pub entries: Vec<u64>,
}

/// The guard admits an operation: its source, and its destination unless it
/// is a quarantine (whose destination is the adapter's staging area).
pub open spec fn admitted<G: Guard>(g: G, op: OpV) -> bool {
    &&& g.verdict(op.from) is Ok
    &&& op.action != Action::Stage ==> g.verdict(op.to) is Ok
}

/// The guard admits every operation.
pub open spec fn all_admitted<G: Guard>(g: G, ops: Seq<OpV>) -> bool {
    forall|i: int| 0 <= i < ops.len() ==> admitted(g, #[trigger] ops[i])
}

/// A journal entry records operation `op` of plan `pid`, not yet undone.
pub open spec fn records(e: EntryV, pid: Seq<char>, op: OpV) -> bool {
    &&& e.plan_id == pid
    &&& e.op_id == op.op_id
    &&& e.action == op.action
    &&& e.content_hash == op.content_hash
    &&& e.from == op.from
    &&& e.undoable
    &&& e.undone_at is None
}

/// The name tried for the `n`-th clash: "stem (n).ext".
pub open spec fn clash_name(stem: Seq<char>, ext: Option<Seq<char>>, n: nat) -> Seq<char> {
    stem + " ("@ + decimal(n) + ")"@ + (match ext {
        Some(e) => seq!['.'] + e,
        None => Seq::empty(),
    })
}

/// The `n`-th alternative destination for `to`.
pub open spec fn clash_candidate(to: Seq<char>, n: nat) -> Seq<char> {
    let dir = match parent_of(to) {
        Some(q) => q,
        None => Seq::empty(),
    };
    let stem = match stem_of(to) {
        Some(s) => s,
        None => Seq::empty(),
    };
    join_of(dir, clash_name(stem, extension_of(to), n))
}

/// The folders a move to `p` would create, deepest first: the ancestors of
/// `p` up to (not including) the first one that exists.
pub open spec fn missing_dirs(present: Set<Seq<char>>, p: Seq<char>) -> Seq<Seq<char>>
    decreases p.len(),
{
    match parent_of(p) {
        None => Seq::empty(),
        Some(d) => if d.len() >= p.len() || present.contains(d) {
            Seq::empty()
        } else {
            seq![d] + missing_dirs(present, d)
        },
    }
}

/// The ids of entries that undo acts on: completed and not yet undone.
pub open spec fn undo_ids(es: Seq<EntryV>) -> Set<u64> {
    Set::new(
        |id: u64|
            exists|i: int|
                0 <= i < es.len() && es[i].completed_at is Some && es[i].undone_at is None
                    && es[i].entry_id == id,
    )
}

/// `j1` is `j0` with exactly the entries whose id is in `ids` marked undone.
pub open spec fn undo_applied(j0: Seq<EntryV>, j1: Seq<EntryV>, ids: Set<u64>) -> bool {
    &&& j1.len() == j0.len()
    &&& forall|k: int|
        0 <= k < j0.len() ==> {
            if ids.contains(#[trigger] j0[k].entry_id) {
                &&& j1[k].undone_at is Some
                &&& j1[k] == EntryV { undone_at: j1[k].undone_at, ..j0[k] }
            } else {
                j1[k] == j0[k]
            }
        }
}

/// The journal has room for a plan's entries.
pub open spec fn journal_room(journal_len: nat, plans: Map<Seq<char>, PlanV>, id: Seq<char>) -> bool {
    plans.contains_key(id) ==> journal_len + plans[id].ops.len() < u64::MAX
}

pub proof fn lemma_decimal_injective(n: nat, m: nat)
    requires
        decimal(n) == decimal(m),
    ensures
        n == m,
    decreases n,
{
    if n >= 10 {
        lemma_decimal_nonempty(n / 10);
    }
    if m >= 10 {
        lemma_decimal_nonempty(m / 10);
    }
    if n < 10 && m < 10 {
        assert(decimal(n) == seq![digit_char(n)]);
        assert(decimal(m) == seq![digit_char(m)]);
        assert(decimal(n)[0] == digit_char(n));
        assert(decimal(m)[0] == digit_char(m));
        lemma_digit_injective(n, m);
    } else if n < 10 {
        assert(decimal(n).len() == 1);
        assert(decimal(m).len() >= 2);
    } else if m < 10 {
        assert(decimal(m).len() == 1);
        assert(decimal(n).len() >= 2);
    } else {
        assert(decimal(n).last() == digit_char(n % 10));
        assert(decimal(m).last() == digit_char(m % 10));
        lemma_digit_injective(n % 10, m % 10);
        assert(decimal(n).drop_last() =~= decimal(n / 10));
        assert(decimal(m).drop_last() =~= decimal(m / 10));
        lemma_decimal_injective(n / 10, m / 10);
        assert(n == 10 * (n / 10) + n % 10);
        assert(m == 10 * (m / 10) + m % 10);
    }
}

proof fn lemma_digit_injective(a: nat, b: nat)
    requires
        a < 10,
        b < 10,
        digit_char(a) == digit_char(b),
    ensures
        a == b,
{
    assert(digit_char(a) as u32 == 48 + a) by {
        if a == 0 {} else if a == 1 {} else if a == 2 {} else if a == 3 {} else if a == 4 {}
        else if a == 5 {} else if a == 6 {} else if a == 7 {} else if a == 8 {} else {}
    }
    assert(digit_char(b) as u32 == 48 + b) by {
        if b == 0 {} else if b == 1 {} else if b == 2 {} else if b == 3 {} else if b == 4 {}
        else if b == 5 {} else if b == 6 {} else if b == 7 {} else if b == 8 {} else {}
    }
}

proof fn lemma_cancel(a: Seq<char>, x: Seq<char>, y: Seq<char>, b: Seq<char>)
    requires
        a + x + b == a + y + b,
    ensures
        x == y,
{
    assert((a + x + b).len() == (a + y + b).len());
    assert((a + x).len() == a.len() + x.len());
    assert((a + x + b).len() == a.len() + x.len() + b.len());
    assert((a + y + b).len() == a.len() + y.len() + b.len());
    assert(x.len() == y.len());
    assert(x =~= (a + x + b).subrange(a.len() as int, (a.len() + x.len()) as int));
    assert(y =~= (a + y + b).subrange(a.len() as int, (a.len() + y.len()) as int));
}

proof fn lemma_join_cancel(base: Seq<char>, x: Seq<char>, y: Seq<char>)
    requires
        x.len() > 0,
        y.len() > 0,
        x[0] == y[0],
        join_of(base, x) == join_of(base, y),
    ensures
        x == y,
{
    if x[0] == '/' || base.len() == 0 {
    } else if base.last() == '/' {
        lemma_cancel(base, x, y, Seq::empty());
        assert(base + x + Seq::<char>::empty() =~= base + x);
        assert(base + y + Seq::<char>::empty() =~= base + y);
    } else {
        lemma_cancel(base + seq!['/'], x, y, Seq::empty());
        assert(base + seq!['/'] + x + Seq::<char>::empty() =~= base + seq!['/'] + x);
        assert(base + seq!['/'] + y + Seq::<char>::empty() =~= base + seq!['/'] + y);
    }
}

/// Distinct clash numbers give distinct candidates.
pub proof fn lemma_candidates_distinct(to: Seq<char>, n: nat, m: nat)
    requires
        n != m,
    ensures
        clash_candidate(to, n) != clash_candidate(to, m),
{
    reveal_strlit(" (");
    let stem = match stem_of(to) {
        Some(s) => s,
        None => Seq::empty(),
    };
    let dir = match parent_of(to) {
        Some(q) => q,
        None => Seq::empty(),
    };
    let ext = extension_of(to);
    let tail = ")"@ + (match ext {
        Some(e) => seq!['.'] + e,
        None => Seq::empty(),
    });
    let a = stem + " ("@;
    let xn = clash_name(stem, ext, n);
    let xm = clash_name(stem, ext, m);
    assert(xn =~= a + decimal(n) + tail);
    assert(xm =~= a + decimal(m) + tail);
    if clash_candidate(to, n) == clash_candidate(to, m) {
        assert(a.len() > 0);
        assert(xn[0] == a[0]);
        assert(xm[0] == a[0]);
        lemma_join_cancel(dir, xn, xm);
        lemma_cancel(a, decimal(n), decimal(m), tail);
        lemma_decimal_injective(n, m);
    }
}

proof fn lemma_candidates_counted(s: Set<Seq<char>>, to: Seq<char>, k: nat)
    requires
        s.finite(),
        forall|i: nat| 1 <= i <= k ==> s.contains(#[trigger] clash_candidate(to, i)),
    ensures
        k <= s.len(),
    decreases k,
{
    if k > 0 {
        let s2 = s.remove(clash_candidate(to, k));
        assert forall|i: nat| 1 <= i <= (k - 1) as nat implies s2.contains(
            #[trigger] clash_candidate(to, i),
        ) by {
            lemma_candidates_distinct(to, i, k);
        }
        lemma_candidates_counted(s2, to, (k - 1) as nat);
    }
}


/// The entries from `j0.len()` on record operations `0..k` of `ops` for plan `pid`,
/// after an unchanged copy of `j0`.
pub open spec fn journal_extended(
    j0: Seq<EntryV>,
    j1: Seq<EntryV>,
    pid: Seq<char>,
    ops: Seq<OpV>,
    k: int,
) -> bool {
    &&& j1.len() == j0.len() + k
    &&& j1.subrange(0, j0.len() as int) == j0
    &&& forall|i: int| 0 <= i < k ==> records(#[trigger] j1[j0.len() + i], pid, ops[i])
}

/// The first `c` new entries (from `j0.len()` on) have a confirmed file operation.
pub open spec fn completed_from(j1: Seq<EntryV>, start: int, c: int) -> bool {
    forall|i: int| 0 <= i < c ==> (#[trigger] j1[start + i]).completed_at is Some
}

/// Number of `true` values.
pub open spec fn count_true(s: Seq<bool>) -> nat
    decreases s.len(),
{
    if s.len() == 0 {
        0
    } else {
        count_true(s.drop_last()) + (if s.last() {
            1nat
        } else {
            0nat
        })
    }
}

proof fn lemma_count_true_bound(s: Seq<bool>)
    ensures
        count_true(s) <= s.len(),
        count_true(s) == s.len() ==> forall|i: int| 0 <= i < s.len() ==> s[i],
        count_true(s) < s.len() ==> exists|i: int| 0 <= i < s.len() && !s[i],
    decreases s.len(),
{
    if s.len() > 0 {
        lemma_count_true_bound(s.drop_last());
        if count_true(s) == s.len() {
            assert forall|i: int| 0 <= i < s.len() implies s[i] by {
                if i < s.len() - 1 {
                    assert(s.drop_last()[i] == s[i]);
                }
            }
        }
        if count_true(s) < s.len() {
            if !s.last() {
                assert(!s[s.len() - 1]);
            } else {
                let i = choose|i: int| 0 <= i < s.drop_last().len() && !s.drop_last()[i];
                assert(!s[i]);
            }
        }
    }
}

proof fn lemma_count_true_set(s: Seq<bool>, i: int)
    requires
        0 <= i < s.len(),
        !s[i],
    ensures
        count_true(s.update(i, true)) == count_true(s) + 1,
    decreases s.len(),
{
    let t = s.update(i, true);
    if i == s.len() - 1 {
        assert(t.drop_last() =~= s.drop_last());
    } else {
        assert(t.drop_last() =~= s.drop_last().update(i, true));
        lemma_count_true_set(s.drop_last(), i);
    }
}

proof fn lemma_count_true_none(s: Seq<bool>)
    requires
        forall|i: int| 0 <= i < s.len() ==> !s[i],
    ensures
        count_true(s) == 0,
    decreases s.len(),
{
    if s.len() > 0 {
        lemma_count_true_none(s.drop_last());
    }
}

/// Whether `id` is among `v`.
fn contains_text(v: &Vec<String>, id: &str) -> (b: bool)
    ensures
        b == texts(v@).contains(id@),
{
    let mut i: usize = 0;
    while i < v.len()
        invariant
            0 <= i <= v.len(),
            forall|j: int| 0 <= j < i ==> texts(v@)[j] != id@,
        decreases v.len() - i,
    {
        if crate::model::str_eq(v[i].as_str(), id) {
            assert(texts(v@)[i as int] == id@);
            return true;
        }
        i += 1;
    }
    false
}

/// The first not-yet-processed entry with the largest id.
fn pick_latest(entries: &Vec<JournalEntry>, done: &Vec<bool>) -> (r: usize)
    requires
        entries.len() == done.len(),
        exists|i: int| 0 <= i < done.len() && !done@[i],
    ensures
        r < entries.len(),
        !done@[r as int],
        forall|j: int| 0 <= j < done.len() && !done@[j] ==> entries@[j].entry_id <= entries@[r as int].entry_id,
        forall|j: int| 0 <= j < r && !done@[j] ==> entries@[j].entry_id < entries@[r as int].entry_id,
{
    let mut best: Option<usize> = None;
    let mut i: usize = 0;
    while i < done.len()
        invariant
            entries.len() == done.len(),
            0 <= i <= done.len(),
            match best {
                None => forall|j: int| 0 <= j < i ==> done@[j],
                Some(b) => {
                    &&& b < i
                    &&& !done@[b as int]
                    &&& forall|j: int| 0 <= j < i && !done@[j] ==> entries@[j].entry_id <= entries@[b as int].entry_id
                    &&& forall|j: int| 0 <= j < b && !done@[j] ==> entries@[j].entry_id < entries@[b as int].entry_id
                },
            },
        decreases done.len() - i,
    {
        if !done[i] {
            match best {
                None => {
                    best = Some(i);
                },
                Some(b) => {
                    if entries[i].entry_id > entries[b].entry_id {
                        best = Some(i);
                    }
                },
            }
        }
        i += 1;
    }
    match best {
        Some(b) => b,
        None => {
            assert(false);
            0
        },
    }
}

// ───────────────────────────── execute, then undo ─────────────────────────────

/// Operation `i` is the first one the guard refuses.
pub open spec fn first_refused<G: Guard>(g: G, ops: Seq<OpV>, i: int) -> bool {
    &&& 0 <= i < ops.len()
    &&& !admitted(g, ops[i])
    &&& forall|j: int| 0 <= j < i ==> admitted(g, #[trigger] ops[j])
}

/// Why the guard refuses an operation: its source's denial, else its destination's.
pub open spec fn refusal<G: Guard>(g: G, op: OpV) -> Denial {
    match g.verdict(op.from) {
        Err(d) => d,
        Ok(_) => match g.verdict(op.to) {
            Err(d) => d,
            Ok(_) => vstd::pervasive::arbitrary(),
        },
    }
}

/// Where a move or rename of `op` lands when paths `q` exist: its
/// destination if that is free, else the first free "stem (n).ext" beside it.
pub open spec fn landing(q: Set<Seq<char>>, op: OpV, to: Seq<char>) -> bool {
    if !q.contains(op.to) {
        to == op.to
    } else {
        exists|n: nat|
            n >= 1 && to == #[trigger] clash_candidate(op.to, n) && !q.contains(to) && forall|m: nat|
                1 <= m < n ==> q.contains(#[trigger] clash_candidate(op.to, m))
    }
}

/// Each move or rename of `ops` recorded in `es` landed as `landing` says,
/// on the paths the operations before it left.
pub open spec fn all_landed(q: Set<Seq<char>>, es: Seq<EntryV>, ops: Seq<OpV>) -> bool
    decreases es.len(),
{
    if es.len() == 0 {
        true
    } else {
        &&& all_landed(q, es.drop_last(), ops)
        &&& ops[es.len() - 1].action != Action::Stage ==> landing(
            ran_from(q, es.drop_last()),
            ops[es.len() - 1],
            es.last().to,
        )
    }
}

/// How many of the operations recorded in `es` count as renamed: renames,
/// and moves whose destination was taken when they ran.
pub open spec fn renamed_count(q: Set<Seq<char>>, es: Seq<EntryV>, ops: Seq<OpV>) -> nat
    decreases es.len(),
{
    if es.len() == 0 {
        0
    } else {
        let op = ops[es.len() - 1];
        renamed_count(q, es.drop_last(), ops) + if op.action == Action::Rename || (op.action == Action::Move
            && ran_from(q, es.drop_last()).contains(op.to)) {
            1nat
        } else {
            0nat
        }
    }
}

/// The paths present after the completed operation `e` ran on paths `q`.
pub open spec fn exec_step(q: Set<Seq<char>>, e: EntryV) -> Set<Seq<char>> {
    if e.action == Action::Stage {
        q.remove(e.from).insert(e.to)
    } else {
        q.remove(e.from).insert(e.to).union(ancestors(e.to))
    }
}

/// The operation of `e` could run on paths `q`: its source was there, and for
/// a move its destination and the folders it created were not.
pub open spec fn ran_on(q: Set<Seq<char>>, e: EntryV) -> bool {
    &&& q.contains(e.from)
    &&& e.action != Action::Stage ==> {
        &&& !q.contains(e.to)
        &&& forall|k: int| 0 <= k < e.created_dirs.len() ==> !q.contains(#[trigger] e.created_dirs[k])
    }
}

/// The paths present after the operations of `es` ran, in order, on `q`.
pub open spec fn ran_from(q: Set<Seq<char>>, es: Seq<EntryV>) -> Set<Seq<char>>
    decreases es.len(),
{
    if es.len() == 0 {
        q
    } else {
        exec_step(ran_from(q, es.drop_last()), es.last())
    }
}

/// Each operation of `es` could run where the ones before it left the paths.
pub open spec fn ran_well(q: Set<Seq<char>>, es: Seq<EntryV>) -> bool
    decreases es.len(),
{
    if es.len() == 0 {
        true
    } else {
        ran_well(q, es.drop_last()) && ran_on(ran_from(q, es.drop_last()), es.last())
    }
}

/// Entry ids grow along the sequence.
pub open spec fn increasing_ids(es: Seq<EntryV>) -> bool {
    forall|i: int, j: int| 0 <= i < j < es.len() ==> #[trigger] es[i].entry_id < #[trigger] es[j].entry_id
}

/// Each quarantine of `es` put its file at a path that did not exist yet.
pub open spec fn stages_fresh(q: Set<Seq<char>>, es: Seq<EntryV>) -> bool
    decreases es.len(),
{
    if es.len() == 0 {
        true
    } else {
        &&& stages_fresh(q, es.drop_last())
        &&& es.last().action == Action::Stage ==> !ran_from(q, es.drop_last()).contains(es.last().to)
    }
}

/// The quarantine map after the operations of `es` ran on map `m`.
pub open spec fn exec_staged(m: Map<Seq<char>, Seq<char>>, es: Seq<EntryV>) -> Map<Seq<char>, Seq<char>>
    decreases es.len(),
{
    if es.len() == 0 {
        m
    } else if es.last().action == Action::Stage {
        exec_staged(m, es.drop_last()).insert(es.last().content_hash, es.last().to)
    } else {
        exec_staged(m, es.drop_last())
    }
}

/// An entry that undo acts on: completed and not yet undone.
pub open spec fn live(e: EntryV) -> bool {
    e.completed_at is Some && e.undone_at is None
}

/// Where the latest live quarantine of content `h` in `es` put it.
pub open spec fn last_staged_to(es: Seq<EntryV>, h: Seq<char>) -> Option<Seq<char>>
    decreases es.len(),
{
    if es.len() == 0 {
        None
    } else if live(es.last()) && es.last().action == Action::Stage && es.last().content_hash == h {
        Some(es.last().to)
    } else {
        last_staged_to(es.drop_last(), h)
    }
}

/// The quarantine map `m` sends every content that a live quarantine of `es`
/// put away, and that `m` still holds, to where the latest of them put it.
pub open spec fn staged_agrees(m: Map<Seq<char>, Seq<char>>, es: Seq<EntryV>) -> bool {
    forall|h: Seq<char>|
        m.contains_key(h) && #[trigger] last_staged_to(es, h) is Some ==> m[h] == last_staged_to(es, h)->0
}

/// What undoing entry `e` leaves at least of paths `q`: its destination (or
/// quarantined copy) gone, its source back, and the folders its move created
/// removed.
pub open spec fn back_step(q: Set<Seq<char>>, e: EntryV) -> Set<Seq<char>> {
    if live(e) {
        if e.action == Action::Stage {
            q.remove(e.to).insert(e.from)
        } else {
            q.remove(e.to).insert(e.from).difference(e.created_dirs.to_set())
        }
    } else {
        q
    }
}

/// What undoing entry `e` leaves at most of paths `q`: its destination (or
/// quarantined copy) gone, its source and the source's folders there.
pub open spec fn back_upper(q: Set<Seq<char>>, e: EntryV) -> Set<Seq<char>> {
    if live(e) {
        q.remove(e.to).insert(e.from).union(ancestors(e.from))
    } else {
        q
    }
}

/// What undoing `es`, latest first, leaves at most of paths `q`.
pub open spec fn undo_upper(q: Set<Seq<char>>, es: Seq<EntryV>) -> Set<Seq<char>>
    decreases es.len(),
{
    if es.len() == 0 {
        q
    } else {
        undo_upper(back_upper(q, es.last()), es.drop_last())
    }
}

/// The contents quarantined by the live entries of `es`.
pub open spec fn live_stage_hashes(es: Seq<EntryV>) -> Set<Seq<char>> {
    Set::new(
        |h: Seq<char>|
            exists|i: int|
                0 <= i < es.len() && live(#[trigger] es[i]) && es[i].action == Action::Stage
                    && es[i].content_hash == h,
    )
}

/// The contents quarantined by the live entries of `es` marked in `done`.
pub open spec fn restored_hashes(es: Seq<EntryV>, done: Seq<bool>) -> Set<Seq<char>> {
    Set::new(
        |h: Seq<char>|
            exists|i: int|
                0 <= i < es.len() && done[i] && live(#[trigger] es[i]) && es[i].action == Action::Stage
                    && es[i].content_hash == h,
    )
}

proof fn lemma_restored_step(es: Seq<EntryV>, done: Seq<bool>, b: int)
    requires
        0 <= b < es.len(),
        es.len() == done.len(),
    ensures
        restored_hashes(es, done.update(b, true)) == (if live(es[b]) && es[b].action == Action::Stage {
            restored_hashes(es, done).insert(es[b].content_hash)
        } else {
            restored_hashes(es, done)
        }),
{
    let d2 = done.update(b, true);
    let a = restored_hashes(es, d2);
    let c = if live(es[b]) && es[b].action == Action::Stage {
        restored_hashes(es, done).insert(es[b].content_hash)
    } else {
        restored_hashes(es, done)
    };
    assert forall|h: Seq<char>| a.contains(h) <==> c.contains(h) by {
        if a.contains(h) {
            let i = choose|i: int|
                0 <= i < es.len() && d2[i] && live(#[trigger] es[i]) && es[i].action == Action::Stage
                    && es[i].content_hash == h;
            if i != b {
                assert(done[i]);
            }
        }
        if c.contains(h) {
            if restored_hashes(es, done).contains(h) {
                let i = choose|i: int|
                    0 <= i < es.len() && done[i] && live(#[trigger] es[i]) && es[i].action == Action::Stage
                        && es[i].content_hash == h;
                assert(d2[i]);
            } else {
                assert(d2[b]);
            }
        }
    }
    assert(a =~= c);
}

proof fn lemma_restored_none(es: Seq<EntryV>, done: Seq<bool>)
    requires
        forall|i: int| 0 <= i < done.len() ==> !done[i],
        es.len() == done.len(),
    ensures
        restored_hashes(es, done) == Set::<Seq<char>>::empty(),
{
    assert(restored_hashes(es, done) =~= Set::<Seq<char>>::empty());
}

proof fn lemma_restored_all(es: Seq<EntryV>, done: Seq<bool>)
    requires
        forall|i: int| 0 <= i < done.len() ==> done[i],
        es.len() == done.len(),
    ensures
        restored_hashes(es, done) == live_stage_hashes(es),
{
    assert(restored_hashes(es, done) =~= live_stage_hashes(es));
}

/// What undoing `es`, latest first, leaves at least of paths `q`.
pub open spec fn undo_lower(q: Set<Seq<char>>, es: Seq<EntryV>) -> Set<Seq<char>>
    decreases es.len(),
{
    if es.len() == 0 {
        q
    } else {
        undo_lower(back_step(q, es.last()), es.drop_last())
    }
}

proof fn lemma_missing_dirs_absent(present: Set<Seq<char>>, p: Seq<char>)
    ensures
        forall|k: int|
            0 <= k < missing_dirs(present, p).len() ==> !present.contains(
                #[trigger] missing_dirs(present, p)[k],
            ),
    decreases p.len(),
{
    match parent_of(p) {
        None => {},
        Some(d) => {
            if !(d.len() >= p.len() || present.contains(d)) {
                lemma_missing_dirs_absent(present, d);
                let m = missing_dirs(present, p);
                assert forall|k: int| 0 <= k < m.len() implies !present.contains(#[trigger] m[k]) by {
                    if k > 0 {
                        assert(m[k] == missing_dirs(present, d)[k - 1]);
                    }
                }
            }
        },
    }
}

proof fn lemma_back_step_monotone(a: Set<Seq<char>>, b: Set<Seq<char>>, e: EntryV)
    requires
        a.subset_of(b),
    ensures
        back_step(a, e).subset_of(back_step(b, e)),
{
}

proof fn lemma_undo_lower_monotone(a: Set<Seq<char>>, b: Set<Seq<char>>, es: Seq<EntryV>)
    requires
        a.subset_of(b),
    ensures
        undo_lower(a, es).subset_of(undo_lower(b, es)),
    decreases es.len(),
{
    if es.len() > 0 {
        lemma_back_step_monotone(a, b, es.last());
        lemma_undo_lower_monotone(back_step(a, es.last()), back_step(b, es.last()), es.drop_last());
    }
}

proof fn lemma_step_back(q: Set<Seq<char>>, e: EntryV)
    requires
        ran_on(q, e),
        live(e),
        e.action == Action::Stage ==> !q.contains(e.to),
    ensures
        q.subset_of(back_step(exec_step(q, e), e)),
{
    let d = e.created_dirs.to_set();
    assert forall|x: Seq<char>| q.contains(x) implies back_step(exec_step(q, e), e).contains(x) by {
        if e.action != Action::Stage && d.contains(x) {
            let k = choose|k: int| 0 <= k < e.created_dirs.len() && e.created_dirs[k] == x;
            assert(!q.contains(e.created_dirs[k]));
        }
    }
}

/// Undo gives back what execute changed: when the operations of a plan ran
/// (each from where the previous ones left the files, each quarantine into a
/// new place) and are then undone latest first, every path that existed
/// before is there again.
pub proof fn lemma_undo_restores(p0: Set<Seq<char>>, es: Seq<EntryV>, p2: Set<Seq<char>>)
    requires
        ran_well(p0, es),
        stages_fresh(p0, es),
        forall|i: int| 0 <= i < es.len() ==> live(#[trigger] es[i]),
        undo_lower(ran_from(p0, es), es).subset_of(p2),
    ensures
        p0.subset_of(p2),
{
    lemma_undo_lower_covers(p0, es);
}

proof fn lemma_undo_lower_covers(p0: Set<Seq<char>>, es: Seq<EntryV>)
    requires
        ran_well(p0, es),
        stages_fresh(p0, es),
        forall|i: int| 0 <= i < es.len() ==> live(#[trigger] es[i]),
    ensures
        p0.subset_of(undo_lower(ran_from(p0, es), es)),
    decreases es.len(),
{
    if es.len() > 0 {
        let rest = es.drop_last();
        let e = es.last();
        assert forall|i: int| 0 <= i < rest.len() implies live(#[trigger] rest[i]) by {
            assert(rest[i] == es[i]);
        }
        lemma_undo_lower_covers(p0, rest);
        let before = ran_from(p0, rest);
        assert(e == es[es.len() - 1]);
        lemma_step_back(before, e);
        lemma_undo_lower_monotone(before, back_step(exec_step(before, e), e), rest);
    }
}

/// After the operations of `es` ran, each content they quarantined is found
/// where the latest quarantine of it put it.
pub proof fn lemma_exec_staged_agrees(m: Map<Seq<char>, Seq<char>>, es: Seq<EntryV>)
    requires
        forall|i: int| 0 <= i < es.len() ==> live(#[trigger] es[i]),
    ensures
        staged_agrees(exec_staged(m, es), es),
    decreases es.len(),
{
    if es.len() > 0 {
        let rest = es.drop_last();
        assert forall|i: int| 0 <= i < rest.len() implies live(#[trigger] rest[i]) by {
            assert(rest[i] == es[i]);
        }
        lemma_exec_staged_agrees(m, rest);
        assert(live(es[es.len() - 1]));
        let m1 = exec_staged(m, es);
        assert forall|h: Seq<char>|
            m1.contains_key(h) && #[trigger] last_staged_to(es, h) is Some implies m1[h] == last_staged_to(es, h)->0 by {
            if !(es.last().action == Action::Stage && es.last().content_hash == h) {
                assert(last_staged_to(es, h) == last_staged_to(rest, h));
            }
        }
    }
}

/// Undoing the latest entry of `es` keeps the map in agreement with the rest.
proof fn lemma_agrees_drop_last(m: Map<Seq<char>, Seq<char>>, es: Seq<EntryV>)
    requires
        es.len() > 0,
        staged_agrees(m, es),
    ensures
        live(es.last()) && es.last().action == Action::Stage ==> staged_agrees(
            m.remove(es.last().content_hash),
            es.drop_last(),
        ),
        !(live(es.last()) && es.last().action == Action::Stage) ==> staged_agrees(m, es.drop_last()),
{
    let rest = es.drop_last();
    let e = es.last();
    if live(e) && e.action == Action::Stage {
        let m1 = m.remove(e.content_hash);
        assert forall|h: Seq<char>|
            m1.contains_key(h) && #[trigger] last_staged_to(rest, h) is Some implies m1[h] == last_staged_to(rest, h)->0 by {
            assert(h != e.content_hash);
            assert(last_staged_to(es, h) == last_staged_to(rest, h));
        }
    } else {
        assert forall|h: Seq<char>|
            m.contains_key(h) && #[trigger] last_staged_to(rest, h) is Some implies m[h] == last_staged_to(rest, h)->0 by {
            assert(last_staged_to(es, h) == last_staged_to(rest, h));
        }
    }
}

proof fn lemma_entries_of_append(j0: Seq<EntryV>, new: Seq<EntryV>, pid: Seq<char>)
    requires
        entries_of(j0, pid).len() == 0,
        forall|i: int| 0 <= i < new.len() ==> (#[trigger] new[i]).plan_id == pid,
    ensures
        entries_of(j0 + new, pid) == new,
    decreases new.len(),
{
    if new.len() == 0 {
        assert(j0 + new =~= j0);
    } else {
        let rest = new.drop_last();
        assert forall|i: int| 0 <= i < rest.len() implies (#[trigger] rest[i]).plan_id == pid by {
            assert(rest[i] == new[i]);
        }
        lemma_entries_of_append(j0, rest, pid);
        assert((j0 + new).drop_last() =~= j0 + rest);
        assert((j0 + new).last() == new.last());
        assert(rest.push(new.last()) =~= new);
    }
}

/// A plan just executed (completely or in part) is the newest executed plan,
/// so it is within the undo window.
pub proof fn lemma_executed_plan_in_window(recent: Seq<Seq<char>>, id: Seq<char>)
    ensures
        after_execution(recent, id)[0] == id,
        first_n(after_execution(recent, id), UNDO_WINDOW as int).contains(id),
{
    let a = after_execution(recent, id);
    assert(first_n(a, UNDO_WINDOW as int)[0] == id);
}

/// The safety core. Guard, store and file operations are supplied.
pub struct Engine<G: Guard, S: Store, F: FileOps> {
    pub guard: G,
    pub store: S,
    pub fileops: F,
    /// How many ids this engine has issued.
    pub seq_counter: u64,
}

impl<G: Guard, S: Store, F: FileOps> Engine<G, S, F> {
    /// How many ids this engine has issued.
    pub open spec fn issued(&self) -> u64 {
        self.seq_counter
    }

    pub fn new(guard: G, store: S, fileops: F) -> (e: Self)
        ensures
            e.guard == guard,
            e.store == store,
            e.fileops == fileops,
            e.issued() == 0,
    {
        Engine { guard, store, fileops, seq_counter: 0 }
    }

    fn gen_id(&mut self, prefix: &str) -> (r: String)
        requires
            old(self).seq_counter < u64::MAX,
        ensures
            final(self).seq_counter == old(self).seq_counter + 1,
            final(self).guard == old(self).guard,
            final(self).store == old(self).store,
            final(self).fileops == old(self).fileops,
            exists|t: nat|
                r@ == prefix@ + "-"@ + #[trigger] decimal(t) + "-"@ + decimal(
                    final(self).seq_counter as nat,
                ),
    {
        self.seq_counter += 1;
        let t = now_nanos();
        let mut s = String::new();
        push_str(&mut s, prefix);
        push_str(&mut s, "-");
        push_decimal(&mut s, t);
        push_str(&mut s, "-");
        push_decimal(&mut s, self.seq_counter as u128);
        assert(s@ == prefix@ + "-"@ + decimal(t as nat) + "-"@ + decimal(self.seq_counter as nat));
        s
    }

    /// Proposes a plan. **Changes no file.** Gives every operation its
    /// sequence number and id, computes preview and risk, and stores the plan.
    pub fn propose(
        &mut self,
        ops: Vec<PlanOp>,
        scheme: Option<String>,
        rule_summary: Option<String>,
    ) -> (plan: Plan)
        requires
            old(self).store.well_formed(),
            old(self).issued() < u64::MAX,
            ops.len() <= u32::MAX,
        ensures
            final(self).store.well_formed(),
            final(self).store.plans() == old(self).store.plans().insert(plan@.plan_id, plan@),
            final(self).store.journal() == old(self).store.journal(),
            final(self).fileops == old(self).fileops,
            final(self).guard == old(self).guard,
            final(self).issued() == old(self).issued() + 1,
            exists|t: nat|
                plan@.plan_id == "plan"@ + "-"@ + #[trigger] decimal(t) + "-"@ + decimal(
                    final(self).issued() as nat,
                ),
            plan@.status == PlanStatus::Proposed,
            plan@.ops.len() == ops.len(),
            forall|i: int|
                0 <= i < ops.len() ==> #[trigger] plan@.ops[i] == (OpV {
                    op_id: plan@.plan_id + "-"@ + decimal(i as nat),
                    seq: i as u32,
                    ..op_views(ops@)[i]
                }),
            plan@.preview == preview_of(plan@.ops),
            plan@.risk.stages == stage_count(plan@.ops),
            plan@.risk.conflicts == conflict_count(plan@.ops),
            plan@.risk.total == ops.len(),
            plan@.scheme == crate::model::opt_text(scheme),
            plan@.rule_summary == crate::model::opt_text(rule_summary),
    {
        let plan_id = self.gen_id("plan");
        let mut out: Vec<PlanOp> = Vec::new();
        let mut i: usize = 0;
        while i < ops.len()
            invariant
                0 <= i <= ops.len() <= u32::MAX,
                out.len() == i,
                forall|j: int|
                    0 <= j < i ==> #[trigger] op_views(out@)[j] == (OpV {
                        op_id: plan_id@ + "-"@ + decimal(j as nat),
                        seq: j as u32,
                        ..op_views(ops@)[j]
                    }),
            decreases ops.len() - i,
        {
            let mut o = ops[i].dup();
            let mut id = plan_id.clone();
            push_str(&mut id, "-");
            push_decimal(&mut id, i as u128);
            o.op_id = id;
            o.seq = i as u32;
            let ghost before = out@;
            out.push(o);
            assert forall|j: int| 0 <= j < i + 1 implies #[trigger] op_views(out@)[j] == (OpV {
                op_id: plan_id@ + "-"@ + decimal(j as nat),
                seq: j as u32,
                ..op_views(ops@)[j]
            }) by {
                assert(op_views(out@)[j] == out@[j]@);
                if j < i {
                    assert(out@[j] == before[j]);
                    assert(op_views(before)[j] == before[j]@);
                } else {
                    assert(op_views(ops@)[j] == ops@[j]@);
                }
            }
            i += 1;
        }
        let ghost ov = op_views(out@);
        let preview = preview_level(out.as_slice());
        let risk = risk_tally(out.as_slice());
        let plan = Plan {
            plan_id,
            created_at: now(),
            status: PlanStatus::Proposed,
            risk,
            preview,
            scheme,
            rule_summary,
            ops: out,
        };
        assert(plan@.ops =~= ov);
        assert forall|i: int| 0 <= i < ops.len() implies #[trigger] plan@.ops[i] == (OpV {
            op_id: plan@.plan_id + "-"@ + decimal(i as nat),
            seq: i as u32,
            ..op_views(ops@)[i]
        }) by {
            assert(ov[i] == op_views(plan.ops@)[i]);
        }
        self.store.save_plan(plan.dup());
        plan
    }

    /// Confirms a plan after the user reviewed it: proposed → confirmed.
    pub fn confirm(&mut self, plan_id: &str) -> (r: Result<(), GateError>)
        requires
            old(self).store.well_formed(),
        ensures
            final(self).store.well_formed(),
            final(self).fileops == old(self).fileops,
            final(self).guard == old(self).guard,
            final(self).issued() == old(self).issued(),
            !old(self).store.plans().contains_key(plan_id@) <==> r == Err::<(), GateError>(
                GateError::NoSuchPlan,
            ),
            old(self).store.plans().contains_key(plan_id@) && old(self).store.plans()[plan_id@].status
                != PlanStatus::Proposed <==> r == Err::<(), GateError>(GateError::NotProposed),
            old(self).store.plans().contains_key(plan_id@) && old(self).store.plans()[plan_id@].status
                == PlanStatus::Proposed <==> r is Ok,
            final(self).store.recent() == old(self).store.recent(),
            r is Ok ==> final(self).store.plans() == status_set(
                old(self).store.plans(),
                plan_id@,
                PlanStatus::Confirmed,
            ) && final(self).store.journal() == old(self).store.journal(),
            r is Err ==> final(self).store == old(self).store,
    {
        let plan = match self.store.get_plan(plan_id) {
            Some(p) => p,
            None => return Err(GateError::NoSuchPlan),
        };
        if plan.status != PlanStatus::Proposed {
            return Err(GateError::NotProposed);
        }
        self.store.set_plan_status(plan_id, PlanStatus::Confirmed);
        Ok(())
    }

    /// Where a move to `to` lands: `to` itself if free, else the first free
    /// "stem (n).ext" beside it. Never an existing path (no overwrite).
    fn resolve_conflict(&self, to: &str) -> (r: (String, bool))
        ensures
            !self.fileops.present().contains(r.0@),
            r.1 == self.fileops.present().contains(to@),
            !r.1 ==> r.0@ == to@,
            r.1 ==> exists|n: nat|
                n >= 1 && r.0@ == #[trigger] clash_candidate(to@, n) && forall|m: nat|
                    1 <= m < n ==> self.fileops.present().contains(#[trigger] clash_candidate(to@, m)),
    {
        if !self.fileops.path_exists(to) {
            return (to.to_string(), false);
        }
        let ghost present = self.fileops.present();
        let dir = match parent(to) {
            Some(p) => p,
            None => String::new(),
        };
        let (stem_o, ext) = stem_and_extension(to);
        let stem = match stem_o {
            Some(s) => s,
            None => String::new(),
        };
        let mut n: u128 = 1;
        loop
            invariant
                present == self.fileops.present(),
                present.finite(),
                present.len() <= usize::MAX,
                1 <= n <= present.len() + 1,
                dir@ == (match parent_of(to@) {
                    Some(q) => q,
                    None => Seq::empty(),
                }),
                stem@ == (match stem_of(to@) {
                    Some(s) => s,
                    None => Seq::empty(),
                }),
                crate::path::opt_seq(ext) == extension_of(to@),
                present.contains(to@),
                forall|m: nat| 1 <= m < n ==> present.contains(#[trigger] clash_candidate(to@, m)),
            decreases present.len() + 1 - n,
        {
            let mut name = stem.clone();
            push_str(&mut name, " (");
            push_decimal(&mut name, n);
            push_char(&mut name, ')');
            match &ext {
                Some(e) => {
                    push_char(&mut name, '.');
                    push_str(&mut name, e.as_str());
                },
                None => {},
            }
            proof {
                reveal_strlit(")");
            }
            assert(name@ =~= clash_name(stem@, extension_of(to@), n as nat));
            let candidate = join_path(dir.as_str(), name.as_str());
            assert(candidate@ == clash_candidate(to@, n as nat));
            if !self.fileops.path_exists(candidate.as_str()) {
                return (candidate, true);
            }
            proof {
                lemma_candidates_counted(present, to@, n as nat);
            }
            n += 1;
        }
    }

    /// The folders a move to `to` will create, deepest first.
    fn dirs_to_create(&self, to: &str) -> (r: Vec<String>)
        ensures
            texts(r@) == missing_dirs(self.fileops.present(), to@),
    {
        let ghost present = self.fileops.present();
        let mut created: Vec<String> = Vec::new();
        let mut last = to.to_string();
        let mut cur = parent(to);
        while cur.is_some()
            invariant
                present == self.fileops.present(),
                texts(created@) + missing_dirs(present, last@) == missing_dirs(present, to@),
                crate::path::opt_seq(cur) == parent_of(last@),
            decreases last@.len(),
        {
            let dir = match cur {
                Some(d) => d,
                None => String::new(),
            };
            proof {
                lemma_parent_shorter(last@);
            }
            if self.fileops.path_exists(dir.as_str()) {
                assert(missing_dirs(present, last@) == Seq::<Seq<char>>::empty());
                assert(texts(created@) + Seq::<Seq<char>>::empty() =~= texts(created@));
                return created;
            }
            let ghost before = texts(created@);
            created.push(dir.clone());
            assert(texts(created@) =~= before.push(dir@));
            assert(before + missing_dirs(present, last@) =~= texts(created@) + missing_dirs(present, dir@));
            cur = parent(dir.as_str());
            last = dir;
        }
        assert(missing_dirs(present, last@) == Seq::<Seq<char>>::empty());
        assert(texts(created@) + Seq::<Seq<char>>::empty() =~= texts(created@));
        created
    }

    /// Executes a plan — the only path that changes files. Needs a confirmed
    /// plan and the user's confirmation flag.
    ///
    /// Phase 1 re-checks every operation's paths with the guard; one refusal
    /// and nothing has changed. Phase 2, per operation: record the intent in
    /// the journal, do the file operation, confirm the entry. If a file
    /// operation fails, the earlier operations stay done and undoable, the
    /// failed one's intent stays in flight, and the plan is marked executed.
    pub fn execute(&mut self, plan_id: &str, user_confirmed: bool) -> (r: Result<ExecOutcome, GateError>)
        requires
            old(self).store.well_formed(),
            journal_room(old(self).store.journal().len(), old(self).store.plans(), plan_id@),
        ensures
            final(self).store.well_formed(),
            final(self).guard == old(self).guard,
            final(self).issued() == old(self).issued(),
            !old(self).store.plans().contains_key(plan_id@) <==> r == Err::<ExecOutcome, GateError>(
                GateError::NoSuchPlan,
            ),
            old(self).store.plans().contains_key(plan_id@) && old(self).store.plans()[plan_id@].status
                != PlanStatus::Confirmed <==> r == Err::<ExecOutcome, GateError>(
                GateError::NotConfirmed,
            ),
            old(self).store.plans().contains_key(plan_id@) && old(self).store.plans()[plan_id@].status
                == PlanStatus::Confirmed && !user_confirmed <==> r == Err::<ExecOutcome, GateError>(
                GateError::NotUserConfirmed,
            ),
            old(self).store.plans().contains_key(plan_id@) && old(self).store.plans()[plan_id@].status
                == PlanStatus::Confirmed && user_confirmed ==> (r matches Err(
                GateError::ScopeDenied { .. },
            ) <==> !all_admitted(old(self).guard, old(self).store.plans()[plan_id@].ops)),
            r matches Err(GateError::ScopeDenied { op_id, denial }) ==> exists|i: int|
                #[trigger] first_refused(old(self).guard, old(self).store.plans()[plan_id@].ops, i)
                    && op_id@ == old(self).store.plans()[plan_id@].ops[i].op_id && denial == refusal(
                    old(self).guard,
                    old(self).store.plans()[plan_id@].ops[i],
                ),
            r matches Err(e) && !(e is PartialExecute) ==> final(self).store == old(self).store
                && final(self).fileops == old(self).fileops,
            !(r matches Err(GateError::NotProposed)),
            !(r matches Err(GateError::NotExecuted)),
            !(r matches Err(GateError::OutOfUndoWindow)),
            !(r matches Err(GateError::FileOp { .. })),
            r matches Ok(out) ==> {
                let p = old(self).store.plans()[plan_id@];
                let j0 = old(self).store.journal();
                let j1 = final(self).store.journal();
                let n = p.ops.len() as int;
                &&& final(self).store.plans() == status_set(
                    old(self).store.plans(),
                    plan_id@,
                    PlanStatus::Executed,
                )
                &&& journal_extended(j0, j1, plan_id@, p.ops, n)
                &&& completed_from(j1, j0.len() as int, n)
                &&& out.plan_id@ == plan_id@
                &&& out.entries@.len() == n
                &&& forall|i: int| 0 <= i < n ==> #[trigger] out.entries@[i] == j1[j0.len() + i].entry_id
                &&& out.staged == stage_count(p.ops)
                &&& out.moved + out.renamed + out.staged == n
                &&& out.renamed == renamed_count(
                    old(self).fileops.present(),
                    j1.subrange(j0.len() as int, j1.len() as int),
                    p.ops,
                )
                &&& all_landed(old(self).fileops.present(), j1.subrange(j0.len() as int, j1.len() as int), p.ops)
                &&& final(self).store.recent() == after_execution(old(self).store.recent(), plan_id@)
                &&& forall|i: int|
                    0 <= i < n && (#[trigger] p.ops[i]).action == Action::Stage
                        ==> final(self).fileops.staged().contains_key(p.ops[i].content_hash)
                &&& ran_well(old(self).fileops.present(), j1.subrange(j0.len() as int, j1.len() as int))
                &&& final(self).fileops.present() == ran_from(
                    old(self).fileops.present(),
                    j1.subrange(j0.len() as int, j1.len() as int),
                )
                &&& increasing_ids(j1.subrange(j0.len() as int, j1.len() as int))
                &&& final(self).fileops.staged() == exec_staged(
                    old(self).fileops.staged(),
                    j1.subrange(j0.len() as int, j1.len() as int),
                )
                &&& entries_of(j0, plan_id@).len() == 0 ==> entries_of(j1, plan_id@) == j1.subrange(
                    j0.len() as int,
                    j1.len() as int,
                )
            },
            r matches Err(GateError::PartialExecute { failed_op_id, completed, .. }) ==> {
                let p = old(self).store.plans()[plan_id@];
                let j0 = old(self).store.journal();
                let j1 = final(self).store.journal();
                &&& completed < p.ops.len()
                &&& failed_op_id@ == p.ops[completed as int].op_id
                &&& final(self).store.plans() == status_set(
                    old(self).store.plans(),
                    plan_id@,
                    PlanStatus::Executed,
                )
                &&& journal_extended(j0, j1, plan_id@, p.ops, completed + 1)
                &&& completed_from(j1, j0.len() as int, completed as int)
                &&& j1[j0.len() + completed].completed_at is None
                &&& final(self).store.recent() == after_execution(old(self).store.recent(), plan_id@)
                &&& ran_well(old(self).fileops.present(), j1.subrange(j0.len() as int, j0.len() + completed))
                &&& final(self).fileops.present() == ran_from(
                    old(self).fileops.present(),
                    j1.subrange(j0.len() as int, j0.len() + completed),
                )
                &&& final(self).fileops.staged() == exec_staged(
                    old(self).fileops.staged(),
                    j1.subrange(j0.len() as int, j0.len() + completed),
                )
                &&& all_landed(
                    old(self).fileops.present(),
                    j1.subrange(j0.len() as int, j0.len() + completed),
                    p.ops,
                )
                &&& p.ops[completed as int].action != Action::Stage ==> landing(
                    ran_from(old(self).fileops.present(), j1.subrange(j0.len() as int, j0.len() + completed)),
                    p.ops[completed as int],
                    j1[j0.len() + completed].to,
                )
                &&& p.ops[completed as int].action == Action::Stage ==> j1[j0.len() + completed].to
                    == p.ops[completed as int].from
            },
    {
        let plan = match self.store.get_plan(plan_id) {
            Some(p) => p,
            None => return Err(GateError::NoSuchPlan),
        };
        if plan.status != PlanStatus::Confirmed {
            return Err(GateError::NotConfirmed);
        }
        if !user_confirmed {
            return Err(GateError::NotUserConfirmed);
        }
        let ghost p = plan@;
        let ghost j0 = self.store.journal();
        let ghost old_plans = self.store.plans();
        let n = plan.ops.len();

        // Phase 1: the guard re-checks every operation; one refusal changes nothing.
        let mut i: usize = 0;
        while i < n
            invariant
                p == plan@,
                n == plan.ops.len(),
                p.ops == op_views(plan.ops@),
                old_plans == old(self).store.plans(),
                old_plans.contains_key(plan_id@),
                p == old_plans[plan_id@],
                p.status == PlanStatus::Confirmed,
                user_confirmed,
                self.store == old(self).store,
                self.store.well_formed(),
                self.fileops == old(self).fileops,
                self.guard == old(self).guard,
                self.seq_counter == old(self).seq_counter,
                0 <= i <= n,
                forall|j: int| 0 <= j < i ==> admitted(self.guard, #[trigger] p.ops[j]),
            decreases n - i,
        {
            let op = &plan.ops[i];
            assert(p.ops[i as int] == op@);
            match self.guard.check(op.from.as_str()) {
                Err(d) => {
                    assert(!admitted(self.guard, p.ops[i as int]));
                    assert(first_refused(self.guard, p.ops, i as int));
                    assert(refusal(self.guard, p.ops[i as int]) == d);
                    return Err(GateError::ScopeDenied { op_id: op.op_id.clone(), denial: d });
                },
                Ok(_) => {},
            }
            if op.action != Action::Stage {
                match self.guard.check(op.to.as_str()) {
                    Err(d) => {
                        assert(!admitted(self.guard, p.ops[i as int]));
                        assert(first_refused(self.guard, p.ops, i as int));
                        assert(refusal(self.guard, p.ops[i as int]) == d);
                        return Err(GateError::ScopeDenied { op_id: op.op_id.clone(), denial: d });
                    },
                    Ok(_) => {},
                }
            }
            i += 1;
        }

        // Phase 2: journal-first, one operation at a time.
        let mut outcome = ExecOutcome {
            plan_id: plan_id.to_string(),
            moved: 0,
            staged: 0,
            renamed: 0,
            entries: Vec::new(),
        };
        let mut k: usize = 0;
        let ghost pf0 = self.fileops.present();
        let ghost sf0 = self.fileops.staged();
        assert(self.store.journal().subrange(0, j0.len() as int) =~= j0);
        assert(p.ops.subrange(0, 0) =~= Seq::<OpV>::empty());
        assert(self.store.journal().subrange(j0.len() as int, j0.len() as int) =~= Seq::<EntryV>::empty());
        while k < n
            invariant
                p == plan@,
                n == plan.ops.len(),
                p.ops == op_views(plan.ops@),
                old_plans.contains_key(plan_id@),
                p == old_plans[plan_id@],
                p.status == PlanStatus::Confirmed,
                user_confirmed,
                all_admitted(old(self).guard, p.ops),
                old_plans == old(self).store.plans(),
                j0 == old(self).store.journal(),
                j0.len() + n < u64::MAX,
                0 <= k <= n,
                self.guard == old(self).guard,
                self.seq_counter == old(self).seq_counter,
                self.store.well_formed(),
                self.store.plans() == old_plans,
                journal_extended(j0, self.store.journal(), plan_id@, p.ops, k as int),
                completed_from(self.store.journal(), j0.len() as int, k as int),
                outcome.plan_id@ == plan_id@,
                outcome.entries@.len() == k,
                forall|i: int|
                    0 <= i < k ==> #[trigger] outcome.entries@[i] == self.store.journal()[j0.len() + i].entry_id,
                outcome.staged == stage_count(p.ops.subrange(0, k as int)),
                outcome.moved + outcome.renamed + outcome.staged == k,
                forall|i: int|
                    0 <= i < k && (#[trigger] p.ops[i]).action == Action::Stage
                        ==> self.fileops.staged().contains_key(p.ops[i].content_hash),
                pf0 == old(self).fileops.present(),
                ran_well(pf0, self.store.journal().subrange(j0.len() as int, j0.len() + k)),
                self.fileops.present() == ran_from(pf0, self.store.journal().subrange(j0.len() as int, j0.len() + k)),
                increasing_ids(self.store.journal().subrange(j0.len() as int, j0.len() + k)),
                sf0 == old(self).fileops.staged(),
                self.fileops.staged() == exec_staged(sf0, self.store.journal().subrange(j0.len() as int, j0.len() + k)),
                all_landed(pf0, self.store.journal().subrange(j0.len() as int, j0.len() + k), p.ops),
                outcome.renamed == renamed_count(pf0, self.store.journal().subrange(j0.len() as int, j0.len() + k), p.ops),
                self.store.recent() == old(self).store.recent(),
            decreases n - k,
        {
            let op = &plan.ops[k];
            assert(p.ops[k as int] == op@);
            let ts = now();
            let done_count = outcome.moved + outcome.renamed + outcome.staged;
            let ghost j = self.store.journal();
            proof {
                assert(p.ops.subrange(0, k + 1).drop_last() =~= p.ops.subrange(0, k as int));
                crate::risk::lemma_counts_bounded(p.ops.subrange(0, k as int));
            }
            if op.action != Action::Stage {
                let (final_to, renamed) = self.resolve_conflict(op.to.as_str());
                let created_dirs = self.dirs_to_create(final_to.as_str());
                let ghost pres = self.fileops.present();
                let ghost cd = texts(created_dirs@);
                proof {
                    lemma_missing_dirs_absent(pres, final_to@);
                }
                let entry = JournalEntry {
                    entry_id: 0,
                    plan_id: plan_id.to_string(),
                    op_id: op.op_id.clone(),
                    action: op.action,
                    content_hash: op.content_hash.clone(),
                    from: op.from.clone(),
                    to: final_to.clone(),
                    executed_at: ts,
                    completed_at: None,
                    undoable: true,
                    undone_at: None,
                    created_dirs,
                };
                let entry_id = self.store.append_journal(entry);
                let ghost j_a = self.store.journal();
                proof {
                    assert(records(j_a[j0.len() + k], plan_id@, p.ops[k as int]));
                }
                match self.fileops.move_file(op.from.as_str(), final_to.as_str()) {
                    Err(e) => {
                        self.store.set_plan_status(plan_id, PlanStatus::Executed);
                        proof {
                            assert(j_a.subrange(0, j0.len() as int) =~= j.subrange(0, j0.len() as int));
                            assert(j_a.subrange(j0.len() as int, j0.len() + k) =~= j.subrange(j0.len() as int, j0.len() + k));
                            assert forall|i: int| 0 <= i < k + 1 implies records(#[trigger] j_a[j0.len() + i], plan_id@, p.ops[i]) by {
                                if i < k {
                                    assert(j_a[j0.len() + i] == j[j0.len() + i]);
                                }
                            }
                            assert forall|i: int| 0 <= i < k implies (#[trigger] j_a[j0.len() + i]).completed_at is Some by {
                                assert(j_a[j0.len() + i] == j[j0.len() + i]);
                            }
                        }
                        return Err(
                            GateError::PartialExecute {
                                failed_op_id: op.op_id.clone(),
                                message: e,
                                completed: done_count,
                            },
                        );
                    },
                    Ok(()) => {},
                }
                self.store.complete_journal(entry_id, now());
                proof {
                    let j_c = self.store.journal();
                    assert forall|x: int| 0 <= x < j.len() implies j_c[x] == j[x] by {
                        assert(j_a[x] == j[x]);
                    }
                    assert(j_c.subrange(0, j0.len() as int) =~= j0);
                    assert forall|i: int| 0 <= i < k + 1 implies records(#[trigger] j_c[j0.len() + i], plan_id@, p.ops[i]) by {
                        if i < k {
                            assert(j_c[j0.len() + i] == j[j0.len() + i]);
                        }
                    }
                    assert forall|i: int| 0 <= i < k + 1 implies (#[trigger] j_c[j0.len() + i]).completed_at is Some by {
                        if i < k {
                            assert(j_c[j0.len() + i] == j[j0.len() + i]);
                        }
                    }
                }
                proof {
                    let j_c = self.store.journal();
                    let old_s = j.subrange(j0.len() as int, j0.len() + k);
                    let new_s = j_c.subrange(j0.len() as int, j0.len() + k + 1);
                    assert(new_s.drop_last() =~= old_s);
                    let e = new_s.last();
                    assert(e == j_c[j0.len() + k]);
                    assert(e.from == op.from@ && e.to == final_to@ && e.action == op.action && e.created_dirs == cd);
                    assert(ran_on(pres, e));
                    assert(self.fileops.present() =~= exec_step(pres, e));
                    assert forall|a: int, b: int| 0 <= a < b < new_s.len() implies #[trigger] new_s[a].entry_id < #[trigger] new_s[b].entry_id by {
                        assert(new_s[a] == j[j0.len() + a]);
                        if b < new_s.len() - 1 {
                            assert(new_s[a] == old_s[a] && new_s[b] == old_s[b]);
                        }
                    }
                }
                let ghost j_c = self.store.journal();
                let ghost old_entries = outcome.entries@;
                outcome.entries.push(entry_id);
                proof {
                    assert forall|i: int| 0 <= i < k + 1 implies #[trigger] outcome.entries@[i] == j_c[j0.len() + i].entry_id by {
                        if i < k {
                            assert(outcome.entries@[i] == old_entries[i]);
                            assert(j_c[j0.len() + i] == j[j0.len() + i]);
                        }
                    }
                }
                if renamed || op.action == Action::Rename {
                    outcome.renamed += 1;
                } else {
                    outcome.moved += 1;
                }
            } else {
                let entry = JournalEntry {
                    entry_id: 0,
                    plan_id: plan_id.to_string(),
                    op_id: op.op_id.clone(),
                    action: Action::Stage,
                    content_hash: op.content_hash.clone(),
                    from: op.from.clone(),
                    to: op.from.clone(),
                    executed_at: ts,
                    completed_at: None,
                    undoable: true,
                    undone_at: None,
                    created_dirs: Vec::new(),
                };
                let entry_id = self.store.append_journal(entry);
                let ghost j_a = self.store.journal();
                let ghost pres = self.fileops.present();
                let staged = match self.fileops.stage_file(op.from.as_str(), op.content_hash.as_str()) {
                    Err(e) => {
                        self.store.set_plan_status(plan_id, PlanStatus::Executed);
                        proof {
                            assert(j_a.subrange(0, j0.len() as int) =~= j.subrange(0, j0.len() as int));
                            assert(j_a.subrange(j0.len() as int, j0.len() + k) =~= j.subrange(j0.len() as int, j0.len() + k));
                            assert forall|i: int| 0 <= i < k + 1 implies records(#[trigger] j_a[j0.len() + i], plan_id@, p.ops[i]) by {
                                if i < k {
                                    assert(j_a[j0.len() + i] == j[j0.len() + i]);
                                }
                            }
                            assert forall|i: int| 0 <= i < k implies (#[trigger] j_a[j0.len() + i]).completed_at is Some by {
                                assert(j_a[j0.len() + i] == j[j0.len() + i]);
                            }
                        }
                        return Err(
                            GateError::PartialExecute {
                                failed_op_id: op.op_id.clone(),
                                message: e,
                                completed: done_count,
                            },
                        );
                    },
                    Ok(sp) => sp,
                };
                let ghost spv = staged@;
                self.store.update_journal_to(entry_id, staged);
                self.store.complete_journal(entry_id, now());
                proof {
                    let j_c = self.store.journal();
                    assert forall|x: int| 0 <= x < j.len() implies j_c[x] == j[x] by {
                        assert(j_a[x] == j[x]);
                    }
                    assert(j_c.subrange(0, j0.len() as int) =~= j0);
                    assert forall|i: int| 0 <= i < k + 1 implies records(#[trigger] j_c[j0.len() + i], plan_id@, p.ops[i]) by {
                        if i < k {
                            assert(j_c[j0.len() + i] == j[j0.len() + i]);
                        }
                    }
                    assert forall|i: int| 0 <= i < k + 1 implies (#[trigger] j_c[j0.len() + i]).completed_at is Some by {
                        if i < k {
                            assert(j_c[j0.len() + i] == j[j0.len() + i]);
                        }
                    }
                }
                proof {
                    let j_c = self.store.journal();
                    let old_s = j.subrange(j0.len() as int, j0.len() + k);
                    let new_s = j_c.subrange(j0.len() as int, j0.len() + k + 1);
                    assert(new_s.drop_last() =~= old_s);
                    let e = new_s.last();
                    assert(e == j_c[j0.len() + k]);
                    assert(e.from == op.from@ && e.to == spv && e.action == Action::Stage);
                    assert(ran_on(pres, e));
                    assert(self.fileops.present() =~= exec_step(pres, e));
                    assert forall|a: int, b: int| 0 <= a < b < new_s.len() implies #[trigger] new_s[a].entry_id < #[trigger] new_s[b].entry_id by {
                        assert(new_s[a] == j[j0.len() + a]);
                        if b < new_s.len() - 1 {
                            assert(new_s[a] == old_s[a] && new_s[b] == old_s[b]);
                        }
                    }
                }
                let ghost j_c = self.store.journal();
                let ghost old_entries = outcome.entries@;
                outcome.entries.push(entry_id);
                proof {
                    assert forall|i: int| 0 <= i < k + 1 implies #[trigger] outcome.entries@[i] == j_c[j0.len() + i].entry_id by {
                        if i < k {
                            assert(outcome.entries@[i] == old_entries[i]);
                            assert(j_c[j0.len() + i] == j[j0.len() + i]);
                        }
                    }
                }
                outcome.staged += 1;
            }
            k += 1;
        }
        self.store.set_plan_status(plan_id, PlanStatus::Executed);
        assert(p.ops.subrange(0, n as int) =~= p.ops);
        proof {
            let j1 = self.store.journal();
            let new_s = j1.subrange(j0.len() as int, j1.len() as int);
            assert(j1 =~= j0 + new_s);
            if entries_of(j0, plan_id@).len() == 0 {
                assert forall|i: int| 0 <= i < new_s.len() implies (#[trigger] new_s[i]).plan_id == plan_id@ by {
                    assert(records(j1[j0.len() + i], plan_id@, p.ops[i]));
                }
                lemma_entries_of_append(j0, new_s, plan_id@);
            }
        }
        Ok(outcome)
    }

    /// Undoes an executed plan among the `UNDO_WINDOW` most recently executed:
    /// in reverse order of execution, moves go back and quarantined files are
    /// restored; entries never confirmed (in flight) or already undone are
    /// skipped; folders the move created are removed if empty.
    pub fn undo(&mut self, plan_id: &str) -> (r: Result<(), GateError>)
        requires
            old(self).store.well_formed(),
        ensures
            final(self).store.well_formed(),
            final(self).guard == old(self).guard,
            final(self).issued() == old(self).issued(),
            !old(self).store.plans().contains_key(plan_id@) <==> r == Err::<(), GateError>(
                GateError::NoSuchPlan,
            ),
            old(self).store.plans().contains_key(plan_id@) && old(self).store.plans()[plan_id@].status
                != PlanStatus::Executed <==> r == Err::<(), GateError>(GateError::NotExecuted),
            old(self).store.plans().contains_key(plan_id@) && old(self).store.plans()[plan_id@].status
                == PlanStatus::Executed && !first_n(old(self).store.recent(), UNDO_WINDOW as int).contains(
                plan_id@,
            ) <==> r == Err::<(), GateError>(GateError::OutOfUndoWindow),
            r == Err::<(), GateError>(GateError::NoSuchPlan) || r == Err::<(), GateError>(
                GateError::NotExecuted,
            ) || r == Err::<(), GateError>(GateError::OutOfUndoWindow) ==> final(self).store
                == old(self).store && final(self).fileops == old(self).fileops,
            r is Ok || r matches Err(GateError::FileOp { .. }) || r == Err::<(), GateError>(
                GateError::NoSuchPlan,
            ) || r == Err::<(), GateError>(GateError::NotExecuted) || r == Err::<(), GateError>(
                GateError::OutOfUndoWindow,
            ),
            r is Ok ==> {
                &&& final(self).store.plans() == status_set(
                    old(self).store.plans(),
                    plan_id@,
                    PlanStatus::Undone,
                )
                &&& undo_applied(
                    old(self).store.journal(),
                    final(self).store.journal(),
                    undo_ids(entries_of(old(self).store.journal(), plan_id@)),
                )
            },
            r matches Err(GateError::FileOp { .. }) ==> {
                &&& final(self).store.plans() == old(self).store.plans()
                &&& exists|m: Set<u64>|
                    m.subset_of(undo_ids(entries_of(old(self).store.journal(), plan_id@)))
                        && #[trigger] undo_applied(
                        old(self).store.journal(),
                        final(self).store.journal(),
                        m,
                    )
            },
            r is Ok && increasing_ids(entries_of(old(self).store.journal(), plan_id@)) && staged_agrees(
                old(self).fileops.staged(),
                entries_of(old(self).store.journal(), plan_id@),
            ) ==> undo_lower(
                old(self).fileops.present(),
                entries_of(old(self).store.journal(), plan_id@),
            ).subset_of(final(self).fileops.present()) && final(self).fileops.present().subset_of(
                undo_upper(old(self).fileops.present(), entries_of(old(self).store.journal(), plan_id@)),
            ),
            r is Ok ==> final(self).fileops.staged() == old(self).fileops.staged().remove_keys(
                live_stage_hashes(entries_of(old(self).store.journal(), plan_id@)),
            ),
            r matches Err(GateError::FileOp { op_id, .. }) ==> exists|i: int|
                0 <= i < entries_of(old(self).store.journal(), plan_id@).len() && live(
                    #[trigger] entries_of(old(self).store.journal(), plan_id@)[i],
                ) && entries_of(old(self).store.journal(), plan_id@)[i].op_id == op_id@,
            old(self).store.plans().contains_key(plan_id@) && old(self).store.plans()[plan_id@].status
                == PlanStatus::Executed && first_n(old(self).store.recent(), UNDO_WINDOW as int).contains(
                plan_id@,
            ) && (forall|i: int|
                0 <= i < entries_of(old(self).store.journal(), plan_id@).len() ==> !live(
                    #[trigger] entries_of(old(self).store.journal(), plan_id@)[i],
                )) ==> r is Ok,
            final(self).store.recent() == old(self).store.recent(),
    {
        let plan = match self.store.get_plan(plan_id) {
            Some(p) => p,
            None => return Err(GateError::NoSuchPlan),
        };
        if plan.status != PlanStatus::Executed {
            return Err(GateError::NotExecuted);
        }
        let recent = self.store.recent_executed_plan_ids(UNDO_WINDOW);
        if !contains_text(&recent, plan_id) {
            return Err(GateError::OutOfUndoWindow);
        }
        assert(first_n(self.store.recent(), UNDO_WINDOW as int).contains(plan_id@));
        let entries = self.store.journal_for_plan(plan_id);
        let ghost es = entry_views(entries@);
        let ghost j0 = self.store.journal();
        let ghost old_plans = self.store.plans();
        let ghost mut marked: Set<u64> = Set::empty();
        let n = entries.len();
        let mut done: Vec<bool> = Vec::new();
        while done.len() < n
            invariant
                done.len() <= n,
                forall|i: int| 0 <= i < done.len() ==> !done@[i],
            decreases n - done.len(),
        {
            done.push(false);
        }
        proof {
            lemma_count_true_none(done@);
        }
        let mut step: usize = 0;
        assert(undo_applied(j0, self.store.journal(), marked));
        let ghost pf0 = self.fileops.present();
        let ghost sf0 = self.fileops.staged();
        let ghost cond = increasing_ids(es) && staged_agrees(sf0, es);
        let ghost mut lb: Set<Seq<char>> = pf0;
        let ghost mut ub: Set<Seq<char>> = pf0;
        proof {
            lemma_restored_none(es, done@);
            assert(sf0.remove_keys(Set::<Seq<char>>::empty()) =~= sf0);
        }
        assert(es.subrange(0, n as int) =~= es);
        while step < n
            invariant
                pf0 == old(self).fileops.present(),
                cond == (increasing_ids(es) && staged_agrees(sf0, es)),
                sf0 == old(self).fileops.staged(),
                cond ==> staged_agrees(self.fileops.staged(), es.subrange(0, n - step)),
                cond ==> forall|i: int| 0 <= i < n ==> (#[trigger] done@[i] <==> i >= n - step),
                cond ==> lb.subset_of(self.fileops.present()),
                cond ==> undo_lower(pf0, es) == undo_lower(lb, es.subrange(0, n - step)),
                cond ==> self.fileops.present().subset_of(ub),
                cond ==> undo_upper(pf0, es) == undo_upper(ub, es.subrange(0, n - step)),
                self.fileops.staged() == sf0.remove_keys(restored_hashes(es, done@)),
                self.store.recent() == old(self).store.recent(),
                es == entry_views(entries@),
                es == entries_of(j0, plan_id@),
                n == entries.len(),
                done.len() == n,
                count_true(done@) == step,
                step <= n,
                forall|i: int|
                    0 <= i < n && #[trigger] done@[i] && es[i].completed_at is Some
                        && es[i].undone_at is None ==> marked.contains(es[i].entry_id),
                marked.subset_of(undo_ids(es)),
                undo_applied(j0, self.store.journal(), marked),
                j0 == old(self).store.journal(),
                old_plans == old(self).store.plans(),
                old_plans.contains_key(plan_id@),
                old_plans[plan_id@].status == PlanStatus::Executed,
                first_n(old(self).store.recent(), UNDO_WINDOW as int).contains(plan_id@),
                self.store.plans() == old_plans,
                self.store.well_formed(),
                self.guard == old(self).guard,
                self.seq_counter == old(self).seq_counter,
            decreases n - step,
        {
            proof {
                lemma_count_true_bound(done@);
            }
            let best = pick_latest(&entries, &done);
            let entry = &entries[best];
            assert(es[best as int] == entry@);
            proof {
                if cond {
                    let last = n - step - 1;
                    assert(!done@[last]);
                    assert(es[last].entry_id == entries@[last].entry_id);
                    assert(es[best as int].entry_id == entries@[best as int].entry_id);
                    if (best as int) < last {
                        assert(es[best as int].entry_id < es[last].entry_id);
                    }
                    assert(best as int == last);
                    let sub = es.subrange(0, n - step);
                    assert(sub.last() == es[best as int]);
                    assert(sub.drop_last() =~= es.subrange(0, n - step - 1));
                }
            }
            let ghost lb_before = lb;
            let ghost ub_before = ub;
            let ghost st_before = self.fileops.staged();
            if entry.undone_at.is_none() && entry.completed_at.is_some() {
                match entry.action {
                    Action::Stage => {
                        match self.fileops.restore_file(entry.content_hash.as_str(), entry.from.as_str()) {
                            Err(e) => {
                                assert(live(es[best as int]) && es[best as int].op_id == entry.op_id@);
                                return Err(GateError::FileOp { op_id: entry.op_id.clone(), message: e });
                            },
                            Ok(()) => {},
                        }
                        proof {
                            if cond {
                                let sub = es.subrange(0, n - step);
                                assert(last_staged_to(sub, entry.content_hash@) == Some(entry.to@));
                                assert(st_before[entry.content_hash@] == entry.to@);
                            }
                        }
                    },
                    _ => {
                        match self.fileops.move_file(entry.to.as_str(), entry.from.as_str()) {
                            Err(e) => {
                                assert(live(es[best as int]) && es[best as int].op_id == entry.op_id@);
                                return Err(GateError::FileOp { op_id: entry.op_id.clone(), message: e });
                            },
                            Ok(()) => {},
                        }
                        let ghost cd = texts(entry.created_dirs@);
                        let ghost lbm = lb_before.remove(entry.to@).insert(entry.from@);
                        assert(cd.subrange(0, 0) =~= Seq::<Seq<char>>::empty());
                        assert(lbm.difference(cd.subrange(0, 0).to_set()) =~= lbm);
                        let mut d: usize = 0;
                        while d < entry.created_dirs.len()
                            invariant
                                0 <= d <= entry.created_dirs.len(),
                                cd == texts(entry.created_dirs@),
                                self.store.well_formed(),
                                self.store.plans() == old_plans,
                                undo_applied(j0, self.store.journal(), marked),
                                self.guard == old(self).guard,
                                self.seq_counter == old(self).seq_counter,
                                self.fileops.staged() == st_before,
                                self.store.recent() == old(self).store.recent(),
                                cond ==> self.fileops.present().subset_of(
                                    ub_before.remove(entry.to@).insert(entry.from@).union(ancestors(entry.from@)),
                                ),
                                cond ==> lbm.difference(cd.subrange(0, d as int).to_set()).subset_of(
                                    self.fileops.present(),
                                ),
                            decreases entry.created_dirs.len() - d,
                        {
                            let ghost before_d = cd.subrange(0, d as int);
                            let _removed = self.fileops.remove_empty_dir(entry.created_dirs[d].as_str());
                            proof {
                                assert(cd.subrange(0, d + 1) =~= before_d.push(cd[d as int]));
                                before_d.lemma_push_to_set_commute(cd[d as int]);
                                assert(cd[d as int] == entry.created_dirs@[d as int]@);
                            }
                            d += 1;
                        }
                        proof {
                            assert(cd.subrange(0, cd.len() as int) =~= cd);
                        }
                    },
                }
                let ghost j1 = self.store.journal();
                proof {
                    lb = back_step(lb_before, es[best as int]);
                }
                self.store.mark_undone(entry.entry_id, now());
                proof {
                    let id = entry.entry_id;
                    let j2 = self.store.journal();
                    let m2 = marked.insert(id);
                    assert forall|k: int| 0 <= k < j0.len() implies {
                        if m2.contains(#[trigger] j0[k].entry_id) {
                            &&& j2[k].undone_at is Some
                            &&& j2[k] == EntryV { undone_at: j2[k].undone_at, ..j0[k] }
                        } else {
                            j2[k] == j0[k]
                        }
                    } by {
                        assert(j1[k].entry_id == j0[k].entry_id);
                    }
                    assert(undo_ids(es).contains(id)) by {
                        assert(es[best as int].entry_id == id);
                    }
                    marked = m2;
                }
            }
            proof {
                if cond {
                    lemma_agrees_drop_last(st_before, es.subrange(0, n - step));
                }
                ub = back_upper(ub_before, es[best as int]);
            }
            let ghost before = done@;
            done.set(best, true);
            proof {
                lemma_restored_step(es, before, best as int);
                if live(es[best as int]) && es[best as int].action == Action::Stage {
                    assert(sf0.remove_keys(restored_hashes(es, before).insert(es[best as int].content_hash))
                        =~= st_before.remove(es[best as int].content_hash));
                }
                lemma_count_true_set(before, best as int);
                assert(done@ == before.update(best as int, true));
                if cond {
                    assert forall|i: int| 0 <= i < n implies (#[trigger] done@[i] <==> i >= n - (step + 1)) by {
                        if i != best as int {
                            assert(done@[i] == before[i]);
                        }
                    }
                }
            }
            step += 1;
        }
        proof {
            if cond {
                assert(es.subrange(0, 0) =~= Seq::<EntryV>::empty());
            }
        }
        proof {
            lemma_count_true_bound(done@);
            assert forall|id: u64| undo_ids(es).contains(id) implies marked.contains(id) by {
                let i = choose|i: int|
                    0 <= i < es.len() && es[i].completed_at is Some && es[i].undone_at is None
                        && es[i].entry_id == id;
                assert(done@[i]);
            }
            assert(marked =~= undo_ids(es));
            lemma_restored_all(es, done@);
        }
        self.store.set_plan_status(plan_id, PlanStatus::Undone);
        Ok(())
    }
}


} // verus!
