//! In-memory doubles of the store and the file operations, for tests and
//! adapter development. Not for production use.

use vstd::prelude::*;
use crate::model::{
    EntryV, JournalEntry, Plan, PlanStatus, PlanV, entry_views, str_eq, texts,
};
use crate::ops::{
    FileOps, Store, completed_in, entries_of, first_n, inflight, retargeted_in, status_set,
    undone_in, with_entry_id, with_status, without,
};
use crate::path::{ancestors, is_under, under, join_of, join_path, opt_seq, parent, parent_of, lemma_parent_shorter};
use crate::text::{push_decimal, push_str};

verus! {

/// The plan map held by a list of plans: later plans with the same id win.
pub open spec fn plan_map(v: Seq<PlanV>) -> Map<Seq<char>, PlanV>
    decreases v.len(),
{
    if v.len() == 0 {
        Map::empty()
    } else {
        plan_map(v.drop_last()).insert(v.last().plan_id, v.last())
    }
}

/// The values of a list of plans.
pub open spec fn plan_views(v: Seq<Plan>) -> Seq<PlanV> {
    v.map_values(|p: Plan| p@)
}

/// No two plans share an id.
pub open spec fn unique_ids(v: Seq<PlanV>) -> bool {
    forall|i: int, j: int| 0 <= i < j < v.len() ==> v[i].plan_id != v[j].plan_id
}

proof fn lemma_plan_map_keys(v: Seq<PlanV>, k: Seq<char>)
    ensures
        plan_map(v).contains_key(k) <==> exists|i: int| 0 <= i < v.len() && v[i].plan_id == k,
    decreases v.len(),
{
    if v.len() > 0 {
        lemma_plan_map_keys(v.drop_last(), k);
        if plan_map(v.drop_last()).contains_key(k) {
            let i = choose|i: int| 0 <= i < v.drop_last().len() && v.drop_last()[i].plan_id == k;
            assert(v[i].plan_id == k);
        }
        if exists|i: int| 0 <= i < v.len() && v[i].plan_id == k {
            let i = choose|i: int| 0 <= i < v.len() && v[i].plan_id == k;
            if i < v.len() - 1 {
                assert(v.drop_last()[i].plan_id == k);
            }
        }
    }
}

proof fn lemma_plan_map_value(v: Seq<PlanV>, i: int)
    requires
        unique_ids(v),
        0 <= i < v.len(),
    ensures
        plan_map(v).contains_key(v[i].plan_id),
        plan_map(v)[v[i].plan_id] == v[i],
    decreases v.len(),
{
    if i < v.len() - 1 {
        let w = v.drop_last();
        assert(unique_ids(w));
        assert(w[i] == v[i]);
        lemma_plan_map_value(w, i);
    }
}

proof fn lemma_filter_step(
    kept: Seq<Seq<char>>,
    pre: Seq<Seq<char>>,
    x: Seq<char>,
    p: Seq<char>,
    kept2: Seq<Seq<char>>,
)
    requires
        forall|q: Seq<char>| kept.contains(q) <==> (q != p && pre.contains(q)),
        kept2 == (if x != p {
            kept.push(x)
        } else {
            kept
        }),
    ensures
        forall|q: Seq<char>| kept2.contains(q) <==> (q != p && pre.push(x).contains(q)),
{
    assert forall|q: Seq<char>| kept2.contains(q) <==> (q != p && pre.push(x).contains(q)) by {
        if kept2.contains(q) {
            let k = choose|k: int| 0 <= k < kept2.len() && kept2[k] == q;
            if k < kept.len() {
                assert(kept.contains(q));
                let m = choose|m: int| 0 <= m < pre.len() && pre[m] == q;
                assert(pre.push(x)[m] == q);
            } else {
                assert(pre.push(x)[pre.len() as int] == q);
            }
        }
        if q != p && pre.push(x).contains(q) {
            let k = choose|k: int| 0 <= k < pre.push(x).len() && pre.push(x)[k] == q;
            if k < pre.len() {
                assert(pre.contains(q));
                let m = choose|m: int| 0 <= m < kept.len() && kept[m] == q;
                assert(kept2[m] == q);
            } else {
                assert(kept2[kept.len() as int] == q);
            }
        }
    }
}

/// In-memory store.
pub struct FakeStore {
    plans: Vec<Plan>,
    /// Executed plan ids (for the undo window); newest first.
    executed_order: Vec<String>,
    journal: Vec<JournalEntry>,
    next_entry: u64,
}

impl FakeStore {
    /// An empty store.
    pub fn new() -> (s: FakeStore)
        ensures
            s.well_formed(),
            s.plans() == Map::<Seq<char>, PlanV>::empty(),
            s.journal() == Seq::<EntryV>::empty(),
            s.recent() == Seq::<Seq<char>>::empty(),
    {
        let s = FakeStore {
            plans: Vec::new(),
            executed_order: Vec::new(),
            journal: Vec::new(),
            next_entry: 0,
        };
        assert(plan_views(s.plans@) =~= Seq::<PlanV>::empty());
        assert(entry_views(s.journal@) =~= Seq::<EntryV>::empty());
        assert(texts(s.executed_order@) =~= Seq::<Seq<char>>::empty());
        s
    }

    fn find_plan(&self, plan_id: &str) -> (r: Option<usize>)
        ensures
            match r {
                Some(i) => i < self.plans.len() && self.plans@[i as int]@.plan_id == plan_id@,
                None => forall|i: int| 0 <= i < self.plans.len() ==> self.plans@[i]@.plan_id != plan_id@,
            },
    {
        let mut i: usize = 0;
        while i < self.plans.len()
            invariant
                0 <= i <= self.plans.len(),
                forall|j: int| 0 <= j < i ==> self.plans@[j]@.plan_id != plan_id@,
            decreases self.plans.len() - i,
        {
            if str_eq(self.plans[i].plan_id.as_str(), plan_id) {
                return Some(i);
            }
            i += 1;
        }
        None
    }

    fn find_entry(&self, entry_id: u64) -> (r: Option<usize>)
        ensures
            match r {
                Some(i) => i < self.journal.len() && self.journal@[i as int].entry_id == entry_id,
                None => forall|i: int| 0 <= i < self.journal.len() ==> self.journal@[i].entry_id != entry_id,
            },
    {
        let mut i: usize = 0;
        while i < self.journal.len()
            invariant
                0 <= i <= self.journal.len(),
                forall|j: int| 0 <= j < i ==> self.journal@[j].entry_id != entry_id,
            decreases self.journal.len() - i,
        {
            if self.journal[i].entry_id == entry_id {
                return Some(i);
            }
            i += 1;
        }
        None
    }
}

impl Default for FakeStore {
    fn default() -> (s: FakeStore)
        ensures
            s.well_formed(),
            s.plans() == Map::<Seq<char>, PlanV>::empty(),
            s.journal() == Seq::<EntryV>::empty(),
            s.recent() == Seq::<Seq<char>>::empty(),
    {
        FakeStore::new()
    }
}

impl Store for FakeStore {
    closed spec fn plans(&self) -> Map<Seq<char>, PlanV> {
        plan_map(plan_views(self.plans@))
    }

    closed spec fn journal(&self) -> Seq<EntryV> {
        entry_views(self.journal@)
    }

    closed spec fn recent(&self) -> Seq<Seq<char>> {
        texts(self.executed_order@)
    }

    closed spec fn well_formed(&self) -> bool {
        &&& unique_ids(plan_views(self.plans@))
        &&& self.next_entry == self.journal.len()
        &&& forall|i: int| 0 <= i < self.journal.len() ==> #[trigger] self.journal@[i].entry_id == i + 1
    }

    fn save_plan(&mut self, plan: Plan) {
        let ghost old_v = plan_views(self.plans@);
        let ghost pv = plan@;
        match self.find_plan(plan.plan_id.as_str()) {
            Some(i) => {
                assert(old_v[i as int].plan_id == pv.plan_id);
                self.plans.set(i, plan);
                proof {
                    let v = plan_views(self.plans@);
                    assert(v =~= old_v.update(i as int, pv));
                    assert(unique_ids(v)) by {
                        assert forall|a: int, b: int| 0 <= a < b < v.len() implies v[a].plan_id != v[b].plan_id by {
                            assert(old_v[a].plan_id == v[a].plan_id);
                            assert(old_v[b].plan_id == v[b].plan_id);
                        }
                    }
                    assert forall|k: Seq<char>| #[trigger] plan_map(v).contains_key(k) == plan_map(old_v).insert(pv.plan_id, pv).contains_key(k) by {
                        lemma_plan_map_keys(v, k);
                        lemma_plan_map_keys(old_v, k);
                        if plan_map(old_v).contains_key(k) {
                            let j = choose|j: int| 0 <= j < old_v.len() && old_v[j].plan_id == k;
                            assert(v[j].plan_id == k);
                        }
                        if plan_map(v).contains_key(k) {
                            let j = choose|j: int| 0 <= j < v.len() && v[j].plan_id == k;
                            assert(old_v[j].plan_id == k);
                        }
                        if k == pv.plan_id {
                            assert(v[i as int].plan_id == k);
                        }
                    }
                    assert forall|k: Seq<char>| #[trigger] plan_map(v).contains_key(k) implies plan_map(v)[k] == plan_map(old_v).insert(pv.plan_id, pv)[k] by {
                        lemma_plan_map_keys(v, k);
                        let j = choose|j: int| 0 <= j < v.len() && v[j].plan_id == k;
                        lemma_plan_map_value(v, j);
                        if j != i {
                            lemma_plan_map_value(old_v, j);
                        }
                    }
                    assert(plan_map(v) =~= plan_map(old_v).insert(pv.plan_id, pv));
                }
            },
            None => {
                self.plans.push(plan);
                proof {
                    let v = plan_views(self.plans@);
                    assert(v =~= old_v.push(pv));
                    assert(v.drop_last() =~= old_v);
                    assert(unique_ids(v)) by {
                        assert forall|a: int, b: int| 0 <= a < b < v.len() implies v[a].plan_id != v[b].plan_id by {
                            if b == v.len() - 1 {
                                assert(old_v[a] == self.plans@[a]@);
                            }
                        }
                    }
                }
            },
        }
    }

    fn get_plan(&self, plan_id: &str) -> (r: Option<Plan>) {
        let ghost v = plan_views(self.plans@);
        match self.find_plan(plan_id) {
            Some(i) => {
                proof {
                    assert(v[i as int] == self.plans@[i as int]@);
                    lemma_plan_map_value(v, i as int);
                }
                Some(self.plans[i].dup())
            },
            None => {
                proof {
                    lemma_plan_map_keys(v, plan_id@);
                    if plan_map(v).contains_key(plan_id@) {
                        let j = choose|j: int| 0 <= j < v.len() && v[j].plan_id == plan_id@;
                        assert(v[j] == self.plans@[j]@);
                    }
                }
                None
            },
        }
    }

    fn set_plan_status(&mut self, plan_id: &str, status: PlanStatus) {
        let ghost old_v = plan_views(self.plans@);
        match self.find_plan(plan_id) {
            Some(i) => {
                let mut p = self.plans[i].dup();
                p.status = status;
                let ghost pv = p@;
                self.plans.set(i, p);
                proof {
                    let v = plan_views(self.plans@);
                    assert(old_v[i as int] == old(self).plans@[i as int]@);
                    lemma_plan_map_value(old_v, i as int);
                    assert(pv == with_status(old_v[i as int], status));
                    assert(v =~= old_v.update(i as int, pv));
                    assert(unique_ids(v)) by {
                        assert forall|a: int, b: int| 0 <= a < b < v.len() implies v[a].plan_id != v[b].plan_id by {
                            assert(old_v[a].plan_id == v[a].plan_id);
                            assert(old_v[b].plan_id == v[b].plan_id);
                        }
                    }
                    assert forall|k: Seq<char>| #[trigger] plan_map(v).contains_key(k) == plan_map(old_v).insert(pv.plan_id, pv).contains_key(k) by {
                        lemma_plan_map_keys(v, k);
                        lemma_plan_map_keys(old_v, k);
                        if plan_map(old_v).contains_key(k) {
                            let j = choose|j: int| 0 <= j < old_v.len() && old_v[j].plan_id == k;
                            assert(v[j].plan_id == k);
                        }
                    }
                    assert forall|k: Seq<char>| #[trigger] plan_map(v).contains_key(k) implies plan_map(v)[k] == plan_map(old_v).insert(pv.plan_id, pv)[k] by {
                        lemma_plan_map_keys(v, k);
                        let j = choose|j: int| 0 <= j < v.len() && v[j].plan_id == k;
                        lemma_plan_map_value(v, j);
                        if j != i {
                            lemma_plan_map_value(old_v, j);
                        }
                    }
                    assert(plan_map(v) =~= plan_map(old_v).insert(pv.plan_id, pv));
                }
            },
            None => {
                proof {
                    lemma_plan_map_keys(old_v, plan_id@);
                    if plan_map(old_v).contains_key(plan_id@) {
                        let j = choose|j: int| 0 <= j < old_v.len() && old_v[j].plan_id == plan_id@;
                        assert(old_v[j] == self.plans@[j]@);
                    }
                }
            },
        }
        if status == PlanStatus::Executed {
            let ghost order = texts(self.executed_order@);
            let mut kept: Vec<String> = Vec::new();
            kept.push(plan_id.to_string());
            let mut i: usize = 0;
            assert(order.subrange(0, 0) =~= Seq::<Seq<char>>::empty());
            assert(texts(kept@) =~= seq![plan_id@] + without(order.subrange(0, 0), plan_id@));
            while i < self.executed_order.len()
                invariant
                    0 <= i <= self.executed_order.len(),
                    order == texts(self.executed_order@),
                    texts(kept@) == seq![plan_id@] + without(order.subrange(0, i as int), plan_id@),
                decreases self.executed_order.len() - i,
            {
                let ghost before = kept@;
                proof {
                    assert(order.subrange(0, i + 1).drop_last() =~= order.subrange(0, i as int));
                    assert(order.subrange(0, i + 1).last() == self.executed_order@[i as int]@);
                }
                if !str_eq(self.executed_order[i].as_str(), plan_id) {
                    kept.push(self.executed_order[i].clone());
                    assert(texts(kept@) =~= texts(before).push(order[i as int]));
                }
                i += 1;
            }
            assert(order.subrange(0, order.len() as int) =~= order);
            self.executed_order = kept;
        }
    }

    fn append_journal(&mut self, entry: JournalEntry) -> (id: u64) {
        self.next_entry += 1;
        let mut e = entry;
        e.entry_id = self.next_entry;
        let ghost ev = e@;
        let ghost before = self.journal@;
        self.journal.push(e);
        proof {
            assert(entry_views(self.journal@) =~= entry_views(before).push(ev));
            assert forall|i: int| 0 <= i < self.journal.len() implies #[trigger] self.journal@[i].entry_id == i + 1 by {
                if i < before.len() {
                    assert(self.journal@[i] == before[i]);
                }
            }
            assert forall|i: int| 0 <= i < entry_views(before).len() implies #[trigger] entry_views(before)[i].entry_id < self.next_entry by {
                assert(before[i].entry_id == i + 1);
            }
        }
        self.next_entry
    }

    fn journal_for_plan(&self, plan_id: &str) -> (r: Vec<JournalEntry>) {
        let ghost j = entry_views(self.journal@);
        let mut r: Vec<JournalEntry> = Vec::new();
        let mut i: usize = 0;
        assert(j.subrange(0, 0) =~= Seq::<EntryV>::empty());
        while i < self.journal.len()
            invariant
                j == entry_views(self.journal@),
                0 <= i <= self.journal.len(),
                entry_views(r@) == entries_of(j.subrange(0, i as int), plan_id@),
            decreases self.journal.len() - i,
        {
            assert(j.subrange(0, i + 1).drop_last() =~= j.subrange(0, i as int));
            assert(j.subrange(0, i + 1).last() == self.journal@[i as int]@);
            if str_eq(self.journal[i].plan_id.as_str(), plan_id) {
                let ghost before = r@;
                let e = self.journal[i].dup();
                r.push(e);
                assert(entry_views(r@) =~= entry_views(before).push(e@));
            }
            i += 1;
        }
        assert(j.subrange(0, self.journal.len() as int) =~= j);
        r
    }

    fn mark_undone(&mut self, entry_id: u64, ts: u64) {
        let ghost before = self.journal@;
        match self.find_entry(entry_id) {
            Some(i) => {
                let mut e = self.journal[i].dup();
                e.undone_at = Some(ts);
                self.journal.set(i, e);
                proof {
                    assert(entry_views(self.journal@) =~= undone_in(entry_views(before), entry_id, ts)) by {
                        assert forall|k: int| 0 <= k < before.len() implies entry_views(self.journal@)[k] == undone_in(entry_views(before), entry_id, ts)[k] by {
                            if k != i {
                                assert(before[k].entry_id == k + 1);
                                assert(before[i as int].entry_id == i + 1);
                            }
                        }
                    }
                    assert forall|k: int| 0 <= k < self.journal.len() implies #[trigger] self.journal@[k].entry_id == k + 1 by {
                        assert(before[k].entry_id == k + 1);
                    }
                }
            },
            None => {
                assert(entry_views(self.journal@) =~= undone_in(entry_views(before), entry_id, ts));
            },
        }
    }

    fn recent_executed_plan_ids(&self, limit: usize) -> (r: Vec<String>) {
        let ghost rec = texts(self.executed_order@);
        let n = self.executed_order.len();
        let mut r: Vec<String> = Vec::new();
        let mut i: usize = 0;
        while i < n && r.len() < limit
            invariant
                rec == texts(self.executed_order@),
                n == self.executed_order.len(),
                0 <= i <= n,
                r.len() == i,
                r.len() <= limit,
                texts(r@) == rec.take(r.len() as int),
            decreases n - i,
        {
            let ghost before = r@;
            let s = self.executed_order[i].clone();
            r.push(s);
            assert(texts(r@) =~= rec.take(r.len() as int)) by {
                assert(rec[i as int] == self.executed_order@[i as int]@);
            }
            i += 1;
        }
        if r.len() < limit {
            assert(rec.take(r.len() as int) =~= rec);
        }
        r
    }

    fn complete_journal(&mut self, entry_id: u64, ts: u64) {
        let ghost before = self.journal@;
        match self.find_entry(entry_id) {
            Some(i) => {
                let mut e = self.journal[i].dup();
                e.completed_at = Some(ts);
                self.journal.set(i, e);
                proof {
                    assert(entry_views(self.journal@) =~= completed_in(entry_views(before), entry_id, ts)) by {
                        assert forall|k: int| 0 <= k < before.len() implies entry_views(self.journal@)[k] == completed_in(entry_views(before), entry_id, ts)[k] by {
                            if k != i {
                                assert(before[k].entry_id == k + 1);
                                assert(before[i as int].entry_id == i + 1);
                            }
                        }
                    }
                    assert forall|k: int| 0 <= k < self.journal.len() implies #[trigger] self.journal@[k].entry_id == k + 1 by {
                        assert(before[k].entry_id == k + 1);
                    }
                }
            },
            None => {
                assert(entry_views(self.journal@) =~= completed_in(entry_views(before), entry_id, ts));
            },
        }
    }

    fn update_journal_to(&mut self, entry_id: u64, to: String) {
        let ghost before = self.journal@;
        let ghost tv = to@;
        match self.find_entry(entry_id) {
            Some(i) => {
                let mut e = self.journal[i].dup();
                e.to = to;
                self.journal.set(i, e);
                proof {
                    assert(entry_views(self.journal@) =~= retargeted_in(entry_views(before), entry_id, tv)) by {
                        assert forall|k: int| 0 <= k < before.len() implies entry_views(self.journal@)[k] == retargeted_in(entry_views(before), entry_id, tv)[k] by {
                            if k != i {
                                assert(before[k].entry_id == k + 1);
                                assert(before[i as int].entry_id == i + 1);
                            }
                        }
                    }
                    assert forall|k: int| 0 <= k < self.journal.len() implies #[trigger] self.journal@[k].entry_id == k + 1 by {
                        assert(before[k].entry_id == k + 1);
                    }
                }
            },
            None => {
                assert(entry_views(self.journal@) =~= retargeted_in(entry_views(before), entry_id, tv));
            },
        }
    }

    fn inflight_entries(&self) -> (r: Vec<JournalEntry>) {
        let ghost j = entry_views(self.journal@);
        let mut r: Vec<JournalEntry> = Vec::new();
        let mut i: usize = 0;
        assert(j.subrange(0, 0) =~= Seq::<EntryV>::empty());
        while i < self.journal.len()
            invariant
                j == entry_views(self.journal@),
                0 <= i <= self.journal.len(),
                entry_views(r@) == inflight(j.subrange(0, i as int)),
            decreases self.journal.len() - i,
        {
            assert(j.subrange(0, i + 1).drop_last() =~= j.subrange(0, i as int));
            assert(j.subrange(0, i + 1).last() == self.journal@[i as int]@);
            if self.journal[i].completed_at.is_none() {
                let ghost before = r@;
                let e = self.journal[i].dup();
                r.push(e);
                assert(entry_views(r@) =~= entry_views(before).push(e@));
            }
            i += 1;
        }
        assert(j.subrange(0, self.journal.len() as int) =~= j);
        r
    }
}

/// In-memory file operations: a set of existing paths and a staging map.
pub struct FakeFileOps {
    /// Existing paths (a path may be listed more than once).
    present: Vec<String>,
    /// Quarantined contents: (content hash, original path).
    staged: Vec<(String, String)>,
    staging_dir: String,
    /// `Some(n)`: the `n`-th call of `move_file` (from 0) fails.
    fail_move_at: Option<usize>,
    move_call_count: usize,
}

/// The hashes of a staging list.
pub open spec fn staged_hashes(v: Seq<(String, String)>) -> Seq<Seq<char>> {
    v.map_values(|e: (String, String)| e.0@)
}

impl FakeFileOps {
    /// Which call of `move_file` (from 0) is made to fail, if any.
    pub closed spec fn failing_move(&self) -> Option<usize> {
        self.fail_move_at
    }

    /// How many calls of `move_file` were made (counting stops at `usize::MAX`).
    pub closed spec fn moves_tried(&self) -> usize {
        self.move_call_count
    }

    /// The folder quarantined files go to.
    pub closed spec fn staging(&self) -> Seq<char> {
        self.staging_dir@
    }

    /// A file system holding exactly the given paths, staging under `/__staging__`.
    pub fn with_files(files: Vec<String>) -> (f: FakeFileOps)
        ensures
            f.present() == texts(files@).to_set(),
            f.staged() == Map::<Seq<char>, Seq<char>>::empty(),
            f.failing_move() is None,
            f.moves_tried() == 0,
            f.staging() == "/__staging__"@,
    {
        let f = FakeFileOps {
            present: files,
            staged: Vec::new(),
            staging_dir: "/__staging__".to_string(),
            fail_move_at: None,
            move_call_count: 0,
        };
        assert(staged_hashes(f.staged@).to_set() =~= Set::<Seq<char>>::empty());
        assert(f.staged() =~= Map::<Seq<char>, Seq<char>>::empty());
        f
    }

    /// The same file system, with the `idx`-th call of `move_file` (from 0) failing.
    pub fn with_fail_at(self, idx: usize) -> (f: FakeFileOps)
        ensures
            f.present() == self.present(),
            f.staged() == self.staged(),
            f.failing_move() == Some(idx),
            f.moves_tried() == self.moves_tried(),
            f.staging() == self.staging(),
    {
        let mut f = self;
        f.fail_move_at = Some(idx);
        f
    }

    /// Whether content with this hash is quarantined.
    pub fn is_staged(&self, content_hash: &str) -> (b: bool)
        ensures
            b == self.staged().contains_key(content_hash@),
    {
        self.staged_index(content_hash).is_some()
    }

    fn staged_index(&self, h: &str) -> (r: Option<usize>)
        ensures
            match r {
                Some(i) => i < self.staged.len() && staged_hashes(self.staged@)[i as int] == h@,
                None => !staged_hashes(self.staged@).contains(h@),
            },
    {
        let mut i: usize = 0;
        while i < self.staged.len()
            invariant
                0 <= i <= self.staged.len(),
                forall|j: int| 0 <= j < i ==> staged_hashes(self.staged@)[j] != h@,
            decreases self.staged.len() - i,
        {
            if str_eq(self.staged[i].0.as_str(), h) {
                return Some(i);
            }
            i += 1;
        }
        None
    }

    fn has(&self, p: &str) -> (b: bool)
        ensures
            b == self.present().contains(p@),
    {
        let mut i: usize = 0;
        while i < self.present.len()
            invariant
                0 <= i <= self.present.len(),
                forall|j: int| 0 <= j < i ==> texts(self.present@)[j] != p@,
            decreases self.present.len() - i,
        {
            if str_eq(self.present[i].as_str(), p) {
                assert(texts(self.present@)[i as int] == p@);
                return true;
            }
            i += 1;
        }
        false
    }

    fn remove_path(&mut self, p: &str)
        ensures
            final(self).fail_move_at == old(self).fail_move_at,
            final(self).move_call_count == old(self).move_call_count,
            final(self).staging_dir == old(self).staging_dir,
            final(self).present() == old(self).present().remove(p@),
            final(self).staged() == old(self).staged(),
    {
        let mut kept: Vec<String> = Vec::new();
        let mut i: usize = 0;
        while i < self.present.len()
            invariant
                0 <= i <= self.present.len(),
                forall|q: Seq<char>| texts(kept@).contains(q) <==> (q != p@ && texts(self.present@.subrange(0, i as int)).contains(q)),
            decreases self.present.len() - i,
        {
            let ghost before = kept@;
            let ghost x = self.present@[i as int]@;
            if !str_eq(self.present[i].as_str(), p) {
                kept.push(self.present[i].clone());
                assert(texts(kept@) =~= texts(before).push(x));
            } else {
                assert(texts(kept@) =~= texts(before));
            }
            proof {
                let t_next = texts(self.present@.subrange(0, i + 1));
                let t_pre = texts(self.present@.subrange(0, i as int));
                assert(t_next =~= t_pre.push(x));
                lemma_filter_step(texts(before), t_pre, x, p@, texts(kept@));
            }
            i += 1;
        }
        proof {
            assert(self.present@.subrange(0, self.present.len() as int) =~= self.present@);
        }
        self.present = kept;
        assert(self.present() =~= old(self).present().remove(p@));
    }

    fn add_path(&mut self, p: String)
        ensures
            final(self).fail_move_at == old(self).fail_move_at,
            final(self).move_call_count == old(self).move_call_count,
            final(self).staging_dir == old(self).staging_dir,
            final(self).present() == old(self).present().insert(p@),
            final(self).staged() == old(self).staged(),
    {
        let ghost before = self.present@;
        let ghost pv = p@;
        self.present.push(p);
        assert(texts(self.present@) =~= texts(before).push(pv));
        proof {
            texts(before).lemma_push_to_set_commute(pv);
        }
        assert(self.present() =~= old(self).present().insert(pv));
    }

    fn add_ancestors(&mut self, to: &str)
        ensures
            final(self).fail_move_at == old(self).fail_move_at,
            final(self).move_call_count == old(self).move_call_count,
            final(self).staging_dir == old(self).staging_dir,
            final(self).present() == old(self).present().union(ancestors(to@)),
            final(self).staged() == old(self).staged(),
    {
        let ghost base = self.present();
        let mut last = to.to_string();
        let mut cur = parent(to);
        proof {
            lemma_parent_shorter(to@);
        }
        assert(self.present().union(ancestors(last@)) =~= base.union(ancestors(to@)));
        while cur.is_some()
            invariant
                opt_seq(cur) == parent_of(last@),
                self.present().union(ancestors(last@)) == base.union(ancestors(to@)),
                self.staged() == old(self).staged(),
                self.fail_move_at == old(self).fail_move_at,
                self.move_call_count == old(self).move_call_count,
                self.staging_dir == old(self).staging_dir,
            decreases last@.len(),
        {
            let dir = match cur {
                Some(d) => d,
                None => String::new(),
            };
            proof {
                lemma_parent_shorter(last@);
            }
            let ghost before = self.present();
            self.add_path(dir.clone());
            assert(ancestors(last@) == ancestors(dir@).insert(dir@));
            assert(self.present().union(ancestors(dir@)) =~= before.union(ancestors(last@)));
            cur = parent(dir.as_str());
            last = dir;
        }
        assert(ancestors(last@) =~= Set::<Seq<char>>::empty());
        assert(self.present().union(ancestors(last@)) =~= self.present());
    }
}

impl FileOps for FakeFileOps {
    closed spec fn present(&self) -> Set<Seq<char>> {
        texts(self.present@).to_set()
    }

    closed spec fn staged(&self) -> Map<Seq<char>, Seq<char>> {
        staged_hashes(self.staged@).to_set().mk_map(|h: Seq<char>| join_of(self.staging_dir@, h))
    }

    fn move_file(&mut self, from: &str, to: &str) -> (r: Result<(), String>)
        ensures
            final(self).failing_move() == old(self).failing_move(),
            final(self).moves_tried() == (if old(self).moves_tried() < usize::MAX {
                (old(self).moves_tried() + 1) as usize
            } else {
                old(self).moves_tried()
            }),
            final(self).staging() == old(self).staging(),
            r is Ok <==> (old(self).failing_move() != Some(old(self).moves_tried()) && old(self).present().contains(
                from@,
            )),
            r is Err ==> final(self).present() == old(self).present() && final(self).staged() == old(self).staged(),
    {
        let call = self.move_call_count;
        self.move_call_count = self.move_call_count.saturating_add(1);
        if self.fail_move_at == Some(call) {
            let mut msg = String::new();
            push_str(&mut msg, "injected failure at move #");
            push_decimal(&mut msg, call as u128);
            return Err(msg);
        }
        if !self.has(from) {
            return Err("source missing".to_string());
        }
        self.remove_path(from);
        self.add_path(to.to_string());
        self.add_ancestors(to);
        Ok(())
    }

    fn stage_file(&mut self, from: &str, content_hash: &str) -> (r: Result<String, String>)
        ensures
            final(self).failing_move() == old(self).failing_move(),
            final(self).moves_tried() == old(self).moves_tried(),
            final(self).staging() == old(self).staging(),
            r is Ok <==> old(self).present().contains(from@),
            r matches Ok(p) ==> p@ == join_of(old(self).staging(), content_hash@),
            r is Err ==> final(self).present() == old(self).present() && final(self).staged() == old(self).staged(),
    {
        if !self.has(from) {
            return Err("source missing".to_string());
        }
        self.remove_path(from);
        let ghost st_before = self.staged();
        let ghost hashes_before = staged_hashes(self.staged@);
        match self.staged_index(content_hash) {
            Some(i) => {
                let entry = (content_hash.to_string(), from.to_string());
                self.staged.set(i, entry);
                assert(staged_hashes(self.staged@) =~= hashes_before.update(i as int, content_hash@));
                assert(staged_hashes(self.staged@).to_set() =~= hashes_before.to_set()) by {
                    assert forall|h: Seq<char>| staged_hashes(self.staged@).contains(h) <==> hashes_before.contains(h) by {
                        if hashes_before.contains(h) {
                            let k = choose|k: int| 0 <= k < hashes_before.len() && hashes_before[k] == h;
                            assert(staged_hashes(self.staged@)[k] == h);
                        }
                        if staged_hashes(self.staged@).contains(h) {
                            let k = choose|k: int| 0 <= k < staged_hashes(self.staged@).len() && staged_hashes(self.staged@)[k] == h;
                            if k != i {
                                assert(hashes_before[k] == h);
                            }
                        }
                    }
                }
            },
            None => {
                let entry = (content_hash.to_string(), from.to_string());
                self.staged.push(entry);
                assert(staged_hashes(self.staged@) =~= hashes_before.push(content_hash@));
                proof {
                    hashes_before.lemma_push_to_set_commute(content_hash@);
                }
                assert(staged_hashes(self.staged@).to_set() =~= hashes_before.to_set().insert(content_hash@));
            },
        }
        let staged_path = join_path(self.staging_dir.as_str(), content_hash);
        self.add_path(staged_path.clone());
        assert(self.staged() =~= st_before.insert(content_hash@, staged_path@));
        Ok(staged_path)
    }

    fn restore_file(&mut self, content_hash: &str, to: &str) -> (r: Result<(), String>)
        ensures
            final(self).failing_move() == old(self).failing_move(),
            final(self).moves_tried() == old(self).moves_tried(),
            final(self).staging() == old(self).staging(),
            r is Ok <==> old(self).staged().contains_key(content_hash@),
            r is Ok ==> final(self).present() == old(self).present().remove(
                old(self).staged()[content_hash@],
            ).insert(to@),
            r is Err ==> final(self).present() == old(self).present() && final(self).staged() == old(self).staged(),
    {
        match self.staged_index(content_hash) {
            None => Err("not staged".to_string()),
            Some(i) => {
                let ghost hashes_before = staged_hashes(self.staged@);
                let ghost st_before = self.staged();
                let mut kept: Vec<(String, String)> = Vec::new();
                let mut k: usize = 0;
                while k < self.staged.len()
                    invariant
                        0 <= k <= self.staged.len(),
                        hashes_before == staged_hashes(self.staged@),
                        forall|h: Seq<char>| staged_hashes(kept@).contains(h) <==> (h != content_hash@ && staged_hashes(self.staged@.subrange(0, k as int)).contains(h)),
                    decreases self.staged.len() - k,
                {
                    let ghost before = kept@;
                    let ghost x = self.staged@[k as int].0@;
                    if !str_eq(self.staged[k].0.as_str(), content_hash) {
                        let e = (self.staged[k].0.clone(), self.staged[k].1.clone());
                        kept.push(e);
                        assert(staged_hashes(kept@) =~= staged_hashes(before).push(x));
                    } else {
                        assert(staged_hashes(kept@) =~= staged_hashes(before));
                    }
                    proof {
                        let t_next = staged_hashes(self.staged@.subrange(0, k + 1));
                        let t_pre = staged_hashes(self.staged@.subrange(0, k as int));
                        assert(t_next =~= t_pre.push(x));
                        lemma_filter_step(staged_hashes(before), t_pre, x, content_hash@, staged_hashes(kept@));
                    }
                    k += 1;
                }
                proof {
                    assert(self.staged@.subrange(0, self.staged.len() as int) =~= self.staged@);
                }
                self.staged = kept;
                assert(staged_hashes(self.staged@).to_set() =~= hashes_before.to_set().remove(content_hash@));
                assert(self.staged() =~= st_before.remove(content_hash@));
                assert(hashes_before.contains(content_hash@)) by {
                    assert(hashes_before[i as int] == content_hash@);
                }
                let staged_path = join_path(self.staging_dir.as_str(), content_hash);
                assert(staged_path@ == st_before[content_hash@]);
                self.remove_path(staged_path.as_str());
                self.add_path(to.to_string());
                Ok(())
            },
        }
    }

    fn path_exists(&self, p: &str) -> (b: bool) {
        let n = self.present.len();
        proof {
            assert(n == self.present@.len());
            vstd::seq_lib::seq_to_set_is_finite(texts(self.present@));
            texts(self.present@).lemma_cardinality_of_set();
            assert(texts(self.present@).len() == self.present@.len());
        }
        self.has(p)
    }

    fn remove_empty_dir(&mut self, dir: &str) -> (r: Result<(), String>)
        ensures
            final(self).failing_move() == old(self).failing_move(),
            final(self).moves_tried() == old(self).moves_tried(),
            final(self).staging() == old(self).staging(),
            r is Ok <==> forall|p: Seq<char>|
                old(self).present().contains(p) && p != dir@ ==> !under(p, dir@),
    {
        let mut i: usize = 0;
        while i < self.present.len()
            invariant
                0 <= i <= self.present.len(),
                forall|j: int| 0 <= j < i ==> texts(self.present@)[j] == dir@ || !under(texts(self.present@)[j], dir@),
            decreases self.present.len() - i,
        {
            let pp = self.present[i].as_str();
            if !str_eq(pp, dir) && is_under(pp, dir) {
                assert(texts(self.present@)[i as int] == pp@);
                assert(self.present().contains(pp@));
                return Err("directory not empty".to_string());
            }
            i += 1;
        }
        assert forall|p: Seq<char>| self.present().contains(p) && p != dir@ implies !under(p, dir@) by {
            let j = choose|j: int| 0 <= j < texts(self.present@).len() && texts(self.present@)[j] == p;
        }
        self.remove_path(dir);
        Ok(())
    }
}

} // verus!
