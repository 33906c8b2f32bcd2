//! Value types of the safety core: actions, plans, plan operations, journal
//! entries and the reasons a path can be refused. Storage formats are the
//! adapters' business; here only the column names they map to.

use vstd::prelude::*;

verus! {

/// What may be done to a file. **There is deliberately no permanent delete.**
#[derive(Debug, Clone, Copy, PartialEq, Eq, Structural)]
pub enum Action {
    /// Move elsewhere.
    Move,
    /// Quarantine (soft delete) into staging; restorable.
    Stage,
    /// Rename within the same folder (conflict resolution included).
    Rename,
}

/// Life-cycle state of a plan.
#[derive(Debug, Clone, Copy, PartialEq, Eq, Structural)]
pub enum PlanStatus {
    Proposed,
    Confirmed,
    Executed,
    Undone,
    Expired,
}

/// How a destination clash is handled. There is no overwrite: a clash is renamed.
#[derive(Debug, Clone, Copy, PartialEq, Eq, Structural)]
pub enum Conflict {
    NoConflict,
    Rename,
}

/// How much review a plan asks of the user; riskier plans ask for more.
#[derive(Debug, Clone, Copy, PartialEq, Eq, Structural)]
pub enum PreviewLevel {
    /// Low risk; nothing to show.
    Auto,
    /// Ordinary confirmation.
    Standard,
    /// Row-by-row review (quarantine, many operations, or clashes).
    FullReview,
}

/// Why the scope guard refused a path.
#[derive(Debug, Clone, Copy, PartialEq, Eq, Structural)]
pub enum Denial {
    /// Outside every allowed root.
    OutsideScope,
    /// Under a forbidden prefix.
    Blacklisted,
    /// A hidden component (dot-file, `node_modules`).
    Hidden,
    /// Missing or unresolvable.
    NotFound,
}

pub open spec fn action_name(a: Action) -> Seq<char> {
    match a {
        Action::Move => "move"@,
        Action::Stage => "stage"@,
        Action::Rename => "rename"@,
    }
}

pub open spec fn status_name(s: PlanStatus) -> Seq<char> {
    match s {
        PlanStatus::Proposed => "proposed"@,
        PlanStatus::Confirmed => "confirmed"@,
        PlanStatus::Executed => "executed"@,
        PlanStatus::Undone => "undone"@,
        PlanStatus::Expired => "expired"@,
    }
}

pub open spec fn conflict_name(c: Conflict) -> Seq<char> {
    match c {
        Conflict::NoConflict => "none"@,
        Conflict::Rename => "rename"@,
    }
}

pub open spec fn preview_name(p: PreviewLevel) -> Seq<char> {
    match p {
        PreviewLevel::Auto => "auto"@,
        PreviewLevel::Standard => "standard"@,
        PreviewLevel::FullReview => "full_review"@,
    }
}

/// The action a stored column value names; anything unknown reads as a move.
pub open spec fn action_named(s: Seq<char>) -> Action {
    if s == "stage"@ {
        Action::Stage
    } else if s == "rename"@ {
        Action::Rename
    } else {
        Action::Move
    }
}

/// The status a stored column value names; anything unknown reads as proposed.
pub open spec fn status_named(s: Seq<char>) -> PlanStatus {
    if s == "confirmed"@ {
        PlanStatus::Confirmed
    } else if s == "executed"@ {
        PlanStatus::Executed
    } else if s == "undone"@ {
        PlanStatus::Undone
    } else if s == "expired"@ {
        PlanStatus::Expired
    } else {
        PlanStatus::Proposed
    }
}

/// The conflict mode a stored column value names; anything but `rename` is none.
pub open spec fn conflict_named(s: Seq<char>) -> Conflict {
    if s == "rename"@ {
        Conflict::Rename
    } else {
        Conflict::NoConflict
    }
}

/// The preview level a stored column value names; anything unknown reads as auto.
pub open spec fn preview_named(s: Seq<char>) -> PreviewLevel {
    if s == "standard"@ {
        PreviewLevel::Standard
    } else if s == "full_review"@ {
        PreviewLevel::FullReview
    } else {
        PreviewLevel::Auto
    }
}

impl Action {
    /// The `action` column value: `move`, `stage` or `rename`.
    pub fn as_str(&self) -> (r: &'static str)
        ensures
            r@ == action_name(*self),
    {
        match self {
            Action::Move => "move",
            Action::Stage => "stage",
            Action::Rename => "rename",
        }
    }
}

impl PlanStatus {
    /// The `status` column value.
    pub fn as_str(&self) -> (r: &'static str)
        ensures
            r@ == status_name(*self),
    {
        match self {
            PlanStatus::Proposed => "proposed",
            PlanStatus::Confirmed => "confirmed",
            PlanStatus::Executed => "executed",
            PlanStatus::Undone => "undone",
            PlanStatus::Expired => "expired",
        }
    }
}

impl Conflict {
    /// The `conflict` column value.
    pub fn as_str(&self) -> (r: &'static str)
        ensures
            r@ == conflict_name(*self),
    {
        match self {
            Conflict::NoConflict => "none",
            Conflict::Rename => "rename",
        }
    }
}

/// The name of a refusal reason, as written in messages.
pub open spec fn denial_name(d: Denial) -> Seq<char> {
    match d {
        Denial::OutsideScope => "OutsideScope"@,
        Denial::Blacklisted => "Blacklisted"@,
        Denial::Hidden => "Hidden"@,
        Denial::NotFound => "NotFound"@,
    }
}

impl Denial {
    /// The reason's name.
    pub fn name(&self) -> (r: &'static str)
        ensures
            r@ == denial_name(*self),
    {
        match self {
            Denial::OutsideScope => "OutsideScope",
            Denial::Blacklisted => "Blacklisted",
            Denial::Hidden => "Hidden",
            Denial::NotFound => "NotFound",
        }
    }
}

/// The `preview` column value.
pub fn preview_as_str(p: &PreviewLevel) -> (r: &'static str)
    ensures
        r@ == preview_name(*p),
{
    match p {
        PreviewLevel::Auto => "auto",
        PreviewLevel::Standard => "standard",
        PreviewLevel::FullReview => "full_review",
    }
}

/// Equality of two string slices.
pub fn str_eq(a: &str, b: &str) -> (r: bool)
    ensures
        r == (a@ == b@),
{
    let x = crate::text::chars_of(a);
    let y = crate::text::chars_of(b);
    crate::text::same_chars(&x, &y)
}

/// Reads an `action` column value.
pub fn action_from_str(s: &str) -> (a: Action)
    ensures
        a == action_named(s@),
{
    if str_eq(s, "stage") {
        Action::Stage
    } else if str_eq(s, "rename") {
        Action::Rename
    } else {
        Action::Move
    }
}

/// Reads a `status` column value.
pub fn status_from_str(s: &str) -> (st: PlanStatus)
    ensures
        st == status_named(s@),
{
    if str_eq(s, "confirmed") {
        PlanStatus::Confirmed
    } else if str_eq(s, "executed") {
        PlanStatus::Executed
    } else if str_eq(s, "undone") {
        PlanStatus::Undone
    } else if str_eq(s, "expired") {
        PlanStatus::Expired
    } else {
        PlanStatus::Proposed
    }
}

/// Reads a `conflict` column value.
pub fn conflict_from_str(s: &str) -> (c: Conflict)
    ensures
        c == conflict_named(s@),
{
    if str_eq(s, "rename") {
        Conflict::Rename
    } else {
        Conflict::NoConflict
    }
}

/// Reads a `preview` column value.
pub fn preview_from_str(s: &str) -> (p: PreviewLevel)
    ensures
        p == preview_named(s@),
{
    if str_eq(s, "standard") {
        PreviewLevel::Standard
    } else if str_eq(s, "full_review") {
        PreviewLevel::FullReview
    } else {
        PreviewLevel::Auto
    }
}

/// Every action survives a write and a read of its column value.
pub proof fn lemma_action_roundtrip(a: Action)
    ensures
        action_named(action_name(a)) == a,
{
    reveal_strlit("move");
    reveal_strlit("stage");
    reveal_strlit("rename");
    assert("move"@ != "stage"@ && "move"@ != "rename"@ && "rename"@ != "stage"@) by {
        assert("move"@.len() == 4 && "stage"@.len() == 5 && "rename"@.len() == 6);
    }
}

/// Every status survives a write and a read of its column value.
pub proof fn lemma_status_roundtrip(s: PlanStatus)
    ensures
        status_named(status_name(s)) == s,
{
    reveal_strlit("proposed");
    reveal_strlit("confirmed");
    reveal_strlit("executed");
    reveal_strlit("undone");
    reveal_strlit("expired");
    assert("proposed"@[0] == 'p' && "confirmed"@[0] == 'c' && "executed"@[1] == 'x'
        && "undone"@[0] == 'u' && "expired"@[1] == 'x' && "executed"@[0] == 'e'
        && "expired"@[2] == 'p' && "executed"@[2] == 'e');
}

/// Every conflict mode survives a write and a read of its column value.
pub proof fn lemma_conflict_roundtrip(c: Conflict)
    ensures
        conflict_named(conflict_name(c)) == c,
{
    reveal_strlit("none");
    reveal_strlit("rename");
    assert("none"@.len() == 4 && "rename"@.len() == 6);
}

/// Every preview level survives a write and a read of its column value.
pub proof fn lemma_preview_roundtrip(p: PreviewLevel)
    ensures
        preview_named(preview_name(p)) == p,
{
    reveal_strlit("auto");
    reveal_strlit("standard");
    reveal_strlit("full_review");
    assert("auto"@.len() == 4 && "standard"@.len() == 8 && "full_review"@.len() == 11);
}

/// The text of an optional string.
pub open spec fn opt_text(o: Option<String>) -> Option<Seq<char>> {
    match o {
        Some(s) => Some(s@),
        None => None,
    }
}

/// A copy of an optional string.
pub fn copy_opt(o: &Option<String>) -> (r: Option<String>)
    ensures
        opt_text(r) == opt_text(*o),
{
    match o {
        Some(s) => Some(s.clone()),
        None => None,
    }
}

/// The texts of a vector of strings.
pub open spec fn texts(v: Seq<String>) -> Seq<Seq<char>> {
    v.map_values(|s: String| s@)
}

/// The texts of `items` joined with `sep` between them.
pub fn join_with(items: &[String], sep: &str) -> (r: String)
    ensures
        r@ == crate::text::join(texts(items@), sep@),
{
    let ghost ts = texts(items@);
    let mut r = String::new();
    let mut i: usize = 0;
    assert(ts.subrange(0, 0) =~= Seq::<Seq<char>>::empty());
    while i < items.len()
        invariant
            0 <= i <= items.len(),
            ts == texts(items@),
            r@ == crate::text::join(ts.subrange(0, i as int), sep@),
        decreases items.len() - i,
    {
        let ghost before = r@;
        if i > 0 {
            crate::text::push_str(&mut r, sep);
        }
        crate::text::push_str(&mut r, items[i].as_str());
        proof {
            let next = ts.subrange(0, i + 1);
            assert(next.drop_last() =~= ts.subrange(0, i as int));
            assert(next.last() == items@[i as int]@);
            if i == 0 {
                assert(r@ =~= next[0]);
            } else {
                assert(r@ =~= before + sep@ + next.last());
            }
        }
        i += 1;
    }
    assert(ts.subrange(0, items.len() as int) =~= ts);
    r
}

/// A copy of a vector of strings.
pub fn copy_strings(v: &Vec<String>) -> (r: Vec<String>)
    ensures
        texts(r@) == texts(v@),
{
    let mut r: Vec<String> = Vec::new();
    let mut i: usize = 0;
    while i < v.len()
        invariant
            0 <= i <= v.len(),
            texts(r@) == texts(v@.subrange(0, i as int)),
        decreases v.len() - i,
    {
        let ghost old_r = r@;
        let c = v[i].clone();
        r.push(c);
        assert(texts(r@) =~= texts(old_r).push(c@));
        assert(texts(v@.subrange(0, i + 1)) =~= texts(v@.subrange(0, i as int)).push(v@[i as int]@));
        i += 1;
    }
    assert(v@.subrange(0, v.len() as int) =~= v@);
    r
}

/// One operation of a plan. Until executed it is an intent that changes nothing.
#[derive(Debug)]
pub struct PlanOp {
    pub op_id: String,
    pub seq: u32,
    pub action: Action,
    pub content_hash: String,
    pub from: String,
    pub to: String,
    pub conflict: Conflict,
    pub reason: Option<String>,
}

/// The mathematical value of a plan operation.
pub struct OpV {
    pub op_id: Seq<char>,
    pub seq: u32,
    pub action: Action,
    pub content_hash: Seq<char>,
    pub from: Seq<char>,
    pub to: Seq<char>,
    pub conflict: Conflict,
    pub reason: Option<Seq<char>>,
}

impl View for PlanOp {
    type V = OpV;

    open spec fn view(&self) -> OpV {
        OpV {
            op_id: self.op_id@,
            seq: self.seq,
            action: self.action,
            content_hash: self.content_hash@,
            from: self.from@,
            to: self.to@,
            conflict: self.conflict,
            reason: opt_text(self.reason),
        }
    }
}

/// The values of a sequence of plan operations.
pub open spec fn op_views(v: Seq<PlanOp>) -> Seq<OpV> {
    v.map_values(|o: PlanOp| o@)
}

impl PlanOp {
    /// An intent without id: `Engine::propose` assigns `op_id` and `seq`.
    pub fn new(action: Action, content_hash: String, from: String, to: String) -> (r: PlanOp)
        ensures
            r@ == (OpV {
                op_id: Seq::empty(),
                seq: 0,
                action,
                content_hash: content_hash@,
                from: from@,
                to: to@,
                conflict: Conflict::NoConflict,
                reason: None,
            }),
    {
        PlanOp {
            op_id: String::new(),
            seq: 0,
            action,
            content_hash,
            from,
            to,
            conflict: Conflict::NoConflict,
            reason: None,
        }
    }

    /// The same operation with a reason attached.
    pub fn with_reason(self, reason: String) -> (r: PlanOp)
        ensures
            r@ == (OpV { reason: Some(reason@), ..self@ }),
    {
        let mut op = self;
        op.reason = Some(reason);
        op
    }

    /// A copy of this operation.
    pub fn dup(&self) -> (r: PlanOp)
        ensures
            r@ == self@,
    {
        PlanOp {
            op_id: self.op_id.clone(),
            seq: self.seq,
            action: self.action,
            content_hash: self.content_hash.clone(),
            from: self.from.clone(),
            to: self.to.clone(),
            conflict: self.conflict,
            reason: copy_opt(&self.reason),
        }
    }
}

/// A copy of a list of operations.
pub fn copy_ops(v: &Vec<PlanOp>) -> (r: Vec<PlanOp>)
    ensures
        op_views(r@) == op_views(v@),
{
    let mut r: Vec<PlanOp> = Vec::new();
    let mut i: usize = 0;
    while i < v.len()
        invariant
            0 <= i <= v.len(),
            op_views(r@) == op_views(v@.subrange(0, i as int)),
        decreases v.len() - i,
    {
        let ghost old_r = r@;
        let c = v[i].dup();
        r.push(c);
        assert(op_views(r@) =~= op_views(old_r).push(c@));
        assert(op_views(v@.subrange(0, i + 1)) =~= op_views(v@.subrange(0, i as int)).push(
            v@[i as int]@,
        ));
        i += 1;
    }
    assert(v@.subrange(0, v.len() as int) =~= v@);
    r
}

/// The counts a plan's risk is computed from: quarantines weigh fully,
/// clashes weigh 0.4, divided by the number of operations and capped at 1.
#[derive(Debug, Clone, Copy, PartialEq, Eq, Structural)]
pub struct RiskTally {
    pub stages: u64,
    pub conflicts: u64,
    pub total: u64,
}

/// A proposed set of operations.
#[derive(Debug)]
pub struct Plan {
    pub plan_id: String,
    pub created_at: u64,
    pub status: PlanStatus,
    pub risk: RiskTally,
    pub preview: PreviewLevel,
    pub scheme: Option<String>,
    pub rule_summary: Option<String>,
    pub ops: Vec<PlanOp>,
}

/// The mathematical value of a plan.
pub struct PlanV {
    pub plan_id: Seq<char>,
    pub created_at: u64,
    pub status: PlanStatus,
    pub risk: RiskTally,
    pub preview: PreviewLevel,
    pub scheme: Option<Seq<char>>,
    pub rule_summary: Option<Seq<char>>,
    pub ops: Seq<OpV>,
}

impl View for Plan {
    type V = PlanV;

    open spec fn view(&self) -> PlanV {
        PlanV {
            plan_id: self.plan_id@,
            created_at: self.created_at,
            status: self.status,
            risk: self.risk,
            preview: self.preview,
            scheme: opt_text(self.scheme),
            rule_summary: opt_text(self.rule_summary),
            ops: op_views(self.ops@),
        }
    }
}

impl Plan {
    /// A copy of this plan.
    pub fn dup(&self) -> (r: Plan)
        ensures
            r@ == self@,
    {
        Plan {
            plan_id: self.plan_id.clone(),
            created_at: self.created_at,
            status: self.status,
            risk: self.risk,
            preview: self.preview,
            scheme: copy_opt(&self.scheme),
            rule_summary: copy_opt(&self.rule_summary),
            ops: copy_ops(&self.ops),
        }
    }
}

/// A record of work done: append-only, for undo and audit.
/// `completed_at == None` marks an in-flight intent recorded before the file
/// operation; crash recovery reconciles such entries with the file system.
#[derive(Debug)]
pub struct JournalEntry {
    pub entry_id: u64,
    pub plan_id: String,
    pub op_id: String,
    pub action: Action,
    pub content_hash: String,
    pub from: String,
    pub to: String,
    pub executed_at: u64,
    /// When the file operation was confirmed complete; `None` = in flight.
    pub completed_at: Option<u64>,
    pub undoable: bool,
    pub undone_at: Option<u64>,
    /// Folders the move created, deepest first; undo removes them if empty.
    pub created_dirs: Vec<String>,
}

/// The mathematical value of a journal entry.
pub struct EntryV {
    pub entry_id: u64,
    pub plan_id: Seq<char>,
    pub op_id: Seq<char>,
    pub action: Action,
    pub content_hash: Seq<char>,
    pub from: Seq<char>,
    pub to: Seq<char>,
    pub executed_at: u64,
    pub completed_at: Option<u64>,
    pub undoable: bool,
    pub undone_at: Option<u64>,
    pub created_dirs: Seq<Seq<char>>,
}

impl View for JournalEntry {
    type V = EntryV;

    open spec fn view(&self) -> EntryV {
        EntryV {
            entry_id: self.entry_id,
            plan_id: self.plan_id@,
            op_id: self.op_id@,
            action: self.action,
            content_hash: self.content_hash@,
            from: self.from@,
            to: self.to@,
            executed_at: self.executed_at,
            completed_at: self.completed_at,
            undoable: self.undoable,
            undone_at: self.undone_at,
            created_dirs: texts(self.created_dirs@),
        }
    }
}

/// The values of a sequence of journal entries.
pub open spec fn entry_views(v: Seq<JournalEntry>) -> Seq<EntryV> {
    v.map_values(|e: JournalEntry| e@)
}

impl JournalEntry {
    /// A copy of this entry.
    pub fn dup(&self) -> (r: JournalEntry)
        ensures
            r@ == self@,
    {
        JournalEntry {
            entry_id: self.entry_id,
            plan_id: self.plan_id.clone(),
            op_id: self.op_id.clone(),
            action: self.action,
            content_hash: self.content_hash.clone(),
            from: self.from.clone(),
            to: self.to.clone(),
            executed_at: self.executed_at,
            completed_at: self.completed_at,
            undoable: self.undoable,
            undone_at: self.undone_at,
            created_dirs: copy_strings(&self.created_dirs),
        }
    }
}

} // verus!
