//! Organising rules: the `ORGANIZER.md` rule language and the choice of a
//! destination for a file.
//!
//! A rule line reads `<conditions> -> <dest>`. Conditions are separated by
//! whitespace and must all hold (AND); a condition is `key:v1,v2,...` and holds
//! when any of its values matches (OR). Keys: `tag` (a topic tag equals a value,
//! case-insensitively), `lang` (the language equals a value), `ext` (the
//! extension equals a value) and `name` (the file name contains a value).
//! Blank lines, lines starting with `#`, and malformed lines are skipped.

use vstd::prelude::*;
use crate::model::texts;
use crate::text::{
    chars_eq_str, chars_of, contains_chars, contains_seq, find_chars, find_from, lines, lines_of, occurs_at,
    lowercase_chars, lowercase_of, non_empty, same_chars, slice_chars, split_by, split_chars,
    string_of, trim, trim_chars, views, words, words_of, Sep,
};

verus! {

// ───────────────────────────── types and views ─────────────────────────────

/// What a condition looks at.
#[derive(Debug, Clone, Copy, PartialEq, Eq, Structural)]
pub enum Field {
    Tag,
    Lang,
    Ext,
    Name,
}

/// One condition of a rule; each holds lower-cased, non-empty values.
#[derive(Debug, PartialEq, Clone)]
pub enum Condition {
    Tag(Vec<String>),
    Lang(Vec<String>),
    Ext(Vec<String>),
    Name(Vec<String>),
}

/// A condition as a mathematical value.
pub struct CondV {
    pub field: Field,
    pub values: Seq<Seq<char>>,
}

impl View for Condition {
    type V = CondV;

    open spec fn view(&self) -> CondV {
        match self {
            Condition::Tag(v) => CondV { field: Field::Tag, values: texts(v@) },
            Condition::Lang(v) => CondV { field: Field::Lang, values: texts(v@) },
            Condition::Ext(v) => CondV { field: Field::Ext, values: texts(v@) },
            Condition::Name(v) => CondV { field: Field::Name, values: texts(v@) },
        }
    }
}

/// A parsed rule: all conditions must hold for `dest` to be proposed.
#[derive(Debug, Clone)]
pub struct OrganizerRule {
    pub conditions: Vec<Condition>,
    pub dest: String,
}

/// A rule as a mathematical value.
pub struct RuleV {
    pub conds: Seq<CondV>,
    pub dest: Seq<char>,
}

pub open spec fn cond_views(cs: Seq<Condition>) -> Seq<CondV> {
    cs.map_values(|c: Condition| c@)
}

impl View for OrganizerRule {
    type V = RuleV;

    open spec fn view(&self) -> RuleV {
        RuleV { conds: cond_views(self.conditions@), dest: self.dest@ }
    }
}

pub open spec fn rule_views(rs: Seq<OrganizerRule>) -> Seq<RuleV> {
    rs.map_values(|r: OrganizerRule| r@)
}

/// The attributes of a file that rules look at. `ext` is without the dot.
pub struct FileAttrs<'a> {
    pub filename: &'a str,
    pub ext: &'a str,
    pub topic_tags: &'a [String],
    pub language: &'a str,
}

pub struct AttrsV {
    pub filename: Seq<char>,
    pub ext: Seq<char>,
    pub tags: Seq<Seq<char>>,
    pub language: Seq<char>,
}

impl<'a> View for FileAttrs<'a> {
    type V = AttrsV;

    open spec fn view(&self) -> AttrsV {
        AttrsV {
            filename: self.filename@,
            ext: self.ext@,
            tags: texts(self.topic_tags@),
            language: self.language@,
        }
    }
}

// ───────────────────────────── the rule language ─────────────────────────────

/// The separator between conditions and destination.
pub open spec fn arrow() -> Seq<char> {
    seq![' ', '-', '>', ' ']
}

/// Each text lower-cased.
pub open spec fn lowered(ps: Seq<Seq<char>>) -> Seq<Seq<char>> {
    ps.map_values(|v: Seq<char>| lowercase_of(v))
}

/// The field a condition key names.
pub open spec fn field_named(key: Seq<char>) -> Option<Field> {
    if key == "tag"@ {
        Some(Field::Tag)
    } else if key == "lang"@ {
        Some(Field::Lang)
    } else if key == "ext"@ {
        Some(Field::Ext)
    } else if key == "name"@ {
        Some(Field::Name)
    } else {
        None
    }
}

/// The values of a clause: split at commas, lower-cased, empty ones dropped.
pub open spec fn clause_values(vals: Seq<char>) -> Seq<Seq<char>> {
    non_empty(lowered(split_by(vals, Sep::Char(','))))
}

/// One `key:values` clause; `None` when it has no colon, an unknown key or no values.
pub open spec fn parse_clause(c: Seq<char>) -> Option<CondV> {
    match find_from(c, seq![':'], 0) {
        None => None,
        Some(k) => {
            let values = clause_values(c.subrange(k + 1, c.len() as int));
            match field_named(c.subrange(0, k)) {
                Some(f) => if values.len() > 0 {
                    Some(CondV { field: f, values })
                } else {
                    None
                },
                None => None,
            }
        },
    }
}

/// All clauses, or `None` if any of them is malformed.
pub open spec fn parse_clauses(cs: Seq<Seq<char>>) -> Option<Seq<CondV>>
    decreases cs.len(),
{
    if cs.len() == 0 {
        Some(Seq::empty())
    } else {
        match parse_clauses(cs.drop_last()) {
            Some(ps) => match parse_clause(cs.last()) {
                Some(c) => Some(ps.push(c)),
                None => None,
            },
            None => None,
        }
    }
}

/// One line of `ORGANIZER.md`; `None` for blank, comment or malformed lines.
pub open spec fn parse_line(l: Seq<char>) -> Option<RuleV> {
    let t = trim(l);
    if t.len() == 0 || t[0] == '#' {
        None
    } else {
        match find_from(t, arrow(), 0) {
            None => None,
            Some(i) => {
                let dest = trim(t.subrange(i + 4, t.len() as int));
                if dest.len() == 0 {
                    None
                } else {
                    match parse_clauses(words(t.subrange(0, i))) {
                        Some(cs) => if cs.len() > 0 {
                            Some(RuleV { conds: cs, dest })
                        } else {
                            None
                        },
                        None => None,
                    }
                }
            },
        }
    }
}

/// The rules of a sequence of lines, in order.
pub open spec fn parse_lines(ls: Seq<Seq<char>>) -> Seq<RuleV>
    decreases ls.len(),
{
    if ls.len() == 0 {
        Seq::empty()
    } else {
        match parse_line(ls.last()) {
            Some(r) => parse_lines(ls.drop_last()).push(r),
            None => parse_lines(ls.drop_last()),
        }
    }
}

/// The rules of an `ORGANIZER.md` text, in order.
pub open spec fn rules_of(md: Seq<char>) -> Seq<RuleV> {
    parse_lines(lines(md))
}

/// Whether a condition holds of a file.
pub open spec fn cond_holds(c: CondV, a: AttrsV) -> bool {
    match c.field {
        Field::Tag => exists|i: int, j: int|
            0 <= i < c.values.len() && 0 <= j < a.tags.len() && #[trigger] c.values[i]
                == lowercase_of(#[trigger] a.tags[j]),
        Field::Lang => c.values.contains(lowercase_of(a.language)),
        Field::Ext => c.values.contains(lowercase_of(a.ext)),
        Field::Name => exists|i: int|
            0 <= i < c.values.len() && contains_seq(lowercase_of(a.filename), #[trigger] c.values[i]),
    }
}

/// Whether every condition of a rule holds of a file.
pub open spec fn rule_holds(r: RuleV, a: AttrsV) -> bool {
    forall|k: int| 0 <= k < r.conds.len() ==> cond_holds(#[trigger] r.conds[k], a)
}

/// The destination of the first rule that holds of a file.
pub open spec fn first_match(rs: Seq<RuleV>, a: AttrsV) -> Option<Seq<char>>
    decreases rs.len(),
{
    if rs.len() == 0 {
        None
    } else if rule_holds(rs[0], a) {
        Some(rs[0].dest)
    } else {
        first_match(rs.drop_first(), a)
    }
}

/// A file's attributes in lower case (rule values are lower-cased when parsed).
pub open spec fn lower_attrs(a: AttrsV) -> AttrsV {
    AttrsV {
        filename: lowercase_of(a.filename),
        ext: lowercase_of(a.ext),
        tags: lowered(a.tags),
        language: lowercase_of(a.language),
    }
}

/// Whether a condition holds of attributes taken as they are (already lower-cased).
pub open spec fn cond_holds_exact(c: CondV, a: AttrsV) -> bool {
    match c.field {
        Field::Tag => exists|i: int, j: int|
            0 <= i < c.values.len() && 0 <= j < a.tags.len() && #[trigger] c.values[i] == #[trigger] a.tags[j],
        Field::Lang => c.values.contains(a.language),
        Field::Ext => c.values.contains(a.ext),
        Field::Name => exists|i: int|
            0 <= i < c.values.len() && contains_seq(a.filename, #[trigger] c.values[i]),
    }
}

/// Whether every condition of a rule holds of attributes taken as they are.
pub open spec fn rule_holds_exact(r: RuleV, a: AttrsV) -> bool {
    forall|k: int| 0 <= k < r.conds.len() ==> cond_holds_exact(#[trigger] r.conds[k], a)
}

/// The destination of the first rule that holds of attributes taken as they are.
pub open spec fn first_match_exact(rs: Seq<RuleV>, a: AttrsV) -> Option<Seq<char>>
    decreases rs.len(),
{
    if rs.len() == 0 {
        None
    } else if rule_holds_exact(rs[0], a) {
        Some(rs[0].dest)
    } else {
        first_match_exact(rs.drop_first(), a)
    }
}

/// Matching ignores case: a rule holds of a file exactly when it holds, as
/// written, of the file's lower-cased attributes.
pub proof fn lemma_match_ignores_case(rs: Seq<RuleV>, a: AttrsV)
    ensures
        first_match(rs, a) == first_match_exact(rs, lower_attrs(a)),
    decreases rs.len(),
{
    let la = lower_attrs(a);
    assert forall|c: CondV| #[trigger] cond_holds(c, a) == cond_holds_exact(c, la) by {
        if c.field == Field::Tag {
            if cond_holds(c, a) {
                let (i, j) = choose|i: int, j: int|
                    0 <= i < c.values.len() && 0 <= j < a.tags.len() && #[trigger] c.values[i]
                        == lowercase_of(#[trigger] a.tags[j]);
                assert(la.tags[j] == lowercase_of(a.tags[j]));
            }
            if cond_holds_exact(c, la) {
                let (i, j) = choose|i: int, j: int|
                    0 <= i < c.values.len() && 0 <= j < la.tags.len() && #[trigger] c.values[i] == #[trigger] la.tags[j];
                assert(la.tags[j] == lowercase_of(a.tags[j]));
            }
        }
    }
    if rs.len() > 0 {
        assert(rule_holds(rs[0], a) == rule_holds_exact(rs[0], la)) by {
            assert forall|k: int| 0 <= k < rs[0].conds.len() implies cond_holds(#[trigger] rs[0].conds[k], a)
                == cond_holds_exact(rs[0].conds[k], la) by {}
        }
        lemma_match_ignores_case(rs.drop_first(), a);
    }
}

pub open spec fn opt_rule_view(r: Option<OrganizerRule>) -> Option<RuleV> {
    match r {
        Some(x) => Some(x@),
        None => None,
    }
}

pub open spec fn opt_cond_view(c: Option<Condition>) -> Option<CondV> {
    match c {
        Some(x) => Some(x@),
        None => None,
    }
}

// ───────────────────────────── laws ─────────────────────────────

/// First match wins: the destination proposed for a file is that of the
/// earliest rule all of whose conditions hold, and there is none exactly when
/// no rule holds.
pub proof fn lemma_first_match_wins(rs: Seq<RuleV>, a: AttrsV)
    ensures
        first_match(rs, a) is None <==> (forall|k: int| 0 <= k < rs.len() ==> !rule_holds(
            #[trigger] rs[k],
            a,
        )),
        forall|k: int|
            0 <= k < rs.len() && rule_holds(#[trigger] rs[k], a) && (forall|j: int|
                0 <= j < k ==> !rule_holds(#[trigger] rs[j], a)) ==> first_match(rs, a) == Some(
                rs[k].dest,
            ),
    decreases rs.len(),
{
    if rs.len() > 0 {
        let t = rs.drop_first();
        lemma_first_match_wins(t, a);
        assert forall|k: int| 0 <= k < t.len() implies t[k] == rs[k + 1] by {}
        if !rule_holds(rs[0], a) {
            assert((forall|k: int| 0 <= k < rs.len() ==> !rule_holds(#[trigger] rs[k], a)) <==> (
            forall|k: int| 0 <= k < t.len() ==> !rule_holds(#[trigger] t[k], a))) by {
                if forall|k: int| 0 <= k < t.len() ==> !rule_holds(#[trigger] t[k], a) {
                    assert forall|k: int| 0 <= k < rs.len() implies !rule_holds(
                        #[trigger] rs[k],
                        a,
                    ) by {
                        if k > 0 {
                            assert(rs[k] == t[k - 1]);
                        }
                    }
                }
            }
            assert forall|k: int|
                0 <= k < rs.len() && rule_holds(#[trigger] rs[k], a) && (forall|j: int|
                    0 <= j < k ==> !rule_holds(#[trigger] rs[j], a)) implies first_match(rs, a)
                == Some(rs[k].dest) by {
                assert(k > 0);
                assert(rs[k] == t[k - 1]);
                assert forall|j: int| 0 <= j < k - 1 implies !rule_holds(#[trigger] t[j], a) by {
                    assert(t[j] == rs[j + 1]);
                }
            }
        }
    }
}

/// A rule that comes out of the parser has at least one condition, a
/// non-empty destination, and conditions with at least one value each.
pub proof fn lemma_parsed_rules_well_formed(md: Seq<char>)
    ensures
        forall|k: int|
            0 <= k < rules_of(md).len() ==> {
                let r = #[trigger] rules_of(md)[k];
                &&& r.conds.len() > 0
                &&& r.dest.len() > 0
                &&& forall|c: int| 0 <= c < r.conds.len() ==> (#[trigger] r.conds[c]).values.len() > 0
            },
{
    lemma_parse_lines_well_formed(lines(md));
}

proof fn lemma_parse_clauses_values(cs: Seq<Seq<char>>)
    ensures
        parse_clauses(cs) matches Some(ps) ==> ps.len() == cs.len() && forall|c: int|
            0 <= c < ps.len() ==> (#[trigger] ps[c]).values.len() > 0,
    decreases cs.len(),
{
    if cs.len() > 0 {
        lemma_parse_clauses_values(cs.drop_last());
    }
}

proof fn lemma_parse_lines_well_formed(ls: Seq<Seq<char>>)
    ensures
        forall|k: int|
            0 <= k < parse_lines(ls).len() ==> {
                let r = #[trigger] parse_lines(ls)[k];
                &&& r.conds.len() > 0
                &&& r.dest.len() > 0
                &&& forall|c: int| 0 <= c < r.conds.len() ==> (#[trigger] r.conds[c]).values.len() > 0
            },
    decreases ls.len(),
{
    if ls.len() > 0 {
        lemma_parse_lines_well_formed(ls.drop_last());
        let t = trim(ls.last());
        if !(t.len() == 0 || t[0] == '#') {
            if let Some(i) = find_from(t, arrow(), 0) {
                lemma_parse_clauses_values(words(t.subrange(0, i)));
            }
        }
    }
}

// ───────────────────────────── parsing ─────────────────────────────

fn field_of_key(key: &Vec<char>) -> (f: Option<Field>)
    ensures
        f == field_named(key@),
{
    if chars_eq_str(key, "tag") {
        Some(Field::Tag)
    } else if chars_eq_str(key, "lang") {
        Some(Field::Lang)
    } else if chars_eq_str(key, "ext") {
        Some(Field::Ext)
    } else if chars_eq_str(key, "name") {
        Some(Field::Name)
    } else {
        None
    }
}

proof fn lemma_non_empty_push(s: Seq<Seq<char>>, x: Seq<char>)
    ensures
        non_empty(s.push(x)) == (if x.len() > 0 {
            non_empty(s).push(x)
        } else {
            non_empty(s)
        }),
{
    assert(s.push(x).drop_last() =~= s);
}

fn lowered_values(vals: &Vec<char>) -> (r: Vec<String>)
    ensures
        texts(r@) == clause_values(vals@),
{
    let pieces = split_chars(vals, Sep::Char(','));
    let ghost ps = views(pieces@);
    let mut out: Vec<String> = Vec::new();
    let mut i: usize = 0;
    assert(lowered(ps.subrange(0, 0)) =~= Seq::<Seq<char>>::empty());
    assert(texts(out@) =~= Seq::<Seq<char>>::empty());
    while i < pieces.len()
        invariant
            0 <= i <= pieces.len(),
            ps == views(pieces@),
            texts(out@) == non_empty(lowered(ps.subrange(0, i as int))),
        decreases pieces.len() - i,
    {
        let low = lowercase_chars(&pieces[i]);
        let ghost before = texts(out@);
        proof {
            assert(ps[i as int] == pieces@[i as int]@);
            assert(lowered(ps.subrange(0, i + 1)) =~= lowered(ps.subrange(0, i as int)).push(
                lowercase_of(ps[i as int]),
            ));
            lemma_non_empty_push(lowered(ps.subrange(0, i as int)), low@);
        }
        if low.len() > 0 {
            let s = string_of(&low);
            out.push(s);
            assert(texts(out@) =~= before.push(low@));
        }
        i += 1;
    }
    assert(ps.subrange(0, pieces.len() as int) =~= ps);
    out
}

fn make_condition(f: Field, values: Vec<String>) -> (c: Condition)
    ensures
        c@ == (CondV { field: f, values: texts(values@) }),
{
    match f {
        Field::Tag => Condition::Tag(values),
        Field::Lang => Condition::Lang(values),
        Field::Ext => Condition::Ext(values),
        Field::Name => Condition::Name(values),
    }
}

fn parse_clause_chars(c: &Vec<char>) -> (r: Option<Condition>)
    ensures
        opt_cond_view(r) == parse_clause(c@),
{
    let colon: Vec<char> = vec![':'];
    assert(colon@ =~= seq![':']);
    match find_chars(c, &colon, 0) {
        None => None,
        Some(k) => {
            assert(occurs_at(c@, colon@, k as int));
            let n = c.len();
            assert(k + 1 <= n);
            let key = slice_chars(c, 0, k);
            let vals = slice_chars(c, k + 1, n);
            let values = lowered_values(&vals);
            match field_of_key(&key) {
                None => None,
                Some(f) => {
                    if values.len() == 0 {
                        None
                    } else {
                        Some(make_condition(f, values))
                    }
                },
            }
        },
    }
}

proof fn lemma_parse_clauses_stays_none(cs: Seq<Seq<char>>, i: int)
    requires
        0 <= i <= cs.len(),
        parse_clauses(cs.subrange(0, i)) is None,
    ensures
        parse_clauses(cs) is None,
    decreases cs.len() - i,
{
    if i < cs.len() {
        assert(cs.subrange(0, i + 1).drop_last() =~= cs.subrange(0, i));
        lemma_parse_clauses_stays_none(cs, i + 1);
    } else {
        assert(cs.subrange(0, i) =~= cs);
    }
}

fn parse_line_chars(l: &Vec<char>) -> (r: Option<OrganizerRule>)
    ensures
        opt_rule_view(r) == parse_line(l@),
{
    let t = trim_chars(l);
    if t.len() == 0 || t[0] == '#' {
        return None;
    }
    let arrow_chars: Vec<char> = vec![' ', '-', '>', ' '];
    assert(arrow_chars@ =~= arrow());
    let i = match find_chars(&t, &arrow_chars, 0) {
        None => {
            return None;
        },
        Some(i) => i,
    };
    let dest_part = slice_chars(&t, i + 4, t.len());
    let dest = trim_chars(&dest_part);
    if dest.len() == 0 {
        return None;
    }
    let cond_part = slice_chars(&t, 0, i);
    let clauses = words_of(&cond_part);
    let ghost cs = views(clauses@);
    let mut conditions: Vec<Condition> = Vec::new();
    let mut k: usize = 0;
    assert(cs.subrange(0, 0) =~= Seq::<Seq<char>>::empty());
    assert(cond_views(conditions@) =~= Seq::<CondV>::empty());
    let ghost whole = parse_line(l@);
    assert(whole == match parse_clauses(cs) {
        Some(ps) => if ps.len() > 0 {
            Some(RuleV { conds: ps, dest: dest@ })
        } else {
            None
        },
        None => None,
    });
    while k < clauses.len()
        invariant
            0 <= k <= clauses.len(),
            cs == views(clauses@),
            whole == parse_line(l@),
            whole == match parse_clauses(cs) {
                Some(ps) => if ps.len() > 0 {
                    Some(RuleV { conds: ps, dest: dest@ })
                } else {
                    None
                },
                None => None,
            },
            parse_clauses(cs.subrange(0, k as int)) == Some(cond_views(conditions@)),
        decreases clauses.len() - k,
    {
        let c = parse_clause_chars(&clauses[k]);
        proof {
            assert(cs[k as int] == clauses@[k as int]@);
            assert(cs.subrange(0, k + 1).drop_last() =~= cs.subrange(0, k as int));
        }
        match c {
            None => {
                proof {
                    lemma_parse_clauses_stays_none(cs, k + 1);
                }
                return None;
            },
            Some(cond) => {
                let ghost before = cond_views(conditions@);
                conditions.push(cond);
                assert(cond_views(conditions@) =~= before.push(cond@));
            },
        }
        k += 1;
    }
    assert(cs.subrange(0, clauses.len() as int) =~= cs);
    if conditions.len() == 0 {
        return None;
    }
    Some(OrganizerRule { conditions, dest: string_of(&dest) })
}

/// Parses the text of `ORGANIZER.md` into its rules, in order.
pub fn parse_rules(organizer_md: &str) -> (r: Vec<OrganizerRule>)
    ensures
        rule_views(r@) == rules_of(organizer_md@),
{
    let text = chars_of(organizer_md);
    let ls = lines_of(&text);
    let ghost lv = views(ls@);
    let mut rules: Vec<OrganizerRule> = Vec::new();
    let mut i: usize = 0;
    assert(lv.subrange(0, 0) =~= Seq::<Seq<char>>::empty());
    assert(rule_views(rules@) =~= Seq::<RuleV>::empty());
    while i < ls.len()
        invariant
            0 <= i <= ls.len(),
            lv == views(ls@),
            rule_views(rules@) == parse_lines(lv.subrange(0, i as int)),
        decreases ls.len() - i,
    {
        let r = parse_line_chars(&ls[i]);
        proof {
            assert(lv[i as int] == ls@[i as int]@);
            assert(lv.subrange(0, i + 1).drop_last() =~= lv.subrange(0, i as int));
        }
        match r {
            Some(rule) => {
                let ghost before = rule_views(rules@);
                rules.push(rule);
                assert(rule_views(rules@) =~= before.push(rule@));
            },
            None => {},
        }
        i += 1;
    }
    assert(lv.subrange(0, ls.len() as int) =~= lv);
    rules
}

// ───────────────────────────── matching ─────────────────────────────

/// Whether some value equals `x`.
fn any_equal(values: &Vec<String>, x: &Vec<char>) -> (b: bool)
    ensures
        b == texts(values@).contains(x@),
{
    let mut i: usize = 0;
    while i < values.len()
        invariant
            0 <= i <= values.len(),
            forall|j: int| 0 <= j < i ==> texts(values@)[j] != x@,
        decreases values.len() - i,
    {
        let v = chars_of(values[i].as_str());
        if same_chars(&v, x) {
            assert(texts(values@)[i as int] == x@);
            return true;
        }
        i += 1;
    }
    false
}

/// Whether some value occurs inside `s`.
fn any_within(values: &Vec<String>, s: &Vec<char>) -> (b: bool)
    ensures
        b == exists|i: int| 0 <= i < values.len() && contains_seq(s@, #[trigger] texts(values@)[i]),
{
    let mut i: usize = 0;
    while i < values.len()
        invariant
            0 <= i <= values.len(),
            forall|j: int| 0 <= j < i ==> !contains_seq(s@, #[trigger] texts(values@)[j]),
        decreases values.len() - i,
    {
        let v = chars_of(values[i].as_str());
        if contains_chars(s, &v) {
            assert(contains_seq(s@, texts(values@)[i as int]));
            return true;
        }
        i += 1;
    }
    false
}

/// Whether a condition holds of attributes taken as they are.
fn condition_matches_exact(cond: &Condition, attrs: &FileAttrs) -> (b: bool)
    ensures
        b == cond_holds_exact(cond@, attrs@),
{
    match cond {
        Condition::Tag(values) => {
            let tags = attrs.topic_tags;
            let mut j: usize = 0;
            while j < tags.len()
                invariant
                    0 <= j <= tags.len(),
                    tags@ == attrs.topic_tags@,
                    cond@ == (CondV { field: Field::Tag, values: texts(values@) }),
                    forall|t: int| 0 <= t < j ==> !texts(values@).contains(#[trigger] texts(tags@)[t]),
                decreases tags.len() - j,
            {
                let t = chars_of(tags[j].as_str());
                if any_equal(values, &t) {
                    proof {
                        let i = choose|i: int| 0 <= i < texts(values@).len() && texts(values@)[i] == t@;
                        let cv = cond@;
                        let av = attrs@;
                        assert(av.tags[j as int] == tags@[j as int]@);
                        assert(cv.values[i] == av.tags[j as int]);
                    }
                    return true;
                }
                j += 1;
            }
            proof {
                assert forall|i: int, t: int|
                    0 <= i < texts(values@).len() && 0 <= t < texts(tags@).len() implies #[trigger] texts(
                        values@,
                    )[i] != #[trigger] texts(tags@)[t] by {
                    assert(!texts(values@).contains(texts(tags@)[t]));
                }
            }
            false
        },
        Condition::Lang(values) => {
            let v = chars_of(attrs.language);
            any_equal(values, &v)
        },
        Condition::Ext(values) => {
            let v = chars_of(attrs.ext);
            any_equal(values, &v)
        },
        Condition::Name(values) => {
            let v = chars_of(attrs.filename);
            any_within(values, &v)
        },
    }
}

fn rule_matches_exact(rule: &OrganizerRule, attrs: &FileAttrs) -> (b: bool)
    ensures
        b == rule_holds_exact(rule@, attrs@),
{
    let mut k: usize = 0;
    while k < rule.conditions.len()
        invariant
            0 <= k <= rule.conditions.len(),
            forall|j: int| 0 <= j < k ==> cond_holds_exact(#[trigger] cond_views(rule.conditions@)[j], attrs@),
        decreases rule.conditions.len() - k,
    {
        if !condition_matches_exact(&rule.conditions[k], attrs) {
            proof {
                let rv = rule@;
                assert(rv.conds[k as int] == rule.conditions@[k as int]@);
                assert(!rule_holds_exact(rv, attrs@));
            }
            return false;
        }
        k += 1;
    }
    true
}

/// The destination of the first rule all of whose conditions hold of
/// attributes taken as they are, or `None`. Rule values are lower-cased when
/// parsed, so the attributes given here are expected in lower case.
pub fn derive_dest_lowered(rules: &[OrganizerRule], attrs: &FileAttrs) -> (r: Option<String>)
    ensures
        crate::path::opt_seq(r) == first_match_exact(rule_views(rules@), attrs@),
{
    let ghost rs = rule_views(rules@);
    let mut i: usize = 0;
    assert(rs.subrange(0, rs.len() as int) =~= rs);
    while i < rules.len()
        invariant
            0 <= i <= rules.len(),
            rs == rule_views(rules@),
            first_match_exact(rs, attrs@) == first_match_exact(rs.subrange(i as int, rs.len() as int), attrs@),
        decreases rules.len() - i,
    {
        let ghost rest = rs.subrange(i as int, rs.len() as int);
        assert(rest[0] == rules@[i as int]@);
        if rule_matches_exact(&rules[i], attrs) {
            return Some(rules[i].dest.clone());
        }
        assert(rest.drop_first() =~= rs.subrange(i + 1, rs.len() as int));
        i += 1;
    }
    assert(rs.subrange(i as int, rs.len() as int) =~= Seq::<RuleV>::empty());
    None
}

fn lowered_string(s: &str) -> (r: String)
    ensures
        r@ == lowercase_of(s@),
{
    let v = chars_of(s);
    string_of(&lowercase_chars(&v))
}

/// The destination of the first rule all of whose conditions hold, or
/// `None`; the file's attributes are compared in lower case.
pub fn derive_dest(rules: &[OrganizerRule], attrs: &FileAttrs) -> (r: Option<String>)
    ensures
        crate::path::opt_seq(r) == first_match(rule_views(rules@), attrs@),
{
    let filename = lowered_string(attrs.filename);
    let ext = lowered_string(attrs.ext);
    let language = lowered_string(attrs.language);
    let mut tags: Vec<String> = Vec::new();
    let mut j: usize = 0;
    while j < attrs.topic_tags.len()
        invariant
            0 <= j <= attrs.topic_tags.len(),
            texts(tags@) == lowered(texts(attrs.topic_tags@).subrange(0, j as int)),
        decreases attrs.topic_tags.len() - j,
    {
        let ghost before = tags@;
        let l = lowered_string(attrs.topic_tags[j].as_str());
        tags.push(l);
        proof {
            let tt = texts(attrs.topic_tags@);
            assert(texts(tags@) =~= texts(before).push(l@));
            assert(tt[j as int] == attrs.topic_tags@[j as int]@);
            assert(lowered(tt.subrange(0, j + 1)) =~= lowered(tt.subrange(0, j as int)).push(lowercase_of(tt[j as int])));
        }
        j += 1;
    }
    assert(texts(attrs.topic_tags@).subrange(0, j as int) =~= texts(attrs.topic_tags@));
    let low = FileAttrs {
        filename: filename.as_str(),
        ext: ext.as_str(),
        topic_tags: tags.as_slice(),
        language: language.as_str(),
    };
    assert(low@ == lower_attrs(attrs@));
    proof {
        lemma_match_ignores_case(rule_views(rules@), attrs@);
    }
    derive_dest_lowered(rules, &low)
}

} // verus!
