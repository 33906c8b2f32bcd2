//! Changes to the organising rules: the checks a proposed `ORGANIZER.md`
//! must pass, the line diff shown to the user for approval, and the texts
//! that go with a proposal.
//!
//! A proposal never writes `ORGANIZER.md` itself; only an approved change is
//! applied, and the previous file is kept under a timestamped backup name.

use vstd::prelude::*;
use crate::organizer::{rules_of, parse_rules, rule_views, RuleV};
use crate::text::{
    chars_of, contains_chars, contains_seq, lines, lines_of, push_char, push_chars, push_decimal,
    push_str, same_chars, trim, trim_chars, views, decimal,
};

verus! {

/// One change explained to the user: `kind` is "add", "modify" or "delete".
#[derive(Debug, Clone)]
pub struct SummaryCard {
    pub kind: String,
    pub description: String,
    pub rule_line: Option<String>,
}

// ───────────────────────────── destination check ─────────────────────────────

pub open spec fn absolute_message(d: Seq<char>) -> Seq<char> {
    "규칙 거부 (R5): 목적지 '"@ + d + "' 는 절대 경로입니다. 상대 경로만 허용됩니다."@
}

pub open spec fn traversal_message(d: Seq<char>) -> Seq<char> {
    "규칙 거부 (R5): 목적지 '"@ + d + "' 에 경로 탐색 '..' 이 포함됩니다."@
}

/// What is wrong with a destination: absolute, or climbing with `..`.
pub open spec fn dest_problem(d: Seq<char>) -> Option<Seq<char>> {
    if d.len() > 0 && d[0] == '/' {
        Some(absolute_message(d))
    } else if contains_seq(d, seq!['.', '.']) {
        Some(traversal_message(d))
    } else {
        None
    }
}

/// The problem of the first rule whose destination has one.
pub open spec fn first_problem(rs: Seq<RuleV>) -> Option<Seq<char>>
    decreases rs.len(),
{
    if rs.len() == 0 {
        None
    } else {
        match dest_problem(rs[0].dest) {
            Some(m) => Some(m),
            None => first_problem(rs.drop_first()),
        }
    }
}

proof fn lemma_first_problem_none(rs: Seq<RuleV>)
    ensures
        first_problem(rs) is None <==> forall|k: int|
            0 <= k < rs.len() ==> dest_problem(#[trigger] rs[k].dest) is None,
    decreases rs.len(),
{
    if rs.len() > 0 {
        let t = rs.drop_first();
        lemma_first_problem_none(t);
        if dest_problem(rs[0].dest) is None {
            if forall|k: int| 0 <= k < t.len() ==> dest_problem(#[trigger] t[k].dest) is None {
                assert forall|k: int| 0 <= k < rs.len() implies dest_problem(
                    #[trigger] rs[k].dest,
                ) is None by {
                    if k > 0 {
                        assert(rs[k] == t[k - 1]);
                    }
                }
            } else {
                let k = choose|k: int| 0 <= k < t.len() && !(dest_problem(#[trigger] t[k].dest) is None);
                assert(rs[k + 1] == t[k]);
            }
        }
    }
}

fn dest_check(d: &String) -> (r: Result<(), String>)
    ensures
        match r {
            Ok(()) => dest_problem(d@) is None,
            Err(m) => dest_problem(d@) == Some(m@),
        },
{
    let v = chars_of(d.as_str());
    if v.len() > 0 && v[0] == '/' {
        let mut m = String::new();
        push_str(&mut m, "규칙 거부 (R5): 목적지 '");
        push_str(&mut m, d.as_str());
        push_str(&mut m, "' 는 절대 경로입니다. 상대 경로만 허용됩니다.");
        return Err(m);
    }
    let dots: Vec<char> = vec!['.', '.'];
    assert(dots@ =~= seq!['.', '.']);
    if contains_chars(&v, &dots) {
        let mut m = String::new();
        push_str(&mut m, "규칙 거부 (R5): 목적지 '");
        push_str(&mut m, d.as_str());
        push_str(&mut m, "' 에 경로 탐색 '..' 이 포함됩니다.");
        return Err(m);
    }
    Ok(())
}

/// Checks that every rule of a proposed `ORGANIZER.md` sends files to a
/// relative destination without `..`; the error names the first rule that does not.
pub fn validate_rule_destinations(new_content: &str) -> (r: Result<(), String>)
    ensures
        match r {
            Ok(()) => first_problem(rules_of(new_content@)) is None,
            Err(m) => first_problem(rules_of(new_content@)) == Some(m@),
        },
        r is Ok <==> forall|k: int|
            0 <= k < rules_of(new_content@).len() ==> dest_problem(
                #[trigger] rules_of(new_content@)[k].dest,
            ) is None,
{
    let rules = parse_rules(new_content);
    let ghost rs = rule_views(rules@);
    proof {
        lemma_first_problem_none(rs);
    }
    let mut i: usize = 0;
    assert(rs.subrange(0, rs.len() as int) =~= rs);
    while i < rules.len()
        invariant
            0 <= i <= rules.len(),
            rs == rule_views(rules@),
            rs == rules_of(new_content@),
            first_problem(rs) is None <==> forall|k: int|
                0 <= k < rs.len() ==> dest_problem(#[trigger] rs[k].dest) is None,
            first_problem(rs) == first_problem(rs.subrange(i as int, rs.len() as int)),
        decreases rules.len() - i,
    {
        let ghost rest = rs.subrange(i as int, rs.len() as int);
        assert(rest[0] == rules@[i as int]@);
        match dest_check(&rules[i].dest) {
            Err(m) => {
                return Err(m);
            },
            Ok(()) => {},
        }
        assert(rest.drop_first() =~= rs.subrange(i + 1, rs.len() as int));
        i += 1;
    }
    assert(rs.subrange(i as int, rs.len() as int) =~= Seq::<RuleV>::empty());
    Ok(())
}

// ───────────────────────────── line diff ─────────────────────────────

/// `k` is the length of the longest common prefix of `a` and `b`.
pub open spec fn is_common_prefix(a: Seq<Seq<char>>, b: Seq<Seq<char>>, k: int) -> bool {
    &&& 0 <= k <= a.len()
    &&& k <= b.len()
    &&& forall|i: int| 0 <= i < k ==> a[i] == b[i]
    &&& (k == a.len() || k == b.len() || a[k] != b[k])
}

/// The `i`-th line of `a` counted from its end.
pub open spec fn from_end(a: Seq<Seq<char>>, i: int) -> Seq<char> {
    a[a.len() - 1 - i]
}

/// `k` is the length of the longest common suffix of `a` and `b` that leaves
/// their first `p` lines alone.
pub open spec fn is_common_suffix(a: Seq<Seq<char>>, b: Seq<Seq<char>>, p: int, k: int) -> bool {
    &&& 0 <= k
    &&& k <= a.len() - p
    &&& k <= b.len() - p
    &&& forall|i: int| 0 <= i < k ==> #[trigger] from_end(a, i) == from_end(b, i)
    &&& (k == a.len() - p || k == b.len() - p || from_end(a, k) != from_end(b, k))
}

pub open spec fn common_prefix(a: Seq<Seq<char>>, b: Seq<Seq<char>>) -> int {
    choose|k: int| is_common_prefix(a, b, k)
}

pub open spec fn common_suffix(a: Seq<Seq<char>>, b: Seq<Seq<char>>, p: int) -> int {
    choose|k: int| is_common_suffix(a, b, p, k)
}

/// Each line written as `<mark> <line>` and a line break.
pub open spec fn marked(ls: Seq<Seq<char>>, m: char) -> Seq<char>
    decreases ls.len(),
{
    if ls.len() == 0 {
        Seq::empty()
    } else {
        marked(ls.drop_last(), m) + seq![m, ' '] + ls.last() + seq!['\n']
    }
}

/// The changed middle of two line lists: removed lines marked `-`, then added
/// lines marked `+`.
pub open spec fn diff_body(a: Seq<Seq<char>>, b: Seq<Seq<char>>) -> Seq<char> {
    let p = common_prefix(a, b);
    let s = common_suffix(a, b, p);
    marked(a.subrange(p, a.len() - s), '-') + marked(b.subrange(p, b.len() - s), '+')
}

/// The diff shown for a rule change.
pub open spec fn diff_text(before: Seq<char>, after: Seq<char>) -> Seq<char> {
    if before == after {
        "(변경 없음)"@
    } else {
        let body = diff_body(lines(before), lines(after));
        if trim(body).len() == 0 {
            "(내용 동일)"@
        } else {
            body
        }
    }
}

proof fn lemma_prefix_unique(a: Seq<Seq<char>>, b: Seq<Seq<char>>, k: int)
    requires
        is_common_prefix(a, b, k),
    ensures
        common_prefix(a, b) == k,
{
    let c = common_prefix(a, b);
    assert(is_common_prefix(a, b, c));
    if c < k {
        assert(a[c] == b[c]);
    } else if k < c {
        assert(a[k] == b[k]);
    }
}

proof fn lemma_suffix_unique(a: Seq<Seq<char>>, b: Seq<Seq<char>>, p: int, k: int)
    requires
        is_common_suffix(a, b, p, k),
    ensures
        common_suffix(a, b, p) == k,
{
    let c = common_suffix(a, b, p);
    assert(is_common_suffix(a, b, p, c));
    if c < k {
        assert(from_end(a, c) == from_end(b, c));
    } else if k < c {
        assert(from_end(a, k) == from_end(b, k));
    }
}

/// Appends `<mark> <line>\n` for each of `ls[from..to]`.
fn push_marked(out: &mut String, ls: &Vec<Vec<char>>, from: usize, to: usize, m: char)
    requires
        from <= to <= ls.len(),
    ensures
        final(out)@ == old(out)@ + marked(views(ls@).subrange(from as int, to as int), m),
{
    let ghost lv = views(ls@);
    let mut j: usize = from;
    assert(lv.subrange(from as int, from as int) =~= Seq::<Seq<char>>::empty());
    assert(old(out)@ + marked(lv.subrange(from as int, from as int), m) =~= old(out)@);
    while j < to
        invariant
            from <= j <= to <= ls.len(),
            lv == views(ls@),
            out@ == old(out)@ + marked(lv.subrange(from as int, j as int), m),
        decreases to - j,
    {
        let ghost before = out@;
        push_char(out, m);
        push_char(out, ' ');
        push_chars(out, &ls[j]);
        push_char(out, '\n');
        proof {
            let next = lv.subrange(from as int, j + 1);
            assert(next.drop_last() =~= lv.subrange(from as int, j as int));
            assert(next.last() == ls@[j as int]@);
            assert(out@ =~= before + seq![m, ' '] + ls@[j as int]@ + seq!['\n']);
        }
        j += 1;
    }
}

/// A line-based diff of two texts: the lines between their common prefix and
/// common suffix, removed ones marked `- ` and added ones `+ `, each ending in
/// a line break. `(변경 없음)` when the texts are equal, `(내용 동일)` when
/// they differ but no line does.
pub fn compute_diff(before: &str, after: &str) -> (d: String)
    ensures
        d@ == diff_text(before@, after@),
        before@ == after@ ==> d@ == "(변경 없음)"@,
{
    let bv = chars_of(before);
    let av = chars_of(after);
    if same_chars(&bv, &av) {
        return "(변경 없음)".to_string();
    }
    let bl = lines_of(&bv);
    let al = lines_of(&av);
    let ghost a = views(bl@);
    let ghost b = views(al@);
    let mut prefix: usize = 0;
    while prefix < bl.len() && prefix < al.len() && same_chars(&bl[prefix], &al[prefix])
        invariant
            0 <= prefix <= bl.len(),
            prefix <= al.len(),
            a == views(bl@),
            b == views(al@),
            forall|i: int| 0 <= i < prefix ==> a[i] == b[i],
        decreases bl.len() - prefix,
    {
        assert(a[prefix as int] == b[prefix as int]);
        prefix += 1;
    }
    proof {
        assert(is_common_prefix(a, b, prefix as int));
        lemma_prefix_unique(a, b, prefix as int);
    }
    let b_rest: usize = bl.len() - prefix;
    let a_rest: usize = al.len() - prefix;
    let max_suffix: usize = if b_rest < a_rest {
        b_rest
    } else {
        a_rest
    };
    let mut suffix: usize = 0;
    while suffix < max_suffix && same_chars(
        &bl[bl.len() - 1 - suffix],
        &al[al.len() - 1 - suffix],
    )
        invariant
            0 <= suffix <= max_suffix,
            max_suffix <= bl.len() - prefix,
            max_suffix <= al.len() - prefix,
            max_suffix == bl.len() - prefix || max_suffix == al.len() - prefix,
            prefix <= bl.len(),
            prefix <= al.len(),
            a == views(bl@),
            b == views(al@),
            forall|i: int| 0 <= i < suffix ==> #[trigger] from_end(a, i) == from_end(b, i),
        decreases max_suffix - suffix,
    {
        assert(from_end(a, suffix as int) == from_end(b, suffix as int));
        suffix += 1;
    }
    proof {
        assert(is_common_suffix(a, b, prefix as int, suffix as int));
        lemma_suffix_unique(a, b, prefix as int, suffix as int);
    }
    let b_end: usize = bl.len() - suffix;
    let a_end: usize = al.len() - suffix;
    let mut result = String::new();
    push_marked(&mut result, &bl, prefix, b_end, '-');
    push_marked(&mut result, &al, prefix, a_end, '+');
    assert(result@ =~= diff_body(a, b));
    let rv = chars_of(result.as_str());
    let t = trim_chars(&rv);
    if t.len() == 0 {
        "(내용 동일)".to_string()
    } else {
        result
    }
}

// ───────────────────────────── proposal texts ─────────────────────────────

/// The name under which the previous `ORGANIZER.md` is kept when a change is applied.
pub fn backup_file_name(now_secs: u64) -> (r: String)
    ensures
        r@ == "ORGANIZER.md.bak."@ + decimal(now_secs as nat),
{
    let mut r = String::new();
    push_str(&mut r, "ORGANIZER.md.bak.");
    push_decimal(&mut r, now_secs as u128);
    r
}

/// The identifier of a rule change proposed at `now_ms` milliseconds.
pub fn rule_change_id(now_ms: u128) -> (r: String)
    ensures
        r@ == "rc-"@ + decimal(now_ms as nat),
{
    let mut r = String::new();
    push_str(&mut r, "rc-");
    push_decimal(&mut r, now_ms);
    r
}

/// The opening of the request for a rule change, before the current rules.
pub const RULES_PROMPT_HEAD: &'static str = "You are editing a TidyDog ORGANIZER.md rule file.\n\nCurrent ORGANIZER.md:\n```\n";

/// What comes between the current rules and the user's request.
pub const RULES_PROMPT_MIDDLE: &'static str = "```\n\nUser request: ";

/// The format reminder and reply instructions after the user's request.
pub const RULES_PROMPT_TAIL: &'static str = "\n\nORGANIZER.md format:\n- Each rule line: `<conditions> -> <dest>`\n- Condition types: tag:, lang:, ext:, name: (comma=OR, space=AND)\n- Destinations MUST be relative paths (no leading /, no ..)\n- First-match-wins (order matters)\n- Lines starting with # are comments\n\nGenerate a modified ORGANIZER.md and summary cards.\nRespond ONLY with valid JSON (no markdown fences):\n{\"new_content\": \"the full new ORGANIZER.md text\",\"summary_cards\": [{\"kind\": \"add\", \"description\": \"앞으로 스크린샷은 사진/스크린샷으로\",\"rule_line\": \"name:screenshot,스크린샷 -> 사진/스크린샷\"}]}\nkind must be: \"add\", \"modify\", or \"delete\".\ndescription must be in Korean.\nKeep existing rules unless the user's request says to change them.";

/// The request text asking the model for a new `ORGANIZER.md`.
pub fn rules_prompt(current_content: &str, request: &str) -> (r: String)
    ensures
        r@ == RULES_PROMPT_HEAD@ + current_content@ + RULES_PROMPT_MIDDLE@ + request@ + RULES_PROMPT_TAIL@,
{
    let mut r = String::new();
    push_str(&mut r, RULES_PROMPT_HEAD);
    push_str(&mut r, current_content);
    push_str(&mut r, RULES_PROMPT_MIDDLE);
    push_str(&mut r, request);
    push_str(&mut r, RULES_PROMPT_TAIL);
    r
}

// ───────────────────────────── the model's proposal ─────────────────────────────

/// A summary card's fields as values: kind, description, rule line (each when present as text).
pub type CardFieldsV = (Option<Seq<char>>, Option<Seq<char>>, Option<Seq<char>>);

/// The fields of the model's proposal as values: the new content and the cards.
pub type ProposalFieldsV = (Option<Seq<char>>, Option<Seq<CardFieldsV>>);

pub open spec fn card_fields_view(c: (Option<String>, Option<String>, Option<String>)) -> CardFieldsV {
    (crate::path::opt_seq(c.0), crate::path::opt_seq(c.1), crate::path::opt_seq(c.2))
}

/// A card as values: kind, description, rule line.
pub open spec fn card_view(c: SummaryCard) -> (Seq<char>, Seq<char>, Option<Seq<char>>) {
    (c.kind@, c.description@, crate::path::opt_seq(c.rule_line))
}

/// The cards of a proposal: those that have a kind and a description, in order.
pub open spec fn cards_of(v: Seq<CardFieldsV>) -> Seq<(Seq<char>, Seq<char>, Option<Seq<char>>)>
    decreases v.len(),
{
    if v.len() == 0 {
        Seq::empty()
    } else {
        let c = v.last();
        match (c.0, c.1) {
            (Some(k), Some(d)) => cards_of(v.drop_last()).push((k, d, c.2)),
            _ => cards_of(v.drop_last()),
        }
    }
}

/// The fields `serde_json` reads from the model's proposal text (the new
/// content, and each card's kind, description and rule line), or the text of
/// its parse error.
pub uninterp spec fn proposal_fields(text: Seq<char>) -> Result<ProposalFieldsV, Seq<char>>;

/// `serde_json::from_str` on the proposal text, and its fields read from the
/// JSON value: `new_content` if a string, `summary_cards` if an array (for each
/// item its `kind`, `description` and `rule_line` where they are strings).
/// Claims the result is the named reading.
#[verifier::external_body]
fn parse_proposal(text: &str) -> (r: Result<(Option<String>, Option<Vec<(Option<String>, Option<String>, Option<String>)>>), String>)
    ensures
        match r {
            Ok(f) => proposal_fields(text@) == Ok::<ProposalFieldsV, Seq<char>>((crate::path::opt_seq(f.0), match f.1 {
                Some(v) => Some(v@.map_values(|c: (Option<String>, Option<String>, Option<String>)| card_fields_view(c))),
                None => None,
            })),
            Err(m) => proposal_fields(text@) == Err::<ProposalFieldsV, Seq<char>>(m@),
        },
{
    let v: serde_json::Value = serde_json::from_str(text).map_err(|e| e.to_string())?;
    let s = |x: &serde_json::Value, k: &str| x.get(k).and_then(|t| t.as_str()).map(|t| t.to_string());
    let cards = v.get("summary_cards").and_then(|a| a.as_array()).map(|a| a.iter().map(|c| (s(c, "kind"), s(c, "description"), s(c, "rule_line"))).collect());
    Ok((s(&v, "new_content"), cards))
}

/// The new `ORGANIZER.md` and the summary cards the model's answer proposes:
/// its text (`content[0].text`, `None` when the answer has none) read as
/// JSON; the new content is required, and cards without a kind or a
/// description are left out.
pub fn proposal_from_model_text(text: Option<&str>) -> (r: Result<(String, Vec<SummaryCard>), String>)
    ensures
        text is None ==> (r matches Err(m) && m@ == "LLM 응답에서 텍스트 없음"@),
        text matches Some(t) ==> match proposal_fields(t@) {
            Err(e) => r matches Err(m) && m@ == "LLM JSON 파싱 실패: "@ + e + ". 응답: "@ + t@,
            Ok(f) => match f.0 {
                None => r matches Err(m) && m@ == "LLM 응답에 'new_content' 없음"@,
                Some(c) => r matches Ok(p) && p.0@ == c && p.1@.map_values(|k: SummaryCard| card_view(k))
                    == (match f.1 {
                    Some(v) => cards_of(v),
                    None => Seq::empty(),
                }),
            },
        },
{
    let t = match text {
        Some(t) => t,
        None => {
            return Err("LLM 응답에서 텍스트 없음".to_string());
        },
    };
    let (content, cards) = match parse_proposal(t) {
        Ok(f) => f,
        Err(e) => {
            let mut m = String::new();
            push_str(&mut m, "LLM JSON 파싱 실패: ");
            push_str(&mut m, e.as_str());
            push_str(&mut m, ". 응답: ");
            push_str(&mut m, t);
            return Err(m);
        },
    };
    let new_content = match content {
        Some(c) => c,
        None => {
            return Err("LLM 응답에 'new_content' 없음".to_string());
        },
    };
    let mut out: Vec<SummaryCard> = Vec::new();
    match cards {
        Some(v) => {
            let ghost fv = v@.map_values(|c: (Option<String>, Option<String>, Option<String>)| card_fields_view(c));
            let mut i: usize = 0;
            assert(fv.subrange(0, 0) =~= Seq::<CardFieldsV>::empty());
            assert(out@.map_values(|k: SummaryCard| card_view(k)) =~= cards_of(fv.subrange(0, 0)));
            while i < v.len()
                invariant
                    0 <= i <= v.len(),
                    fv == v@.map_values(|c: (Option<String>, Option<String>, Option<String>)| card_fields_view(c)),
                    out@.map_values(|k: SummaryCard| card_view(k)) == cards_of(fv.subrange(0, i as int)),
                decreases v.len() - i,
            {
                let ghost before = out@;
                assert(fv.subrange(0, i + 1).drop_last() =~= fv.subrange(0, i as int));
                assert(fv.subrange(0, i + 1).last() == card_fields_view(v@[i as int]));
                match (&v[i].0, &v[i].1) {
                    (Some(k), Some(d)) => {
                        let card = SummaryCard {
                            kind: k.clone(),
                            description: d.clone(),
                            rule_line: match &v[i].2 {
                                Some(l) => Some(l.clone()),
                                None => None,
                            },
                        };
                        out.push(card);
                        assert(out@.map_values(|k: SummaryCard| card_view(k)) =~= before.map_values(
                            |k: SummaryCard| card_view(k),
                        ).push(card_view(out@.last())));
                    },
                    _ => {},
                }
                i += 1;
            }
            assert(fv.subrange(0, v.len() as int) =~= fv);
        },
        None => {
            assert(out@.map_values(|k: SummaryCard| card_view(k)) =~= Seq::<(Seq<char>, Seq<char>, Option<Seq<char>>)>::empty());
        },
    }
    Ok((new_content, out))
}

} // verus!
