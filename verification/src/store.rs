//! Storage encodings: the JSON text kept with a plan for its operations, and
//! the JSON lists of texts kept for tags and created folders.
//!
//! The database itself is the application's adapter; the encodings are
//! computed here.

use vstd::prelude::*;
use crate::model::{
    action_from_str, action_name, action_named, conflict_from_str, conflict_name, conflict_named, op_views, texts,
    OpV, PlanOp,
};
use crate::text::{
    chars_eq_str, chars_of, decimal, join, push_decimal, push_str, replace_char, replace_chars, trim, trim_chars,
};

verus! {

/// `s` escaped for a JSON string: backslashes doubled, then quotes escaped.
pub open spec fn json_escaped(s: Seq<char>) -> Seq<char> {
    replace_char(replace_char(s, '\\', "\\\\"@), '"', "\\\""@)
}

/// `s` as a JSON string literal.
pub open spec fn json_quoted(s: Seq<char>) -> Seq<char> {
    seq!['"'] + json_escaped(s) + seq!['"']
}

/// A text as a quoted JSON string (backslashes and quotes escaped).
pub fn json_str(s: &str) -> (r: String)
    ensures
        r@ == json_quoted(s@),
{
    let v = chars_of(s);
    let once = replace_chars(&v, '\\', "\\\\");
    let w = chars_of(once.as_str());
    let twice = replace_chars(&w, '"', "\\\"");
    let mut r = String::new();
    crate::text::push_char(&mut r, '"');
    push_str(&mut r, twice.as_str());
    crate::text::push_char(&mut r, '"');
    r
}

/// One operation as a JSON object.
pub open spec fn op_json(o: OpV) -> Seq<char> {
    "{\"op_id\":"@ + json_quoted(o.op_id) + ",\"seq\":"@ + decimal(o.seq as nat) + ",\"action\":"@
        + json_quoted(action_name(o.action)) + ",\"content_hash\":"@ + json_quoted(o.content_hash)
        + ",\"from\":"@ + json_quoted(o.from) + ",\"to\":"@ + json_quoted(o.to) + ",\"conflict\":"@
        + json_quoted(conflict_name(o.conflict)) + ",\"reason\":"@ + (match o.reason {
        Some(r) => json_quoted(r),
        None => "null"@,
    }) + "}"@
}

/// A plan's operations as a JSON array, in order.
pub open spec fn ops_json(os: Seq<OpV>) -> Seq<char> {
    "["@ + join(os.map_values(|o: OpV| op_json(o)), ","@) + "]"@
}

fn op_to_json(op: &PlanOp) -> (r: String)
    ensures
        r@ == op_json(op@),
{
    let mut r = String::new();
    push_str(&mut r, "{\"op_id\":");
    push_str(&mut r, json_str(op.op_id.as_str()).as_str());
    push_str(&mut r, ",\"seq\":");
    push_decimal(&mut r, op.seq as u128);
    push_str(&mut r, ",\"action\":");
    push_str(&mut r, json_str(op.action.as_str()).as_str());
    push_str(&mut r, ",\"content_hash\":");
    push_str(&mut r, json_str(op.content_hash.as_str()).as_str());
    push_str(&mut r, ",\"from\":");
    push_str(&mut r, json_str(op.from.as_str()).as_str());
    push_str(&mut r, ",\"to\":");
    push_str(&mut r, json_str(op.to.as_str()).as_str());
    push_str(&mut r, ",\"conflict\":");
    push_str(&mut r, json_str(op.conflict.as_str()).as_str());
    push_str(&mut r, ",\"reason\":");
    match &op.reason {
        Some(reason) => push_str(&mut r, json_str(reason.as_str()).as_str()),
        None => push_str(&mut r, "null"),
    }
    push_str(&mut r, "}");
    r
}

/// A plan's operations as the JSON text stored with the plan.
pub fn serde_ops(ops: &[PlanOp]) -> (r: String)
    ensures
        r@ == ops_json(op_views(ops@)),
{
    let mut entries: Vec<String> = Vec::new();
    let ghost os = op_views(ops@);
    let mut i: usize = 0;
    assert(crate::model::texts(entries@) =~= os.subrange(0, 0).map_values(|o: OpV| op_json(o)));
    while i < ops.len()
        invariant
            0 <= i <= ops.len(),
            os == op_views(ops@),
            crate::model::texts(entries@) == os.subrange(0, i as int).map_values(|o: OpV| op_json(o)),
        decreases ops.len() - i,
    {
        let e = op_to_json(&ops[i]);
        let ghost before = crate::model::texts(entries@);
        entries.push(e);
        proof {
            assert(os[i as int] == ops@[i as int]@);
            assert(crate::model::texts(entries@) =~= before.push(e@));
            assert(os.subrange(0, i + 1).map_values(|o: OpV| op_json(o)) =~= os.subrange(
                0,
                i as int,
            ).map_values(|o: OpV| op_json(o)).push(op_json(os[i as int])));
        }
        i += 1;
    }
    assert(os.subrange(0, ops.len() as int) =~= os);
    let body = crate::model::join_with(entries.as_slice(), ",");
    let mut r = String::new();
    push_str(&mut r, "[");
    push_str(&mut r, body.as_str());
    push_str(&mut r, "]");
    r
}

// ───────────────────────────── reading stored JSON ─────────────────────────────

/// An operation's fields as read from stored JSON, each when present with
/// the right type.
pub struct StoredOp {
    pub op_id: Option<String>,
    pub seq: Option<u64>,
    pub action: Option<String>,
    pub content_hash: Option<String>,
    pub from: Option<String>,
    pub to: Option<String>,
    pub conflict: Option<String>,
    pub reason: Option<String>,
}

pub struct StoredOpV {
    pub op_id: Option<Seq<char>>,
    pub seq: Option<u64>,
    pub action: Option<Seq<char>>,
    pub content_hash: Option<Seq<char>>,
    pub from: Option<Seq<char>>,
    pub to: Option<Seq<char>>,
    pub conflict: Option<Seq<char>>,
    pub reason: Option<Seq<char>>,
}

impl View for StoredOp {
    type V = StoredOpV;

    open spec fn view(&self) -> StoredOpV {
        StoredOpV {
            op_id: crate::path::opt_seq(self.op_id),
            seq: self.seq,
            action: crate::path::opt_seq(self.action),
            content_hash: crate::path::opt_seq(self.content_hash),
            from: crate::path::opt_seq(self.from),
            to: crate::path::opt_seq(self.to),
            conflict: crate::path::opt_seq(self.conflict),
            reason: crate::path::opt_seq(self.reason),
        }
    }
}

/// The operation stored fields describe: `None` unless id, sequence number,
/// action, hash, source and destination are all there; the sequence number
/// is cut to 32 bits; a missing conflict reads as "none".
pub open spec fn op_of_stored(o: StoredOpV) -> Option<OpV> {
    match (o.op_id, o.seq, o.action, o.content_hash, o.from, o.to) {
        (Some(id), Some(n), Some(a), Some(h), Some(f), Some(t)) => Some(
            OpV {
                op_id: id,
                seq: n as u32,
                action: action_named(a),
                content_hash: h,
                from: f,
                to: t,
                conflict: conflict_named(
                    match o.conflict {
                        Some(c) => c,
                        None => "none"@,
                    },
                ),
                reason: o.reason,
            },
        ),
        _ => None,
    }
}

/// The operations of a list of stored items, in order, skipping incomplete ones.
pub open spec fn ops_of_stored(v: Seq<StoredOpV>) -> Seq<OpV>
    decreases v.len(),
{
    if v.len() == 0 {
        Seq::empty()
    } else {
        match op_of_stored(v.last()) {
            Some(o) => ops_of_stored(v.drop_last()).push(o),
            None => ops_of_stored(v.drop_last()),
        }
    }
}

/// What `serde_json` reads from stored operations JSON: the fields of each
/// item when the text is a JSON array, `None` otherwise.
pub uninterp spec fn stored_op_fields(json: Seq<char>) -> Option<Seq<StoredOpV>>;

/// `serde_json::from_str` on stored operations JSON, and each array item's
/// fields where they have the right JSON type. Claims the result is the named reading.
#[verifier::external_body]
fn parse_stored_ops(json: &str) -> (r: Option<Vec<StoredOp>>)
    ensures
        match r {
            Some(v) => stored_op_fields(json@) == Some(v@.map_values(|o: StoredOp| o@)),
            None => stored_op_fields(json@) is None,
        },
{
    let arr = match serde_json::from_str::<serde_json::Value>(json) {
        Ok(serde_json::Value::Array(arr)) => arr,
        _ => return None,
    };
    let s = |v: &serde_json::Value, k: &str| v.get(k).and_then(|t| t.as_str()).map(|t| t.to_string());
    Some(arr.iter().map(|v| StoredOp { op_id: s(v, "op_id"), seq: v.get("seq").and_then(|n| n.as_u64()), action: s(v, "action"), content_hash: s(v, "content_hash"), from: s(v, "from"), to: s(v, "to"), conflict: s(v, "conflict"), reason: s(v, "reason") }).collect())
}

/// The operations kept as JSON with a plan: none for an empty text or `[]`,
/// none when the text is not a JSON array, else the complete items in order.
pub open spec fn stored_ops(json: Seq<char>) -> Seq<OpV> {
    let t = trim(json);
    if t.len() == 0 || t == "[]"@ {
        Seq::empty()
    } else {
        match stored_op_fields(json) {
            Some(v) => ops_of_stored(v),
            None => Seq::empty(),
        }
    }
}

fn op_from_stored(o: &StoredOp) -> (r: Option<PlanOp>)
    ensures
        match r {
            Some(p) => op_of_stored(o@) == Some(p@),
            None => op_of_stored(o@) is None,
        },
{
    match (&o.op_id, &o.seq, &o.action, &o.content_hash, &o.from, &o.to) {
        (Some(id), Some(n), Some(a), Some(h), Some(f), Some(t)) => {
            let conflict = match &o.conflict {
                Some(c) => conflict_from_str(c.as_str()),
                None => conflict_from_str("none"),
            };
            let reason = match &o.reason {
                Some(x) => Some(x.clone()),
                None => None,
            };
            Some(
                PlanOp {
                    op_id: id.clone(),
                    seq: #[verifier::truncate] (*n as u32),
                    action: action_from_str(a.as_str()),
                    content_hash: h.clone(),
                    from: f.clone(),
                    to: t.clone(),
                    conflict,
                    reason,
                },
            )
        },
        _ => None,
    }
}

/// The operations kept as JSON with a plan (see `stored_ops`).
pub fn ops_from_json(json: &str) -> (r: Vec<PlanOp>)
    ensures
        op_views(r@) == stored_ops(json@),
{
    let v = chars_of(json);
    let t = trim_chars(&v);
    let mut r: Vec<PlanOp> = Vec::new();
    if t.len() == 0 || chars_eq_str(&t, "[]") {
        assert(op_views(r@) =~= Seq::<OpV>::empty());
        return r;
    }
    let items = match parse_stored_ops(json) {
        Some(items) => items,
        None => {
            assert(op_views(r@) =~= Seq::<OpV>::empty());
            return r;
        },
    };
    let ghost fv = items@.map_values(|o: StoredOp| o@);
    let mut i: usize = 0;
    assert(fv.subrange(0, 0) =~= Seq::<StoredOpV>::empty());
    assert(op_views(r@) =~= Seq::<OpV>::empty());
    while i < items.len()
        invariant
            0 <= i <= items.len(),
            fv == items@.map_values(|o: StoredOp| o@),
            op_views(r@) == ops_of_stored(fv.subrange(0, i as int)),
        decreases items.len() - i,
    {
        let ghost before = r@;
        assert(fv.subrange(0, i + 1).drop_last() =~= fv.subrange(0, i as int));
        assert(fv.subrange(0, i + 1).last() == items@[i as int]@);
        match op_from_stored(&items[i]) {
            Some(op) => {
                r.push(op);
                assert(op_views(r@) =~= op_views(before).push(r@.last()@));
            },
            None => {},
        }
        i += 1;
    }
    assert(fv.subrange(0, items.len() as int) =~= fv);
    r
}

/// What `serde_json` reads from a stored JSON list of texts, or the text of its error.
pub uninterp spec fn text_list_of(json: Seq<char>) -> Result<Seq<Seq<char>>, Seq<char>>;

/// `serde_json::from_str::<Vec<String>>`. Claims the result is the named reading.
#[verifier::external_body]
fn parse_text_list(json: &str) -> (r: Result<Vec<String>, String>)
    ensures
        match r {
            Ok(v) => text_list_of(json@) == Ok::<Seq<Seq<char>>, Seq<char>>(texts(v@)),
            Err(m) => text_list_of(json@) == Err::<Seq<Seq<char>>, Seq<char>>(m@),
        },
{
    serde_json::from_str::<Vec<String>>(json).map_err(|e| e.to_string())
}

/// A stored JSON list of texts (tags, created folders); empty when it cannot be read.
pub fn stored_texts(json: &str) -> (r: Vec<String>)
    ensures
        texts(r@) == (match text_list_of(json@) {
            Ok(v) => v,
            Err(_) => Seq::<Seq<char>>::empty(),
        }),
{
    match parse_text_list(json) {
        Ok(v) => v,
        Err(_) => {
            let r: Vec<String> = Vec::new();
            assert(texts(r@) =~= Seq::<Seq<char>>::empty());
            r
        },
    }
}

/// The JSON text `serde_json` writes for a list of texts, or the text of its error.
pub uninterp spec fn text_list_json(v: Seq<Seq<char>>) -> Result<Seq<char>, Seq<char>>;

/// `serde_json::to_string` on a list of texts. Claims the result is the named writing.
#[verifier::external_body]
fn write_text_list(v: &Vec<String>) -> (r: Result<String, String>)
    ensures
        match r {
            Ok(s) => text_list_json(texts(v@)) == Ok::<Seq<char>, Seq<char>>(s@),
            Err(m) => text_list_json(texts(v@)) == Err::<Seq<char>, Seq<char>>(m@),
        },
{
    serde_json::to_string(v).map_err(|e| e.to_string())
}

/// A list of texts as JSON for storage (`[]` should writing fail).
pub fn texts_json(v: &Vec<String>) -> (r: String)
    ensures
        r@ == (match text_list_json(texts(v@)) {
            Ok(s) => s,
            Err(_) => "[]"@,
        }),
{
    match write_text_list(v) {
        Ok(s) => s,
        Err(_) => "[]".to_string(),
    }
}

} // verus!
