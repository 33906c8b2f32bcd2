//! The wiki: a Markdown page per indexed file, an index of all summarised
//! files and a log of file operations, under `<root>/.tidydog/wiki/`.
//!
//! This module builds the texts; writing them to disk is the caller's part.
//! Timestamps are written as ISO-8601 UTC (`YYYY-MM-DDTHH:MM:SSZ`) by a plain
//! Gregorian conversion of Unix seconds.

use vstd::prelude::*;
use crate::model::texts;
use crate::path::{file_name, file_name_of, join_of, join_path};
use crate::text::{
    chars_of, decimal, join, non_empty, padded, push_char, push_chars, push_padded, push_signed,
    push_str, replace_char, replace_chars, signed_decimal, split_by, split_chars, string_of,
    strip_both, strip_both_chars, strip_leading, strip_leading_chars, strip_trailing,
    strip_trailing_chars, trim, trim_chars, views, Sep,
};

verus! {

// ───────────────────────────── calendar ─────────────────────────────

pub open spec fn leap(y: int) -> bool {
    (y % 4 == 0 && y % 100 != 0) || y % 400 == 0
}

pub open spec fn year_days(y: int) -> int {
    if leap(y) {
        366
    } else {
        365
    }
}

/// Days in month `m` of year `y`; months outside 1..=12 count 30.
pub open spec fn month_days(y: int, m: int) -> int {
    if m == 1 || m == 3 || m == 5 || m == 7 || m == 8 || m == 10 || m == 12 {
        31
    } else if m == 4 || m == 6 || m == 9 || m == 11 {
        30
    } else if m == 2 {
        if leap(y) {
            29
        } else {
            28
        }
    } else {
        30
    }
}

/// The year and the (zero-based) day within it, `days` days after 1 January of `y`.
pub open spec fn year_and_day(days: nat, y: nat) -> (nat, nat)
    decreases days,
{
    if days < year_days(y as int) {
        (y, days)
    } else {
        year_and_day((days - year_days(y as int)) as nat, y + 1)
    }
}

/// The month and the (zero-based) day within it, `days` days after the first of month `m`.
pub open spec fn month_and_day(days: nat, y: nat, m: nat) -> (nat, nat)
    decreases days,
{
    if days < month_days(y as int, m as int) {
        (m, days)
    } else {
        month_and_day((days - month_days(y as int, m as int)) as nat, y, m + 1)
    }
}

/// The calendar date (year, month, day) `days` days after 1970-01-01.
pub open spec fn ymd(days: nat) -> (nat, nat, nat) {
    let yd = year_and_day(days, 1970);
    let md = month_and_day(yd.1, yd.0, 1);
    (yd.0, md.0, md.1 + 1)
}

/// The days of year `y` before month `m`.
pub open spec fn days_before_month(y: int, m: int) -> int
    decreases m,
{
    if m <= 1 {
        0
    } else {
        days_before_month(y, m - 1) + month_days(y, m - 1)
    }
}

proof fn lemma_december(y: int)
    ensures
        days_before_month(y, 12) + 31 == year_days(y),
{
    reveal_with_fuel(days_before_month, 13);
}

/// The ISO-8601 UTC form of `secs` seconds after the Unix epoch.
pub open spec fn iso_of(secs: nat) -> Seq<char> {
    let sec = secs % 60;
    let mins = secs / 60;
    let min = mins % 60;
    let hours = mins / 60;
    let hour = hours % 24;
    let date = ymd(hours / 24);
    padded(date.0, 4) + seq!['-'] + padded(date.1, 2) + seq!['-'] + padded(date.2, 2) + seq!['T']
        + padded(hour, 2) + seq![':'] + padded(min, 2) + seq![':'] + padded(sec, 2) + seq!['Z']
}

/// Whether `year` is a Gregorian leap year.
pub fn is_leap(year: u64) -> (b: bool)
    ensures
        b == leap(year as int),
{
    (year % 4 == 0 && year % 100 != 0) || year % 400 == 0
}

/// The number of days in `year`.
pub fn days_in_year(year: u64) -> (d: u64)
    ensures
        d == year_days(year as int),
{
    if is_leap(year) {
        366
    } else {
        365
    }
}

/// The number of days in `month` of `year` (30 for a month outside 1..=12).
pub fn days_in_month(year: u64, month: u64) -> (d: u64)
    ensures
        d == month_days(year as int, month as int),
{
    if month == 1 || month == 3 || month == 5 || month == 7 || month == 8 || month == 10 || month
        == 12 {
        31
    } else if month == 4 || month == 6 || month == 9 || month == 11 {
        30
    } else if month == 2 {
        if is_leap(year) {
            29
        } else {
            28
        }
    } else {
        30
    }
}

/// The calendar date `days` days after 1970-01-01; always a valid date.
pub fn days_to_ymd(days: u64) -> (r: (u64, u64, u64))
    ensures
        (r.0 as nat, r.1 as nat, r.2 as nat) == ymd(days as nat),
        1970 <= r.0,
        1 <= r.1 <= 12,
        1 <= r.2 <= month_days(r.0 as int, r.1 as int),
{
    let ghost d0 = days as nat;
    let mut d: u64 = days;
    let mut year: u64 = 1970;
    while d >= days_in_year(year)
        invariant
            1970 <= year,
            (year - 1970) * 365 + d <= d0,
            d0 == days,
            year_and_day(d0, 1970) == year_and_day(d as nat, year as nat),
        decreases d,
    {
        let dy = days_in_year(year);
        d = d - dy;
        year = year + 1;
    }
    let ghost day_of_year = d as nat;
    assert(year_and_day(d0, 1970) == (year as nat, day_of_year));
    let mut month: u64 = 1;
    while d >= days_in_month(year, month)
        invariant
            1 <= month <= 12,
            day_of_year == d + days_before_month(year as int, month as int),
            day_of_year < year_days(year as int),
            month_and_day(day_of_year, year as nat, 1) == month_and_day(d as nat, year as nat, month as nat),
        decreases d,
    {
        proof {
            lemma_december(year as int);
        }
        let dm = days_in_month(year, month);
        d = d - dm;
        month = month + 1;
    }
    assert(month_and_day(d as nat, year as nat, month as nat) == (month as nat, d as nat));
    (year, month, d + 1)
}

/// `secs` seconds after the Unix epoch as `YYYY-MM-DDTHH:MM:SSZ`.
pub fn unix_secs_to_iso(secs: u64) -> (r: String)
    ensures
        r@ == iso_of(secs as nat),
{
    let s = secs % 60;
    let total_min = secs / 60;
    let m = total_min % 60;
    let total_hours = total_min / 60;
    let h = total_hours % 24;
    let total_days = total_hours / 24;
    let (year, month, day) = days_to_ymd(total_days);
    let mut out = String::new();
    push_padded(&mut out, year as u128, 4);
    push_char(&mut out, '-');
    push_padded(&mut out, month as u128, 2);
    push_char(&mut out, '-');
    push_padded(&mut out, day as u128, 2);
    push_char(&mut out, 'T');
    push_padded(&mut out, h as u128, 2);
    push_char(&mut out, ':');
    push_padded(&mut out, m as u128, 2);
    push_char(&mut out, ':');
    push_padded(&mut out, s as u128, 2);
    push_char(&mut out, 'Z');
    assert(out@ =~= iso_of(secs as nat));
    out
}

/// The current time as `YYYY-MM-DDTHH:MM:SSZ`.
pub fn now_iso() -> (r: String)
    ensures
        exists|t: u64| r@ == iso_of(t as nat),
{
    let t = crate::clock::now();
    unix_secs_to_iso(t)
}

// ───────────────────────────── tags ─────────────────────────────

/// The items of a JSON-like array of strings: brackets stripped, split at
/// commas, each trimmed and unquoted, empty ones dropped.
pub open spec fn tag_items(t: Seq<char>) -> Seq<Seq<char>> {
    let inner = strip_trailing(strip_leading(t, '['), ']');
    non_empty(split_by(inner, Sep::Char(',')).map_values(|p: Seq<char>| strip_both(trim(p), '"')))
}

/// What the index shows for a stored tag list: the items joined by `, `, or
/// the trimmed text itself when it is not an array.
pub open spec fn tags_display(s: Seq<char>) -> Seq<char> {
    let t = trim(s);
    if t.len() > 0 && t[0] == '[' {
        join(tag_items(t), seq![',', ' '])
    } else {
        t
    }
}

/// The tags of a stored tag list: the array's items, nothing for an empty
/// text, or the trimmed text as the one tag.
pub open spec fn tags_list(s: Seq<char>) -> Seq<Seq<char>> {
    let t = trim(s);
    if t.len() > 0 && t[0] == '[' {
        tag_items(t)
    } else if t.len() == 0 {
        Seq::empty()
    } else {
        seq![t]
    }
}

proof fn lemma_non_empty_push(s: Seq<Seq<char>>, x: Seq<char>)
    ensures
        non_empty(s.push(x)) == (if x.len() > 0 {
            non_empty(s).push(x)
        } else {
            non_empty(s)
        }),
{
    assert(s.push(x).drop_last() =~= s);
}

fn tag_items_of(t: &Vec<char>) -> (r: Vec<String>)
    ensures
        texts(r@) == tag_items(t@),
{
    let a = strip_leading_chars(t, '[');
    let inner = strip_trailing_chars(&a, ']');
    let pieces = split_chars(&inner, Sep::Char(','));
    let ghost ps = views(pieces@);
    let ghost cleaned = ps.map_values(|p: Seq<char>| strip_both(trim(p), '"'));
    let mut out: Vec<String> = Vec::new();
    let mut i: usize = 0;
    assert(cleaned.subrange(0, 0) =~= Seq::<Seq<char>>::empty());
    assert(texts(out@) =~= Seq::<Seq<char>>::empty());
    while i < pieces.len()
        invariant
            0 <= i <= pieces.len(),
            ps == views(pieces@),
            cleaned == ps.map_values(|p: Seq<char>| strip_both(trim(p), '"')),
            texts(out@) == non_empty(cleaned.subrange(0, i as int)),
        decreases pieces.len() - i,
    {
        let tr = trim_chars(&pieces[i]);
        let item = strip_both_chars(&tr, '"');
        let ghost before = texts(out@);
        proof {
            assert(cleaned[i as int] == item@);
            assert(cleaned.subrange(0, i + 1) =~= cleaned.subrange(0, i as int).push(item@));
            lemma_non_empty_push(cleaned.subrange(0, i as int), item@);
        }
        if item.len() > 0 {
            out.push(string_of(&item));
            assert(texts(out@) =~= before.push(item@));
        }
        i += 1;
    }
    assert(cleaned.subrange(0, pieces.len() as int) =~= cleaned);
    out
}

/// Joins texts with `, ` between them.
fn join_comma(items: &[String]) -> (r: String)
    ensures
        r@ == join(texts(items@), seq![',', ' ']),
{
    let ghost ts = texts(items@);
    let mut r = String::new();
    let mut i: usize = 0;
    assert(ts.subrange(0, 0) =~= Seq::<Seq<char>>::empty());
    while i < items.len()
        invariant
            0 <= i <= items.len(),
            ts == texts(items@),
            r@ == join(ts.subrange(0, i as int), seq![',', ' ']),
        decreases items.len() - i,
    {
        let ghost before = r@;
        if i > 0 {
            push_char(&mut r, ',');
            push_char(&mut r, ' ');
        }
        push_str(&mut r, items[i].as_str());
        proof {
            let next = ts.subrange(0, i + 1);
            assert(next.drop_last() =~= ts.subrange(0, i as int));
            assert(next.last() == items@[i as int]@);
            if i == 0 {
                assert(next.len() == 1);
                assert(r@ =~= next[0]);
            } else {
                assert(r@ =~= before + seq![',', ' '] + next.last());
            }
        }
        i += 1;
    }
    assert(ts.subrange(0, items.len() as int) =~= ts);
    r
}

/// The display form of a stored tag list (see `tags_display`).
pub fn parse_tags_json(json_str: &str) -> (r: String)
    ensures
        r@ == tags_display(json_str@),
{
    let v = chars_of(json_str);
    let t = trim_chars(&v);
    if t.len() > 0 && t[0] == '[' {
        let items = tag_items_of(&t);
        join_comma(items.as_slice())
    } else {
        string_of(&t)
    }
}

/// The tags of a stored tag list (see `tags_list`).
pub fn parse_tags_for_wiki(json_str: &str) -> (r: Vec<String>)
    ensures
        texts(r@) == tags_list(json_str@),
{
    let v = chars_of(json_str);
    let t = trim_chars(&v);
    if t.len() > 0 && t[0] == '[' {
        tag_items_of(&t)
    } else if t.len() == 0 {
        let r: Vec<String> = Vec::new();
        assert(texts(r@) =~= Seq::<Seq<char>>::empty());
        r
    } else {
        let mut r: Vec<String> = Vec::new();
        r.push(string_of(&t));
        assert(texts(r@) =~= seq![t@]);
        r
    }
}

/// For a stored array of tags, the index shows exactly the tags a page lists,
/// joined by `, `.
pub proof fn lemma_tags_display_lists_tags(s: Seq<char>)
    requires
        trim(s).len() > 0,
        trim(s)[0] == '[',
    ensures
        tags_display(s) == join(tags_list(s), seq![',', ' ']),
{
}

// ───────────────────────────── pages ─────────────────────────────

/// `<root>/.tidydog/wiki`.
pub fn wiki_dir(root: &str) -> (r: String)
    ensures
        r@ == join_of(join_of(root@, ".tidydog"@), "wiki"@),
{
    let d = join_path(root, ".tidydog");
    join_path(d.as_str(), "wiki")
}

/// The file name of a file's page: `<content_hash>.md`.
pub fn page_file_name(content_hash: &str) -> (r: String)
    ensures
        r@ == content_hash@ + ".md"@,
{
    let mut r = String::new();
    push_str(&mut r, content_hash);
    push_str(&mut r, ".md");
    r
}

pub open spec fn or_not_set(o: Option<Seq<char>>) -> Seq<char> {
    match o {
        Some(s) => s,
        None => "(not set)"@,
    }
}

pub open spec fn opt_str(o: Option<&str>) -> Option<Seq<char>> {
    match o {
        Some(s) => Some(s@),
        None => None,
    }
}

pub open spec fn indexed_text(t: Option<u64>) -> Seq<char> {
    match t {
        Some(ts) => iso_of(ts as nat),
        None => "(not set)"@,
    }
}

/// The text of a file's wiki page.
pub open spec fn page_text(
    filename: Seq<char>,
    current_path: Seq<char>,
    summary: Option<Seq<char>>,
    tags: Seq<Seq<char>>,
    language: Option<Seq<char>>,
    proposed_dest: Option<Seq<char>>,
    indexed_at: Option<u64>,
) -> Seq<char> {
    "# "@ + filename + "\n\n**Path:** `"@ + current_path + "`  \n**Summary:** "@ + or_not_set(
        summary,
    ) + "  \n**Tags:** "@ + join(tags, seq![',', ' ']) + "  \n**Language:** "@ + or_not_set(
        language,
    ) + "  \n**Proposed destination:** "@ + or_not_set(proposed_dest) + "  \n**Indexed:** "@
        + indexed_text(indexed_at) + "  \n"@
}

fn push_or_not_set(out: &mut String, o: Option<&str>)
    ensures
        final(out)@ == old(out)@ + or_not_set(opt_str(o)),
{
    match o {
        Some(s) => push_str(out, s),
        None => push_str(out, "(not set)"),
    }
}

/// The Markdown page of one indexed file.
pub fn file_page_text(
    filename: &str,
    current_path: &str,
    summary: Option<&str>,
    topic_tags: &[String],
    language: Option<&str>,
    proposed_dest: Option<&str>,
    indexed_at: Option<u64>,
) -> (r: String)
    ensures
        r@ == page_text(
            filename@,
            current_path@,
            opt_str(summary),
            texts(topic_tags@),
            opt_str(language),
            opt_str(proposed_dest),
            indexed_at,
        ),
{
    let tags_str = join_comma(topic_tags);
    let mut out = String::new();
    push_str(&mut out, "# ");
    push_str(&mut out, filename);
    push_str(&mut out, "\n\n**Path:** `");
    push_str(&mut out, current_path);
    push_str(&mut out, "`  \n**Summary:** ");
    push_or_not_set(&mut out, summary);
    push_str(&mut out, "  \n**Tags:** ");
    push_str(&mut out, tags_str.as_str());
    push_str(&mut out, "  \n**Language:** ");
    push_or_not_set(&mut out, language);
    push_str(&mut out, "  \n**Proposed destination:** ");
    push_or_not_set(&mut out, proposed_dest);
    push_str(&mut out, "  \n**Indexed:** ");
    match indexed_at {
        Some(ts) => {
            let iso = unix_secs_to_iso(ts);
            push_str(&mut out, iso.as_str());
        },
        None => push_str(&mut out, "(not set)"),
    }
    push_str(&mut out, "  \n");
    assert(out@ =~= page_text(
        filename@,
        current_path@,
        opt_str(summary),
        texts(topic_tags@),
        opt_str(language),
        opt_str(proposed_dest),
        indexed_at,
    ));
    out
}

// ───────────────────────────── index and log ─────────────────────────────

/// A summarised file as the index lists it.
pub struct IndexRow {
    pub content_hash: String,
    pub current_path: String,
    pub summary: String,
    pub topic_tags: String,
    pub language: String,
    pub proposed_dest: Option<String>,
}

/// A journal entry as the log lists it.
pub struct LogRow {
    pub entry_id: i64,
    pub plan_id: String,
    pub action: String,
    pub from_path: String,
    pub to_path: String,
    pub executed_at: i64,
    pub completed_at: Option<i64>,
}

/// A table cell: `|` escaped as `\|`.
pub open spec fn cell(s: Seq<char>) -> Seq<char> {
    replace_char(s, '|', seq!['\\', '|'])
}

/// The name shown for a file: its file name, or the whole path when it has none.
pub open spec fn shown_name(p: Seq<char>) -> Seq<char> {
    match file_name_of(p) {
        Some(n) => n,
        None => p,
    }
}

pub open spec fn index_row_text(
    hash: Seq<char>,
    path: Seq<char>,
    summary: Seq<char>,
    tags: Seq<char>,
    language: Seq<char>,
    dest: Option<Seq<char>>,
) -> Seq<char> {
    "| ["@ + shown_name(path) + "]("@ + hash + ".md) | "@ + cell(summary) + " | "@ + cell(
        tags_display(tags),
    ) + " | "@ + cell(language) + " | "@ + cell(or_not_set(dest)) + " |\n"@
}

pub open spec fn index_rows_text(rows: Seq<IndexRow>) -> Seq<char>
    decreases rows.len(),
{
    if rows.len() == 0 {
        Seq::empty()
    } else {
        let r = rows.last();
        index_rows_text(rows.drop_last()) + index_row_text(
            r.content_hash@,
            r.current_path@,
            r.summary@,
            r.topic_tags@,
            r.language@,
            crate::path::opt_seq(r.proposed_dest),
        )
    }
}

pub open spec fn completed_text(t: Option<i64>) -> Seq<char> {
    match t {
        Some(ts) => iso_of((ts as u64) as nat),
        None => "(pending)"@,
    }
}

pub open spec fn log_row_text(r: LogRow) -> Seq<char> {
    "| "@ + signed_decimal(r.entry_id as int) + " | "@ + r.plan_id@ + " | "@ + r.action@ + " | "@
        + r.from_path@ + " | "@ + r.to_path@ + " | "@ + iso_of((r.executed_at as u64) as nat)
        + " | "@ + completed_text(r.completed_at) + " |\n"@
}

pub open spec fn log_rows_text(rows: Seq<LogRow>) -> Seq<char>
    decreases rows.len(),
{
    if rows.len() == 0 {
        Seq::empty()
    } else {
        log_rows_text(rows.drop_last()) + log_row_text(rows.last())
    }
}

fn push_cell(out: &mut String, s: &str)
    ensures
        final(out)@ == old(out)@ + cell(s@),
{
    let v = chars_of(s);
    let c = replace_chars(&v, '|', "\\|");
    proof {
        reveal_strlit("\\|");
        assert("\\|"@ =~= seq!['\\', '|']);
    }
    push_str(out, c.as_str());
}

fn push_index_row(out: &mut String, row: &IndexRow)
    ensures
        final(out)@ == old(out)@ + index_row_text(
            row.content_hash@,
            row.current_path@,
            row.summary@,
            row.topic_tags@,
            row.language@,
            crate::path::opt_seq(row.proposed_dest),
        ),
{
    let name = match file_name(row.current_path.as_str()) {
        Some(n) => n,
        None => row.current_path.clone(),
    };
    let tags = parse_tags_json(row.topic_tags.as_str());
    let ghost start = out@;
    push_str(out, "| [");
    push_str(out, name.as_str());
    push_str(out, "](");
    push_str(out, row.content_hash.as_str());
    push_str(out, ".md) | ");
    push_cell(out, row.summary.as_str());
    push_str(out, " | ");
    push_cell(out, tags.as_str());
    push_str(out, " | ");
    push_cell(out, row.language.as_str());
    push_str(out, " | ");
    match &row.proposed_dest {
        Some(d) => push_cell(out, d.as_str()),
        None => push_cell(out, "(not set)"),
    }
    push_str(out, " |\n");
    assert(out@ =~= start + index_row_text(
        row.content_hash@,
        row.current_path@,
        row.summary@,
        row.topic_tags@,
        row.language@,
        crate::path::opt_seq(row.proposed_dest),
    ));
}

fn push_log_row(out: &mut String, row: &LogRow)
    ensures
        final(out)@ == old(out)@ + log_row_text(*row),
{
    let ghost start = out@;
    push_str(out, "| ");
    push_signed(out, row.entry_id);
    push_str(out, " | ");
    push_str(out, row.plan_id.as_str());
    push_str(out, " | ");
    push_str(out, row.action.as_str());
    push_str(out, " | ");
    push_str(out, row.from_path.as_str());
    push_str(out, " | ");
    push_str(out, row.to_path.as_str());
    push_str(out, " | ");
    let executed = unix_secs_to_iso(row.executed_at as u64);
    push_str(out, executed.as_str());
    push_str(out, " | ");
    match row.completed_at {
        Some(ts) => {
            let c = unix_secs_to_iso(ts as u64);
            push_str(out, c.as_str());
        },
        None => push_str(out, "(pending)"),
    }
    push_str(out, " |\n");
    assert(out@ =~= start + log_row_text(*row));
}

/// The text of `index.md`: a header stamped with `generated`, then one table
/// row per summarised file, in the given order.
pub fn index_text(rows: &[IndexRow], generated: &str) -> (r: String)
    ensures
        r@ == "# TidyDog Index\n\nGenerated: "@ + generated@
            + "\n\n| File | Summary | Tags | Language | Proposed Dest |\n|------|---------|------|----------|---------------|\n"@
            + index_rows_text(rows@),
{
    let mut out = String::new();
    push_str(&mut out, "# TidyDog Index\n\nGenerated: ");
    push_str(&mut out, generated);
    push_str(
        &mut out,
        "\n\n| File | Summary | Tags | Language | Proposed Dest |\n|------|---------|------|----------|---------------|\n",
    );
    let ghost head = out@;
    let mut i: usize = 0;
    assert(rows@.subrange(0, 0) =~= Seq::<IndexRow>::empty());
    while i < rows.len()
        invariant
            0 <= i <= rows.len(),
            out@ == head + index_rows_text(rows@.subrange(0, i as int)),
        decreases rows.len() - i,
    {
        push_index_row(&mut out, &rows[i]);
        proof {
            let next = rows@.subrange(0, i + 1);
            assert(next.drop_last() =~= rows@.subrange(0, i as int));
            assert(next.last() == rows@[i as int]);
        }
        i += 1;
    }
    assert(rows@.subrange(0, rows.len() as int) =~= rows@);
    out
}

/// The text of `log.md`: a header stamped with `generated`, then one table
/// row per journal entry, in the given order.
pub fn log_text(rows: &[LogRow], generated: &str) -> (r: String)
    ensures
        r@ == "# TidyDog Operation Log\n\nGenerated: "@ + generated@
            + "\n\n| Entry | Plan | Action | From | To | Executed | Completed |\n|-------|------|--------|------|----|----------|-----------|\n"@
            + log_rows_text(rows@),
{
    let mut out = String::new();
    push_str(&mut out, "# TidyDog Operation Log\n\nGenerated: ");
    push_str(&mut out, generated);
    push_str(
        &mut out,
        "\n\n| Entry | Plan | Action | From | To | Executed | Completed |\n|-------|------|--------|------|----|----------|-----------|\n",
    );
    let ghost head = out@;
    let mut i: usize = 0;
    assert(rows@.subrange(0, 0) =~= Seq::<LogRow>::empty());
    while i < rows.len()
        invariant
            0 <= i <= rows.len(),
            out@ == head + log_rows_text(rows@.subrange(0, i as int)),
        decreases rows.len() - i,
    {
        push_log_row(&mut out, &rows[i]);
        proof {
            let next = rows@.subrange(0, i + 1);
            assert(next.drop_last() =~= rows@.subrange(0, i as int));
            assert(next.last() == rows@[i as int]);
        }
        i += 1;
    }
    assert(rows@.subrange(0, rows.len() as int) =~= rows@);
    out
}

} // verus!
