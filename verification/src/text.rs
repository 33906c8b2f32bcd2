//! Character-level text utilities shared by the parsers and formatters.
//!
//! Text is handled as sequences of `char`. The spec functions here define the
//! exact meaning of trimming, splitting, line breaking and searching that the
//! rest of the library states its contracts with.

use vstd::prelude::*;

verus! {

// ───────────────────────────── specifications ─────────────────────────────

/// Unicode `White_Space`, the set that `char::is_whitespace` tests.
pub open spec fn is_ws(c: char) -> bool {
    let u: u32 = c as u32;
    ||| 0x09 <= u <= 0x0D
    ||| u == 0x20
    ||| u == 0x85
    ||| u == 0xA0
    ||| u == 0x1680
    ||| 0x2000 <= u <= 0x200A
    ||| u == 0x2028
    ||| u == 0x2029
    ||| u == 0x202F
    ||| u == 0x205F
    ||| u == 0x3000
}

/// `s` without its leading whitespace.
pub open spec fn trim_start(s: Seq<char>) -> Seq<char>
    decreases s.len(),
{
    if s.len() > 0 && is_ws(s[0]) {
        trim_start(s.drop_first())
    } else {
        s
    }
}

/// `s` without its trailing whitespace.
pub open spec fn trim_end(s: Seq<char>) -> Seq<char>
    decreases s.len(),
{
    if s.len() > 0 && is_ws(s.last()) {
        trim_end(s.drop_last())
    } else {
        s
    }
}

/// `s` without leading and trailing whitespace (`str::trim`).
pub open spec fn trim(s: Seq<char>) -> Seq<char> {
    trim_end(trim_start(s))
}

/// A separator: one given character, or any whitespace character.
pub enum Sep {
    Char(char),
    Space,
}

pub open spec fn is_sep(sep: Sep, c: char) -> bool {
    match sep {
        Sep::Char(d) => c == d,
        Sep::Space => is_ws(c),
    }
}

/// The pieces of `s` between separators (`str::split`); never empty.
pub open spec fn split_by(s: Seq<char>, sep: Sep) -> Seq<Seq<char>>
    decreases s.len(),
{
    if s.len() == 0 {
        seq![Seq::<char>::empty()]
    } else {
        let p = split_by(s.drop_last(), sep);
        if is_sep(sep, s.last()) {
            p.push(Seq::<char>::empty())
        } else {
            p.update(p.len() - 1, p.last().push(s.last()))
        }
    }
}

/// The non-empty pieces of `ps`, in order.
pub open spec fn non_empty(ps: Seq<Seq<char>>) -> Seq<Seq<char>>
    decreases ps.len(),
{
    if ps.len() == 0 {
        ps
    } else if ps.last().len() > 0 {
        non_empty(ps.drop_last()).push(ps.last())
    } else {
        non_empty(ps.drop_last())
    }
}

/// The whitespace-separated words of `s` (`str::split_whitespace`).
pub open spec fn words(s: Seq<char>) -> Seq<Seq<char>> {
    non_empty(split_by(s, Sep::Space))
}

/// `l` without one trailing carriage return.
pub open spec fn strip_cr(l: Seq<char>) -> Seq<char> {
    if l.len() > 0 && l.last() == '\r' {
        l.drop_last()
    } else {
        l
    }
}

/// The lines of `s` (`str::lines`): split at `\n`, a `\r` before a `\n` removed,
/// and no final empty line after a trailing `\n`.
pub open spec fn lines(s: Seq<char>) -> Seq<Seq<char>> {
    let p = split_by(s, Sep::Char('\n'));
    let init = p.drop_last().map_values(|l: Seq<char>| strip_cr(l));
    if p.last().len() == 0 {
        init
    } else {
        init.push(p.last())
    }
}

/// `p` occurs in `s` at position `i`.
pub open spec fn occurs_at(s: Seq<char>, p: Seq<char>, i: int) -> bool {
    0 <= i && i + p.len() <= s.len() && s.subrange(i, i + p.len()) == p
}

/// The first position at or after `i` where `p` occurs in `s`.
pub open spec fn find_from(s: Seq<char>, p: Seq<char>, i: int) -> Option<int>
    decreases s.len() + 1 - i,
{
    if i < 0 || i + p.len() > s.len() {
        None
    } else if occurs_at(s, p, i) {
        Some(i)
    } else {
        find_from(s, p, i + 1)
    }
}

/// `p` occurs somewhere in `s`.
pub open spec fn contains_seq(s: Seq<char>, p: Seq<char>) -> bool {
    exists|i: int| occurs_at(s, p, i)
}

/// `p` is a prefix of `s`.
pub open spec fn has_prefix(s: Seq<char>, p: Seq<char>) -> bool {
    p.len() <= s.len() && s.subrange(0, p.len() as int) == p
}

/// The decimal digit character for `d` (below ten).
pub open spec fn digit_char(d: nat) -> char {
    if d == 0 {
        '0'
    } else if d == 1 {
        '1'
    } else if d == 2 {
        '2'
    } else if d == 3 {
        '3'
    } else if d == 4 {
        '4'
    } else if d == 5 {
        '5'
    } else if d == 6 {
        '6'
    } else if d == 7 {
        '7'
    } else if d == 8 {
        '8'
    } else {
        '9'
    }
}

/// The decimal notation of `n`, without leading zeros.
pub open spec fn decimal(n: nat) -> Seq<char>
    decreases n,
{
    if n < 10 {
        seq![digit_char(n)]
    } else {
        decimal(n / 10).push(digit_char(n % 10))
    }
}

/// `n` in decimal, left-padded with zeros to at least `width` characters.
pub open spec fn padded(n: nat, width: nat) -> Seq<char> {
    let d = decimal(n);
    if d.len() < width {
        Seq::new((width - d.len()) as nat, |i: int| '0') + d
    } else {
        d
    }
}

/// The texts held by a vector of character vectors.
pub open spec fn views(v: Seq<Vec<char>>) -> Seq<Seq<char>> {
    v.map_values(|x: Vec<char>| x@)
}

/// Concatenation of a sequence of texts.
pub open spec fn concat(ps: Seq<Seq<char>>) -> Seq<char>
    decreases ps.len(),
{
    if ps.len() == 0 {
        Seq::empty()
    } else {
        concat(ps.drop_last()) + ps.last()
    }
}

/// The texts of `ps` joined with `sep` between them (`[..].join(sep)`).
pub open spec fn join(ps: Seq<Seq<char>>, sep: Seq<char>) -> Seq<char>
    decreases ps.len(),
{
    if ps.len() == 0 {
        Seq::empty()
    } else if ps.len() == 1 {
        ps[0]
    } else {
        join(ps.drop_last(), sep) + sep + ps.last()
    }
}

/// Every occurrence of `c` in `s` replaced by `r`.
pub open spec fn replace_char(s: Seq<char>, c: char, r: Seq<char>) -> Seq<char>
    decreases s.len(),
{
    if s.len() == 0 {
        s
    } else {
        replace_char(s.drop_last(), c, r) + (if s.last() == c {
            r
        } else {
            seq![s.last()]
        })
    }
}

/// `s` without its leading occurrences of `c` (`str::trim_start_matches`).
pub open spec fn strip_leading(s: Seq<char>, c: char) -> Seq<char>
    decreases s.len(),
{
    if s.len() > 0 && s[0] == c {
        strip_leading(s.drop_first(), c)
    } else {
        s
    }
}

/// `s` without its trailing occurrences of `c` (`str::trim_end_matches`).
pub open spec fn strip_trailing(s: Seq<char>, c: char) -> Seq<char>
    decreases s.len(),
{
    if s.len() > 0 && s.last() == c {
        strip_trailing(s.drop_last(), c)
    } else {
        s
    }
}

/// `s` without leading and trailing occurrences of `c` (`str::trim_matches`).
pub open spec fn strip_both(s: Seq<char>, c: char) -> Seq<char> {
    strip_trailing(strip_leading(s, c), c)
}

/// An integer in decimal, with a minus sign when negative.
pub open spec fn signed_decimal(n: int) -> Seq<char> {
    if n < 0 {
        seq!['-'] + decimal((-n) as nat)
    } else {
        decimal(n as nat)
    }
}

/// The lower-case form of a text, as `str::to_lowercase` computes it.
pub uninterp spec fn lowercase_of(s: Seq<char>) -> Seq<char>;

// ───────────────────────────── lemmas ─────────────────────────────

pub proof fn lemma_split_nonempty(s: Seq<char>, sep: Sep)
    ensures
        split_by(s, sep).len() >= 1,
    decreases s.len(),
{
    if s.len() > 0 {
        lemma_split_nonempty(s.drop_last(), sep);
    }
}

proof fn lemma_trim_start_skip(s: Seq<char>, k: int)
    requires
        0 <= k <= s.len(),
        forall|j: int| 0 <= j < k ==> is_ws(#[trigger] s[j]),
    ensures
        trim_start(s) == trim_start(s.subrange(k, s.len() as int)),
    decreases k,
{
    if k > 0 {
        assert(s.drop_first() =~= s.subrange(1, s.len() as int));
        let t = s.drop_first();
        assert forall|j: int| 0 <= j < k - 1 implies is_ws(#[trigger] t[j]) by {
            assert(t[j] == s[j + 1]);
        }
        lemma_trim_start_skip(t, k - 1);
        assert(t.subrange(k - 1, t.len() as int) =~= s.subrange(k, s.len() as int));
    } else {
        assert(s.subrange(0, s.len() as int) =~= s);
    }
}

proof fn lemma_trim_end_skip(s: Seq<char>, k: int)
    requires
        0 <= k <= s.len(),
        forall|j: int| k <= j < s.len() ==> is_ws(#[trigger] s[j]),
    ensures
        trim_end(s) == trim_end(s.subrange(0, k)),
    decreases s.len() - k,
{
    if k < s.len() {
        let t = s.drop_last();
        assert forall|j: int| k <= j < t.len() implies is_ws(#[trigger] t[j]) by {
            assert(t[j] == s[j]);
        }
        lemma_trim_end_skip(t, k);
        assert(t.subrange(0, k) =~= s.subrange(0, k));
    } else {
        assert(s.subrange(0, k) =~= s);
    }
}

proof fn lemma_strip_leading_skip(s: Seq<char>, c: char, k: int)
    requires
        0 <= k <= s.len(),
        forall|j: int| 0 <= j < k ==> #[trigger] s[j] == c,
    ensures
        strip_leading(s, c) == strip_leading(s.subrange(k, s.len() as int), c),
    decreases k,
{
    if k > 0 {
        let t = s.drop_first();
        assert forall|j: int| 0 <= j < k - 1 implies #[trigger] t[j] == c by {
            assert(t[j] == s[j + 1]);
        }
        lemma_strip_leading_skip(t, c, k - 1);
        assert(t.subrange(k - 1, t.len() as int) =~= s.subrange(k, s.len() as int));
    } else {
        assert(s.subrange(0, s.len() as int) =~= s);
    }
}

proof fn lemma_strip_trailing_skip(s: Seq<char>, c: char, k: int)
    requires
        0 <= k <= s.len(),
        forall|j: int| k <= j < s.len() ==> #[trigger] s[j] == c,
    ensures
        strip_trailing(s, c) == strip_trailing(s.subrange(0, k), c),
    decreases s.len() - k,
{
    if k < s.len() {
        let t = s.drop_last();
        assert forall|j: int| k <= j < t.len() implies #[trigger] t[j] == c by {
            assert(t[j] == s[j]);
        }
        lemma_strip_trailing_skip(t, c, k);
        assert(t.subrange(0, k) =~= s.subrange(0, k));
    } else {
        assert(s.subrange(0, k) =~= s);
    }
}

pub proof fn lemma_decimal_nonempty(n: nat)
    ensures
        decimal(n).len() >= 1,
    decreases n,
{
    if n >= 10 {
        lemma_decimal_nonempty(n / 10);
    }
}

// ───────────────────────────── std wrappers ─────────────────────────────

/// Appends `c` to `s` (`String::push`).
#[verifier::external_body]
pub(crate) fn push_char(s: &mut String, c: char)
    ensures
        final(s)@ == old(s)@.push(c),
{
    s.push(c);
}

/// `str::to_lowercase`: claims only that the result is the named lower-case
/// form of the argument; Unicode case mapping is not restated here.
#[verifier::external_body]
pub(crate) fn to_lowercase(s: &str) -> (r: String)
    ensures
        r@ == lowercase_of(s@),
{
    s.to_lowercase()
}

// ───────────────────────────── executable functions ─────────────────────────────

/// The characters of a string slice, in order.
pub fn chars_of(s: &str) -> (v: Vec<char>)
    ensures
        v@ == s@,
{
    let mut v: Vec<char> = Vec::new();
    for c in it: s.chars()
        invariant
            v@ == it.seq().take(it.index()),
            it.seq() == s@,
    {
        v.push(c);
    }
    v
}

/// Appends the characters `v[from..to]` to `s`.
pub fn push_range(s: &mut String, v: &Vec<char>, from: usize, to: usize)
    requires
        from <= to <= v.len(),
    ensures
        final(s)@ == old(s)@ + v@.subrange(from as int, to as int),
{
    let mut i: usize = from;
    while i < to
        invariant
            from <= i <= to <= v.len(),
            s@ == old(s)@ + v@.subrange(from as int, i as int),
        decreases to - i,
    {
        push_char(s, v[i]);
        assert(v@.subrange(from as int, i + 1) =~= v@.subrange(from as int, i as int).push(v@[i as int]));
        i += 1;
    }
}

/// Appends all of `v` to `s`.
pub fn push_chars(s: &mut String, v: &Vec<char>)
    ensures
        final(s)@ == old(s)@ + v@,
{
    push_range(s, v, 0, v.len());
    assert(v@.subrange(0, v.len() as int) =~= v@);
}

/// Appends a string slice to `s`.
pub fn push_str(s: &mut String, t: &str)
    ensures
        final(s)@ == old(s)@ + t@,
{
    s.append(t);
}

/// A new string holding the characters `v[from..to]`.
pub fn string_of_range(v: &Vec<char>, from: usize, to: usize) -> (r: String)
    requires
        from <= to <= v.len(),
    ensures
        r@ == v@.subrange(from as int, to as int),
{
    let mut s = String::new();
    push_range(&mut s, v, from, to);
    s
}

/// A new string holding the characters of `v`.
pub fn string_of(v: &Vec<char>) -> (r: String)
    ensures
        r@ == v@,
{
    let mut s = String::new();
    push_chars(&mut s, v);
    s
}

/// Whether the characters of `v` spell exactly `s`.
pub fn chars_eq_str(v: &Vec<char>, s: &str) -> (b: bool)
    ensures
        b == (v@ == s@),
{
    let w = chars_of(s);
    same_chars(v, &w)
}

/// Whether `c` is whitespace (`char::is_whitespace`).
pub fn ws(c: char) -> (b: bool)
    ensures
        b == is_ws(c),
{
    let u: u32 = c as u32;
    (0x09 <= u && u <= 0x0D) || u == 0x20 || u == 0x85 || u == 0xA0 || u == 0x1680 || (0x2000
        <= u && u <= 0x200A) || u == 0x2028 || u == 0x2029 || u == 0x202F || u == 0x205F || u
        == 0x3000
}

/// Equality of two character sequences.
pub fn same_chars(a: &Vec<char>, b: &Vec<char>) -> (r: bool)
    ensures
        r == (a@ == b@),
{
    if a.len() != b.len() {
        return false;
    }
    let mut i: usize = 0;
    while i < a.len()
        invariant
            a.len() == b.len(),
            0 <= i <= a.len(),
            forall|j: int| 0 <= j < i ==> a@[j] == b@[j],
        decreases a.len() - i,
    {
        if a[i] != b[i] {
            return false;
        }
        i += 1;
    }
    assert(a@ =~= b@);
    true
}

/// The bounds `(start, end)` of `v` without leading and trailing whitespace.
pub fn trim_bounds(v: &Vec<char>) -> (r: (usize, usize))
    ensures
        r.0 <= r.1 <= v.len(),
        v@.subrange(r.0 as int, r.1 as int) == trim(v@),
{
    let n: usize = v.len();
    let mut i: usize = 0;
    while i < n && ws(v[i])
        invariant
            0 <= i <= n == v.len(),
            forall|j: int| 0 <= j < i ==> is_ws(#[trigger] v@[j]),
        decreases n - i,
    {
        i += 1;
    }
    proof {
        lemma_trim_start_skip(v@, i as int);
    }
    let ghost t = v@.subrange(i as int, n as int);
    assert(trim_start(t) == t);
    let mut j: usize = n;
    while j > i && ws(v[j - 1])
        invariant
            i <= j <= n == v.len(),
            forall|k: int| j <= k < n ==> is_ws(#[trigger] v@[k]),
        decreases j - i,
    {
        j -= 1;
    }
    proof {
        assert forall|k: int| j - i <= k < t.len() implies is_ws(#[trigger] t[k]) by {
            assert(t[k] == v@[k + i]);
        }
        lemma_trim_end_skip(t, j - i);
        assert(t.subrange(0, j - i) =~= v@.subrange(i as int, j as int));
        let u = v@.subrange(i as int, j as int);
        if u.len() > 0 {
            assert(u.last() == v@[j - 1]);
        }
    }
    (i, j)
}

/// `v` without leading and trailing whitespace.
pub fn trim_chars(v: &Vec<char>) -> (r: Vec<char>)
    ensures
        r@ == trim(v@),
{
    let (a, b) = trim_bounds(v);
    slice_chars(v, a, b)
}

/// `v` without its leading occurrences of `c`.
pub fn strip_leading_chars(v: &Vec<char>, c: char) -> (r: Vec<char>)
    ensures
        r@ == strip_leading(v@, c),
{
    let n: usize = v.len();
    let mut i: usize = 0;
    while i < n && v[i] == c
        invariant
            0 <= i <= n == v.len(),
            forall|j: int| 0 <= j < i ==> #[trigger] v@[j] == c,
        decreases n - i,
    {
        i += 1;
    }
    proof {
        lemma_strip_leading_skip(v@, c, i as int);
        let t = v@.subrange(i as int, n as int);
        if t.len() > 0 {
            assert(t[0] == v@[i as int]);
        }
    }
    slice_chars(v, i, n)
}

/// `v` without its trailing occurrences of `c`.
pub fn strip_trailing_chars(v: &Vec<char>, c: char) -> (r: Vec<char>)
    ensures
        r@ == strip_trailing(v@, c),
{
    let n: usize = v.len();
    let mut j: usize = n;
    while j > 0 && v[j - 1] == c
        invariant
            0 <= j <= n == v.len(),
            forall|k: int| j <= k < n ==> #[trigger] v@[k] == c,
        decreases j,
    {
        j -= 1;
    }
    proof {
        lemma_strip_trailing_skip(v@, c, j as int);
        let t = v@.subrange(0, j as int);
        if t.len() > 0 {
            assert(t.last() == v@[j - 1]);
        }
    }
    slice_chars(v, 0, j)
}

/// `v` without leading and trailing occurrences of `c`.
pub fn strip_both_chars(v: &Vec<char>, c: char) -> (r: Vec<char>)
    ensures
        r@ == strip_both(v@, c),
{
    let a = strip_leading_chars(v, c);
    strip_trailing_chars(&a, c)
}

/// Appends a signed integer in decimal.
pub fn push_signed(s: &mut String, n: i64)
    ensures
        final(s)@ == old(s)@ + signed_decimal(n as int),
{
    if n < 0 {
        push_char(s, '-');
        let m: i128 = 0i128 - (n as i128);
        push_decimal(s, m as u128);
        assert(final(s)@ =~= old(s)@ + signed_decimal(n as int));
    } else {
        push_decimal(s, n as u128);
    }
}

/// The characters `v[from..to]`.
pub fn slice_chars(v: &Vec<char>, from: usize, to: usize) -> (r: Vec<char>)
    requires
        from <= to <= v.len(),
    ensures
        r@ == v@.subrange(from as int, to as int),
{
    let mut r: Vec<char> = Vec::new();
    let mut i: usize = from;
    while i < to
        invariant
            from <= i <= to <= v.len(),
            r@ == v@.subrange(from as int, i as int),
        decreases to - i,
    {
        r.push(v[i]);
        assert(v@.subrange(from as int, i + 1) =~= v@.subrange(from as int, i as int).push(
            v@[i as int],
        ));
        i += 1;
    }
    r
}

fn sep_holds(sep: &Sep, c: char) -> (b: bool)
    ensures
        b == is_sep(*sep, c),
{
    match sep {
        Sep::Char(d) => c == *d,
        Sep::Space => ws(c),
    }
}

/// The pieces of `v` between separators.
pub fn split_chars(v: &Vec<char>, sep: Sep) -> (r: Vec<Vec<char>>)
    ensures
        views(r@) == split_by(v@, sep),
{
    let mut pieces: Vec<Vec<char>> = Vec::new();
    let mut cur: Vec<char> = Vec::new();
    let mut i: usize = 0;
    assert(v@.subrange(0, 0) =~= Seq::<char>::empty());
    assert(views(pieces@).push(cur@) =~= split_by(Seq::<char>::empty(), sep));
    while i < v.len()
        invariant
            0 <= i <= v.len(),
            views(pieces@).push(cur@) == split_by(v@.subrange(0, i as int), sep),
        decreases v.len() - i,
    {
        let c = v[i];
        let ghost pre = v@.subrange(0, i as int);
        let ghost next = v@.subrange(0, i + 1);
        assert(next.drop_last() =~= pre);
        assert(next.last() == c);
        if sep_holds(&sep, c) {
            let ghost old_pieces = views(pieces@);
            let done = cur;
            pieces.push(done);
            cur = Vec::new();
            assert(views(pieces@) =~= old_pieces.push(done@));
            assert(views(pieces@).push(cur@) =~= split_by(next, sep));
        } else {
            let ghost old_cur = cur@;
            cur.push(c);
            assert(views(pieces@).push(cur@) =~= split_by(pre, sep).update(
                split_by(pre, sep).len() - 1,
                old_cur.push(c),
            ));
        }
        i += 1;
    }
    let ghost before = views(pieces@);
    pieces.push(cur);
    assert(views(pieces@) =~= before.push(cur@));
    assert(v@.subrange(0, v.len() as int) =~= v@);
    pieces
}

/// The non-empty pieces of `ps`, in order.
pub fn keep_non_empty(ps: Vec<Vec<char>>) -> (r: Vec<Vec<char>>)
    ensures
        views(r@) == non_empty(views(ps@)),
{
    let mut r: Vec<Vec<char>> = Vec::new();
    let mut i: usize = 0;
    let n: usize = ps.len();
    assert(views(ps@).subrange(0, 0) =~= Seq::<Seq<char>>::empty());
    while i < n
        invariant
            0 <= i <= n == ps.len(),
            views(r@) == non_empty(views(ps@).subrange(0, i as int)),
        decreases n - i,
    {
        let p = &ps[i];
        let ghost pre = views(ps@).subrange(0, i as int);
        let ghost next = views(ps@).subrange(0, i + 1);
        assert(next.drop_last() =~= pre);
        assert(next.last() == p@);
        if p.len() > 0 {
            let ghost old_r = views(r@);
            r.push(p.clone());
            assert(views(r@) =~= old_r.push(p@));
        }
        i += 1;
    }
    assert(views(ps@).subrange(0, n as int) =~= views(ps@));
    r
}

/// The whitespace-separated words of `v`.
pub fn words_of(v: &Vec<char>) -> (r: Vec<Vec<char>>)
    ensures
        views(r@) == words(v@),
{
    keep_non_empty(split_chars(v, Sep::Space))
}

/// The lines of `v` (`str::lines`).
pub fn lines_of(v: &Vec<char>) -> (r: Vec<Vec<char>>)
    ensures
        views(r@) == lines(v@),
{
    let p = split_chars(v, Sep::Char('\n'));
    proof {
        lemma_split_nonempty(v@, Sep::Char('\n'));
    }
    let n: usize = p.len();
    let mut r: Vec<Vec<char>> = Vec::new();
    let mut i: usize = 0;
    let ghost pd = views(p@);
    let ghost init = pd.drop_last().map_values(|l: Seq<char>| strip_cr(l));
    while i + 1 < n
        invariant
            1 <= n == p.len(),
            pd == views(p@),
            init == pd.drop_last().map_values(|l: Seq<char>| strip_cr(l)),
            0 <= i <= n - 1,
            views(r@) == init.subrange(0, i as int),
        decreases n - i,
    {
        let l = &p[i];
        let ghost before = views(r@);
        if l.len() > 0 && l[l.len() - 1] == '\r' {
            r.push(slice_chars(l, 0, l.len() - 1));
            assert(l@.drop_last() =~= l@.subrange(0, l.len() - 1));
        } else {
            r.push(l.clone());
        }
        assert(views(r@) =~= before.push(strip_cr(l@)));
        assert(init.subrange(0, i + 1) =~= init.subrange(0, i as int).push(init[i as int]));
        i += 1;
    }
    assert(init.subrange(0, (n - 1) as int) =~= init);
    let last = &p[n - 1];
    if last.len() > 0 {
        let ghost before = views(r@);
        r.push(last.clone());
        assert(views(r@) =~= before.push(last@));
    }
    r
}

fn occurs_at_exec(s: &Vec<char>, p: &Vec<char>, i: usize) -> (b: bool)
    requires
        i + p.len() <= s.len(),
    ensures
        b == occurs_at(s@, p@, i as int),
{
    let mut k: usize = 0;
    while k < p.len()
        invariant
            i + p.len() <= s.len(),
            0 <= k <= p.len(),
            forall|j: int| 0 <= j < k ==> s@[i + j] == p@[j],
        decreases p.len() - k,
    {
        if s[i + k] != p[k] {
            assert(s@.subrange(i as int, i + p.len())[k as int] != p@[k as int]);
            return false;
        }
        k += 1;
    }
    assert(s@.subrange(i as int, i + p.len()) =~= p@);
    true
}

proof fn lemma_find_from_skip(s: Seq<char>, p: Seq<char>, i: int, k: int)
    requires
        0 <= i <= k,
        k + p.len() <= s.len() + 1,
        forall|j: int| i <= j < k ==> !occurs_at(s, p, j),
    ensures
        find_from(s, p, i) == find_from(s, p, k),
    decreases k - i,
{
    if i < k {
        lemma_find_from_skip(s, p, i + 1, k);
    }
}

/// The first position at or after `from` where `p` occurs in `s`.
pub fn find_chars(s: &Vec<char>, p: &Vec<char>, from: usize) -> (r: Option<usize>)
    ensures
        match r {
            Some(i) => find_from(s@, p@, from as int) == Some(i as int),
            None => find_from(s@, p@, from as int) is None,
        },
        r matches Some(i) ==> from <= i && occurs_at(s@, p@, i as int),
{
    if p.len() > s.len() || from > s.len() - p.len() {
        return None;
    }
    if p.len() == 0 {
        assert(s@.subrange(from as int, from as int) =~= p@);
        return Some(from);
    }
    let mut i: usize = from;
    while i <= s.len() - p.len()
        invariant
            from <= i,
            1 <= p.len() <= s.len(),
            i <= s.len() - p.len() + 1,
            forall|j: int| from <= j < i ==> !occurs_at(s@, p@, j),
        decreases s.len() - p.len() + 1 - i,
    {
        if occurs_at_exec(s, p, i) {
            proof {
                lemma_find_from_skip(s@, p@, from as int, i as int);
            }
            return Some(i);
        }
        i += 1;
    }
    proof {
        lemma_find_from_skip(s@, p@, from as int, i as int);
    }
    None
}

proof fn lemma_find_none(s: Seq<char>, p: Seq<char>, i: int)
    requires
        0 <= i,
        find_from(s, p, i) is None,
    ensures
        forall|j: int| i <= j ==> !occurs_at(s, p, j),
    decreases s.len() + 1 - i,
{
    if i + p.len() <= s.len() {
        lemma_find_none(s, p, i + 1);
    }
}

/// Whether `p` occurs anywhere in `s`.
pub fn contains_chars(s: &Vec<char>, p: &Vec<char>) -> (b: bool)
    ensures
        b == contains_seq(s@, p@),
{
    match find_chars(s, p, 0) {
        Some(_) => true,
        None => {
            proof {
                lemma_find_none(s@, p@, 0);
            }
            false
        },
    }
}

/// Whether `p` is a prefix of `s`.
pub fn starts_with_chars(s: &Vec<char>, p: &Vec<char>) -> (b: bool)
    ensures
        b == has_prefix(s@, p@),
{
    if p.len() > s.len() {
        return false;
    }
    occurs_at_exec(s, p, 0)
}

fn digit_of(d: u128) -> (c: char)
    requires
        d < 10,
    ensures
        c == digit_char(d as nat),
{
    if d == 0 {
        '0'
    } else if d == 1 {
        '1'
    } else if d == 2 {
        '2'
    } else if d == 3 {
        '3'
    } else if d == 4 {
        '4'
    } else if d == 5 {
        '5'
    } else if d == 6 {
        '6'
    } else if d == 7 {
        '7'
    } else if d == 8 {
        '8'
    } else {
        '9'
    }
}

/// The decimal digits of `n`.
pub fn decimal_chars(n: u128) -> (r: Vec<char>)
    ensures
        r@ == decimal(n as nat),
{
    let mut m: u128 = n;
    let mut tail: Vec<char> = Vec::new();
    while m >= 10
        invariant
            decimal(n as nat) == decimal(m as nat) + tail@,
        decreases m,
    {
        let d = digit_of(m % 10);
        let ghost old_tail = tail@;
        tail.insert(0, d);
        assert(decimal(m as nat) == decimal((m / 10) as nat).push(d));
        assert(decimal((m / 10) as nat).push(d) + old_tail =~= decimal((m / 10) as nat) + tail@);
        m = m / 10;
    }
    let mut r: Vec<char> = Vec::new();
    r.push(digit_of(m));
    let ghost head = r@;
    assert(head == decimal(m as nat));
    let k: usize = tail.len();
    let mut i: usize = 0;
    while i < k
        invariant
            k == tail.len(),
            0 <= i <= k,
            r@ == head + tail@.subrange(0, i as int),
        decreases k - i,
    {
        r.push(tail[i]);
        assert(head + tail@.subrange(0, i + 1) =~= (head + tail@.subrange(0, i as int)).push(
            tail@[i as int],
        ));
        i += 1;
    }
    assert(tail@.subrange(0, k as int) =~= tail@);
    r
}

/// Appends `n` in decimal, left-padded with zeros to at least `width` characters.
pub fn push_padded(s: &mut String, n: u128, width: usize)
    ensures
        final(s)@ == old(s)@ + padded(n as nat, width as nat),
{
    let d = decimal_chars(n);
    let ghost start = s@;
    if d.len() < width {
        let pad: usize = width - d.len();
        let mut i: usize = 0;
        while i < pad
            invariant
                0 <= i <= pad,
                s@ == start + Seq::new(i as nat, |k: int| '0'),
            decreases pad - i,
        {
            push_char(s, '0');
            assert(Seq::new((i + 1) as nat, |k: int| '0') =~= Seq::new(i as nat, |k: int| '0').push(
                '0',
            ));
            i += 1;
        }
        push_chars(s, &d);
        assert(start + Seq::new(pad as nat, |k: int| '0') + d@ =~= start + (Seq::new(
            pad as nat,
            |k: int| '0',
        ) + d@));
    } else {
        push_chars(s, &d);
    }
}

/// Appends `n` in decimal.
pub fn push_decimal(s: &mut String, n: u128)
    ensures
        final(s)@ == old(s)@ + decimal(n as nat),
{
    let d = decimal_chars(n);
    push_chars(s, &d);
}

/// `v` with every occurrence of `c` replaced by the characters of `r`.
pub fn replace_chars(v: &Vec<char>, c: char, r: &str) -> (out: String)
    ensures
        out@ == replace_char(v@, c, r@),
{
    let mut out = String::new();
    let mut i: usize = 0;
    assert(v@.subrange(0, 0) =~= Seq::<char>::empty());
    while i < v.len()
        invariant
            0 <= i <= v.len(),
            out@ == replace_char(v@.subrange(0, i as int), c, r@),
        decreases v.len() - i,
    {
        let ghost next = v@.subrange(0, i + 1);
        assert(next.drop_last() =~= v@.subrange(0, i as int));
        if v[i] == c {
            push_str(&mut out, r);
        } else {
            push_char(&mut out, v[i]);
            assert(seq![v@[i as int]] =~= Seq::<char>::empty().push(v@[i as int]));
            assert(out@ =~= replace_char(v@.subrange(0, i as int), c, r@) + seq![v@[i as int]]);
        }
        i += 1;
    }
    assert(v@.subrange(0, v.len() as int) =~= v@);
    out
}

/// The lower-case form of `v`.
pub fn lowercase_chars(v: &Vec<char>) -> (r: Vec<char>)
    ensures
        r@ == lowercase_of(v@),
{
    let s = string_of(v);
    let l = to_lowercase(s.as_str());
    chars_of(l.as_str())
}

} // verus!
