//! Table source normalization: a text-to-text pre-pass that repairs malformed
//! pipe-table blocks (synthesizing a missing separator row) and drops stale
//! box-drawing border lines, before structural parsing.

use vstd::prelude::*;

use crate::language::is_ws;
use crate::line::{views_of, lemma_views_of_push};
use crate::text::{append_chars, chars_to_string, has_ch, join_nl, split_nl, split_nl_exec,
    join_nl_exec, str_chars, subvec};

verus! {

// --- whitespace trimming ---

/// The number of leading whitespace characters.
pub open spec fn wsf(s: Seq<char>) -> nat
    decreases s.len(),
{
    if s.len() > 0 && is_ws(s[0]) {
        1 + wsf(s.drop_first())
    } else {
        0
    }
}

/// The number of trailing whitespace characters.
pub open spec fn wsb(s: Seq<char>) -> nat
    decreases s.len(),
{
    if s.len() > 0 && is_ws(s.last()) {
        1 + wsb(s.drop_last())
    } else {
        0
    }
}

pub proof fn lemma_wsf_step(s: Seq<char>, a: int)
    requires
        0 <= a <= s.len(),
        forall|k: int| 0 <= k < a ==> is_ws(s[k]),
        a == s.len() || !is_ws(s[a]),
    ensures
        wsf(s) == a,
    decreases a,
{
    if a == 0 {
    } else {
        assert(is_ws(s[0]));
        lemma_wsf_step(s.drop_first(), a - 1);
    }
}

pub proof fn lemma_wsb_step(s: Seq<char>, b: int)
    requires
        0 <= b <= s.len(),
        forall|k: int| s.len() - b <= k < s.len() ==> is_ws(s[k]),
        b == s.len() || !is_ws(s[s.len() - 1 - b]),
    ensures
        wsb(s) == b,
    decreases b,
{
    if b == 0 {
    } else {
        assert(is_ws(s.last()));
        lemma_wsb_step(s.drop_last(), b - 1);
    }
}

pub proof fn lemma_wsf_le(s: Seq<char>)
    ensures
        wsf(s) <= s.len(),
    decreases s.len(),
{
    if s.len() > 0 && is_ws(s[0]) {
        lemma_wsf_le(s.drop_first());
    }
}

pub proof fn lemma_wsb_le(s: Seq<char>)
    ensures
        wsb(s) <= s.len(),
    decreases s.len(),
{
    if s.len() > 0 && is_ws(s.last()) {
        lemma_wsb_le(s.drop_last());
    }
}

/// `s` with leading and trailing whitespace removed.
pub open spec fn trim_spec(s: Seq<char>) -> Seq<char> {
    let t = s.skip(wsf(s) as int);
    t.take(t.len() - wsb(t))
}

/// Trims ASCII whitespace from both ends of a character vector.
pub fn trim_chars(v: &Vec<char>) -> (r: Vec<char>)
    ensures
        r@ == trim_spec(v@),
{
    let n = v.len();
    let mut a: usize = 0;
    while a < n && is_ws(v[a])
        invariant
            a <= n,
            n == v@.len(),
            forall|k: int| 0 <= k < a ==> is_ws(v@[k]),
        decreases n - a,
    {
        a += 1;
    }
    proof {
        lemma_wsf_step(v@, a as int);
    }
    if a == n {
        let r: Vec<char> = Vec::new();
        proof {
            assert(v@.skip(a as int) =~= Seq::<char>::empty());
            assert(r@ =~= trim_spec(v@));
        }
        return r;
    }
    let mut b: usize = 0;
    while b < n - a && is_ws(v[n - 1 - b])
        invariant
            a < n,
            n == v@.len(),
            b <= n - a,
            !is_ws(v@[a as int]),
            forall|k: int| n - b <= k < n ==> is_ws(v@[k]),
        decreases n - a - b,
    {
        b += 1;
    }
    proof {
        let t = v@.skip(a as int);
        assert(t.len() == n - a);
        assert(forall|k: int| 0 <= k < t.len() ==> t[k] == v@[k + a]);
        if b < n - a {
            assert(!is_ws(t[t.len() - 1 - b]));
        } else {
            assert(b == n - a);
            assert(!is_ws(v@[a as int]));
            assert(t[0] == v@[a as int]);
            assert(is_ws(t[t.len() - b as int]) ==> false) by {
                if t.len() == b {
                    assert(t[0] == v@[a as int]);
                }
            }
        }
        lemma_wsb_step(t, b as int);
    }
    let r = subvec(v, a, n - b);
    proof {
        let t = v@.skip(a as int);
        assert(r@ =~= t.take(t.len() - wsb(t)));
    }
    r
}

// --- line classification ---

/// Whether a character may appear in a pipe-table separator row.
#[verifier::allow_in_spec]
pub fn sep_char(c: char) -> bool
    returns
        (c == '-' || c == '|' || c == ':' || c == ' ' || c == '\t'),
{
    c == '-' || c == '|' || c == ':' || c == ' ' || c == '\t'
}

/// A separator row: only dashes, pipes, colons and whitespace, with at least
/// one dash and one pipe.
pub open spec fn pipe_sep_spec(s: Seq<char>) -> bool {
    let t = trim_spec(s);
    t.len() > 0 && has_ch(t, '|') && (forall|k: int| 0 <= k < t.len() ==> sep_char(t[k]))
        && has_ch(t, '-')
}

/// A pipe-table content row: nonempty after trimming, contains a pipe, and is
/// not a separator row.
pub open spec fn pipe_line_spec(s: Seq<char>) -> bool {
    let t = trim_spec(s);
    t.len() > 0 && has_ch(t, '|') && !pipe_sep_spec(s)
}

/// An already-rendered table border line: its first visible character is a
/// box-drawing glyph.
pub open spec fn box_line_spec(s: Seq<char>) -> bool {
    let t = s.skip(wsf(s) as int);
    t.len() > 0 && (t[0] == '┌' || t[0] == '├' || t[0] == '└' || t[0] == '│')
}

fn pipe_sep_chars(v: &Vec<char>) -> (r: bool)
    ensures
        r == pipe_sep_spec(v@),
{
    let t = trim_chars(v);
    let n = t.len();
    if n == 0 {
        return false;
    }
    let mut has_pipe = false;
    let mut has_dash = false;
    let mut i: usize = 0;
    while i < n
        invariant
            i <= n,
            n == t@.len(),
            t@ == trim_spec(v@),
            has_pipe == (exists|k: int| 0 <= k < i && t@[k] == '|'),
            has_dash == (exists|k: int| 0 <= k < i && t@[k] == '-'),
            forall|k: int| 0 <= k < i ==> sep_char(t@[k]),
        decreases n - i,
    {
        let c = t[i];
        if !sep_char(c) {
            proof {
                assert(!sep_char(t@[i as int]));
            }
            return false;
        }
        if c == '|' {
            has_pipe = true;
            proof {
                assert(t@[i as int] == '|');
            }
        }
        if c == '-' {
            has_dash = true;
            proof {
                assert(t@[i as int] == '-');
            }
        }
        i += 1;
    }
    has_pipe && has_dash
}

fn pipe_line_chars(v: &Vec<char>) -> (r: bool)
    ensures
        r == pipe_line_spec(v@),
{
    let t = trim_chars(v);
    if t.len() == 0 {
        return false;
    }
    let mut has_pipe = false;
    let mut i: usize = 0;
    let n = t.len();
    while i < n
        invariant
            i <= n,
            n == t@.len(),
            has_pipe == (exists|k: int| 0 <= k < i && t@[k] == '|'),
        decreases n - i,
    {
        if t[i] == '|' {
            proof {
                assert(t@[i as int] == '|');
            }
            has_pipe = true;
        }
        i += 1;
    }
    if !has_pipe {
        return false;
    }
    let sep = pipe_sep_chars(v);
    !sep
}

pub fn box_line_chars(v: &Vec<char>) -> (r: bool)
    ensures
        r == box_line_spec(v@),
{
    let n = v.len();
    let mut a: usize = 0;
    while a < n && is_ws(v[a])
        invariant
            a <= n,
            n == v@.len(),
            forall|k: int| 0 <= k < a ==> is_ws(v@[k]),
        decreases n - a,
    {
        a += 1;
    }
    proof {
        lemma_wsf_step(v@, a as int);
    }
    if a == n {
        return false;
    }
    let c = v[a];
    proof {
        assert(v@.skip(a as int)[0] == v@[a as int]);
    }
    c == '┌' || c == '├' || c == '└' || c == '│'
}

/// Whether a trimmed line is a pipe-table separator row (`| --- | --- |`).
pub fn is_pipe_table_separator(line: &str) -> (r: bool)
    ensures
        r == pipe_sep_spec(line@),
{
    let v = str_chars(line);
    pipe_sep_chars(&v)
}

/// Whether a line is a pipe-table content row.
pub fn is_pipe_table_line(line: &str) -> (r: bool)
    ensures
        r == pipe_line_spec(line@),
{
    let v = str_chars(line);
    pipe_line_chars(&v)
}

/// Whether a line is an already-rendered box-drawing table border.
pub fn is_box_table_line(text: &str) -> (r: bool)
    ensures
        r == box_line_spec(text@),
{
    let v = str_chars(text);
    box_line_chars(&v)
}

// --- structural prefix scanning ---

/// Whether `c` is an ASCII digit.
#[verifier::allow_in_spec]
pub fn is_digit(c: char) -> bool
    returns
        ('0' <= c && c <= '9'),
{
    '0' <= c && c <= '9'
}

/// Whether `c` is a space or tab.
#[verifier::allow_in_spec]
pub fn is_sp(c: char) -> bool
    returns
        (c == ' ' || c == '\t'),
{
    c == ' ' || c == '\t'
}

/// The number of leading spaces and tabs.
pub open spec fn sp_count(s: Seq<char>) -> nat
    decreases s.len(),
{
    if s.len() > 0 && is_sp(s[0]) {
        1 + sp_count(s.drop_first())
    } else {
        0
    }
}

pub proof fn lemma_sp_count_le(s: Seq<char>)
    ensures
        sp_count(s) <= s.len(),
    decreases s.len(),
{
    if s.len() > 0 && is_sp(s[0]) {
        lemma_sp_count_le(s.drop_first());
    }
}

/// The number of leading ASCII digits.
pub open spec fn digit_count(s: Seq<char>) -> nat
    decreases s.len(),
{
    if s.len() > 0 && is_digit(s[0]) {
        1 + digit_count(s.drop_first())
    } else {
        0
    }
}

pub proof fn lemma_digit_count_le(s: Seq<char>)
    ensures
        digit_count(s) <= s.len(),
    decreases s.len(),
{
    if s.len() > 0 && is_digit(s[0]) {
        lemma_digit_count_le(s.drop_first());
    }
}

/// The characters consumed by a run of quote markers: each `>` followed by
/// its trailing spaces and tabs.
pub open spec fn quote_count(s: Seq<char>) -> nat
    decreases s.len(),
    via quote_count_dec
{
    if s.len() > 0 && s[0] == '>' {
        let b = 1 + sp_count(s.skip(1));
        (b + quote_count(s.skip(b as int))) as nat
    } else {
        0
    }
}

#[via_fn]
proof fn quote_count_dec(s: Seq<char>) {
    if s.len() > 0 && s[0] == '>' {
        lemma_sp_count_le(s.skip(1));
    }
}

pub proof fn lemma_quote_count_le(s: Seq<char>)
    ensures
        quote_count(s) <= s.len(),
    decreases s.len(),
{
    if s.len() > 0 && s[0] == '>' {
        lemma_sp_count_le(s.skip(1));
        let b = 1 + sp_count(s.skip(1));
        lemma_quote_count_le(s.skip(b as int));
    }
}

/// The characters consumed by one list marker: a bullet glyph, `-`, `+`, `*`,
/// or digits followed by `.` or `)`; zero when no marker is present.
pub open spec fn marker_count(s: Seq<char>) -> nat {
    if s.len() == 0 {
        0
    } else if s[0] == '\u{2022}' || s[0] == '-' || s[0] == '+' || s[0] == '*' {
        1
    } else if is_digit(s[0]) {
        let d = digit_count(s);
        if d < s.len() && (s[d as int] == '.' || s[d as int] == ')') {
            d + 1
        } else {
            0
        }
    } else {
        0
    }
}

pub proof fn lemma_marker_count_le(s: Seq<char>)
    ensures
        marker_count(s) <= s.len(),
{
    lemma_digit_count_le(s);
}

/// The length of the structural prefix of a line: leading whitespace, quote
/// markers, and at most one list marker with its trailing whitespace.
pub open spec fn prefix_len(s: Seq<char>) -> nat {
    let a = sp_count(s);
    let s1 = s.skip(a as int);
    let q = quote_count(s1);
    let s2 = s1.skip(q as int);
    let m = marker_count(s2);
    if m > 0 {
        (a + q + m + sp_count(s2.skip(m as int))) as nat
    } else {
        (a + q) as nat
    }
}

pub proof fn lemma_prefix_len_le(s: Seq<char>)
    ensures
        prefix_len(s) <= s.len(),
{
    let a = sp_count(s);
    lemma_sp_count_le(s);
    let s1 = s.skip(a as int);
    let q = quote_count(s1);
    lemma_quote_count_le(s1);
    let s2 = s1.skip(q as int);
    let m = marker_count(s2);
    lemma_marker_count_le(s2);
    if m > 0 {
        lemma_sp_count_le(s2.skip(m as int));
    }
}

/// What remains of a line after dropping its first `n` characters; empty when
/// the line is no longer than `n`.
pub open spec fn strip_spec(s: Seq<char>, n: nat) -> Seq<char> {
    if s.len() <= n {
        Seq::empty()
    } else {
        s.skip(n as int)
    }
}

fn sp_count_exec(v: &Vec<char>, i: usize) -> (r: usize)
    requires
        i <= v@.len(),
    ensures
        i + r <= v@.len(),
        r as nat == sp_count(v@.skip(i as int)),
    decreases v@.len() - i,
{
    if i < v.len() && is_sp(v[i]) {
        proof {
            assert(v@.skip(i as int)[0] == v@[i as int]);
            assert(v@.skip(i as int).drop_first() =~= v@.skip(i + 1 as int));
        }
        1 + sp_count_exec(v, i + 1)
    } else {
        proof {
            if i < v@.len() {
                assert(v@.skip(i as int)[0] == v@[i as int]);
            }
        }
        0
    }
}

pub fn digit_count_exec(v: &Vec<char>, i: usize) -> (r: usize)
    requires
        i <= v@.len(),
    ensures
        i + r <= v@.len(),
        r as nat == digit_count(v@.skip(i as int)),
    decreases v@.len() - i,
{
    if i < v.len() && is_digit(v[i]) {
        proof {
            assert(v@.skip(i as int)[0] == v@[i as int]);
            assert(v@.skip(i as int).drop_first() =~= v@.skip(i + 1 as int));
        }
        1 + digit_count_exec(v, i + 1)
    } else {
        proof {
            if i < v@.len() {
                assert(v@.skip(i as int)[0] == v@[i as int]);
            }
        }
        0
    }
}

fn quote_count_exec(v: &Vec<char>, i: usize) -> (r: usize)
    requires
        i <= v@.len(),
    ensures
        i + r <= v@.len(),
        r as nat == quote_count(v@.skip(i as int)),
    decreases v@.len() - i,
{
    if i < v.len() && v[i] == '>' {
        proof {
            assert(v@.skip(i as int)[0] == v@[i as int]);
            assert(v@.skip(i as int).skip(1) =~= v@.skip(i + 1 as int));
        }
        let a = sp_count_exec(v, i + 1);
        let b = 1 + a;
        proof {
            assert(v@.skip(i as int).skip(b as int) =~= v@.skip((i + b) as int));
        }
        let q = quote_count_exec(v, i + b);
        b + q
    } else {
        proof {
            if i < v@.len() {
                assert(v@.skip(i as int)[0] == v@[i as int]);
            }
        }
        0
    }
}

fn marker_count_exec(v: &Vec<char>, i: usize) -> (r: usize)
    requires
        i <= v@.len(),
    ensures
        i + r <= v@.len(),
        r as nat == marker_count(v@.skip(i as int)),
{
    let ghost s = v@.skip(i as int);
    if i == v.len() {
        return 0;
    }
    proof {
        assert(s[0] == v@[i as int]);
    }
    let c = v[i];
    if c == '\u{2022}' || c == '-' || c == '+' || c == '*' {
        return 1;
    }
    if is_digit(c) {
        let dd = digit_count_exec(v, i);
        proof {
            assert(dd as nat == digit_count(s));
        }
        if i + dd < v.len() {
            let after = v[i + dd];
            proof {
                assert(s[dd as int] == v@[(i + dd) as int]);
            }
            if after == '.' || after == ')' {
                return dd + 1;
            }
        }
        return 0;
    }
    0
}

/// Splits a line into its structural prefix and the remaining content:
/// the prefix length in characters and the content after it. Empty lines
/// have no split.
pub fn split_table_prefix(line: &str) -> (r: Option<(usize, String)>)
    ensures
        r is Some <==> line@.len() > 0,
        r matches Some((n, rest)) ==> n as nat == prefix_len(line@) && rest@ == line@.skip(
            n as int) && n <= line@.len(),
{
    let v = str_chars(line);
    match split_prefix_chars(&v) {
        None => None,
        Some((n, rest)) => Some((n, chars_to_string(&rest))),
    }
}

fn split_prefix_chars(v: &Vec<char>) -> (r: Option<(usize, Vec<char>)>)
    ensures
        r is Some <==> v@.len() > 0,
        r matches Some((n, rest)) ==> n as nat == prefix_len(v@) && rest@ == v@.skip(n as int)
            && n <= v@.len(),
{
    if v.len() == 0 {
        return None;
    }
    let a = sp_count_exec(v, 0);
    proof {
        assert(v@.skip(0) =~= v@);
    }
    let q = quote_count_exec(v, a);
    proof {
        assert(v@.skip(0).skip(a as int) =~= v@.skip(a as int));
    }
    let m = marker_count_exec(v, a + q);
    proof {
        assert(v@.skip(a as int).skip(q as int) =~= v@.skip((a + q) as int));
    }
    let n: usize = if m > 0 {
        let t = sp_count_exec(v, a + q + m);
        proof {
            assert(v@.skip((a + q) as int).skip(m as int) =~= v@.skip((a + q + m) as int));
        }
        a + q + m + t
    } else {
        a + q
    };
    let rest = subvec(v, n, v.len());
    proof {
        assert(rest@ =~= v@.skip(n as int));
    }
    Some((n, rest))
}

/// Drops the first `strip_len` characters of a line, yielding the empty
/// string when the line is shorter.
pub fn strip_prefix(line: &str, strip_len: usize) -> (r: String)
    ensures
        r@ == strip_spec(line@, strip_len as nat),
{
    let v = str_chars(line);
    let s = strip_chars(&v, strip_len);
    chars_to_string(&s)
}

fn strip_chars(v: &Vec<char>, n: usize) -> (r: Vec<char>)
    ensures
        r@ == strip_spec(v@, n as nat),
{
    if v.len() <= n {
        let r: Vec<char> = Vec::new();
        proof {
            assert(r@ =~= strip_spec(v@, n as nat));
        }
        r
    } else {
        let r = subvec(v, n, v.len());
        proof {
            assert(r@ =~= v@.skip(n as int));
        }
        r
    }
}

// --- separator synthesis ---

/// The number of occurrences of `c` in `s`.
pub open spec fn count_ch(s: Seq<char>, c: char) -> nat
    decreases s.len(),
{
    if s.len() == 0 {
        0
    } else {
        count_ch(s.drop_last(), c) + (if s.last() == c {
            1nat
        } else {
            0nat
        })
    }
}

/// The first pipe-table content row among `rows`.
pub open spec fn find_pipe_row(rows: Seq<Seq<char>>) -> Option<Seq<char>>
    decreases rows.len(),
{
    if rows.len() == 0 {
        None
    } else if pipe_line_spec(rows[0]) {
        Some(rows[0])
    } else {
        find_pipe_row(rows.drop_first())
    }
}

/// The synthesized separator row for `cols` columns: `|` followed by
/// `cols` repetitions of ` --- |`.
pub open spec fn sep_seq(cols: nat) -> Seq<char>
    decreases cols,
{
    if cols == 0 {
        "|"@
    } else {
        sep_seq((cols - 1) as nat) + " --- |"@
    }
}

/// The number of pipe-delimited cells of the first pipe-table row: pipes plus
/// one, not counting an empty cell from a leading or trailing outer pipe.
pub open spec fn header_cols(h: Seq<char>) -> int {
    let t = trim_spec(h);
    let pipes = count_ch(t, '|');
    let st: int = if t.len() > 0 && t[0] == '|' {
        1
    } else {
        0
    };
    let en: int = if t.len() > 0 && t.last() == '|' {
        1
    } else {
        0
    };
    pipes + 1 - st - en
}

/// The separator row synthesized from the first pipe-table row of `rows`,
/// absent when no such row exists or no column can be inferred.
pub open spec fn build_sep_spec(rows: Seq<Seq<char>>) -> Option<Seq<char>> {
    match find_pipe_row(rows) {
        None => None,
        Some(h) => {
            let n = header_cols(h);
            if n <= 0 {
                None
            } else {
                Some(sep_seq(n as nat))
            }
        },
    }
}

pub proof fn lemma_count_ch_le(s: Seq<char>, c: char)
    ensures
        count_ch(s, c) <= s.len(),
    decreases s.len(),
{
    if s.len() > 0 {
        lemma_count_ch_le(s.drop_last(), c);
    }
}

pub proof fn lemma_count_ch_lt(s: Seq<char>, c: char, k: int)
    requires
        0 <= k < s.len(),
        s[k] != c,
    ensures
        count_ch(s, c) < s.len(),
    decreases s.len(),
{
    lemma_count_ch_le(s.drop_last(), c);
    if k < s.len() - 1 {
        lemma_count_ch_lt(s.drop_last(), c, k);
    }
}

fn count_ch_exec(v: &Vec<char>, c: char) -> (r: usize)
    ensures
        r as nat == count_ch(v@, c),
        r <= v@.len(),
{
    let mut r: usize = 0;
    let mut i: usize = 0;
    while i < v.len()
        invariant
            i <= v@.len(),
            r as nat == count_ch(v@.take(i as int), c),
            r <= i,
        decreases v@.len() - i,
    {
        proof {
            assert(v@.take(i + 1 as int).drop_last() =~= v@.take(i as int));
            assert(v@.take(i + 1 as int).last() == v@[i as int]);
        }
        if v[i] == c {
            r += 1;
        }
        i += 1;
    }
    proof {
        assert(v@.take(v@.len() as int) =~= v@);
    }
    r
}

fn build_sep_chars(rows: &Vec<Vec<char>>) -> (r: Option<Vec<char>>)
    ensures
        match r {
            Some(s) => build_sep_spec(views_of(rows@)) == Some(s@),
            None => build_sep_spec(views_of(rows@)) is None,
        },
{
    let mut i: usize = 0;
    proof {
        assert(views_of(rows@).skip(0) =~= views_of(rows@));
    }
    while i < rows.len()
        invariant
            i <= rows@.len(),
            find_pipe_row(views_of(rows@).skip(i as int)) == find_pipe_row(views_of(rows@)),
            forall|k: int| 0 <= k < rows@.len() ==> views_of(rows@)[k] == rows@[k]@,
        decreases rows@.len() - i,
    {
        let ghost pre = views_of(rows@).skip(i as int);
        proof {
            assert(pre[0] == views_of(rows@)[i as int]);
            assert(pre.drop_first() =~= views_of(rows@).skip(i + 1 as int));
        }
        if pipe_line_chars(&rows[i]) {
            // Found the header row; count its cells.
            let t = trim_chars(&rows[i]);
            let pipes = count_ch_exec(&t, '|');
            let st: usize = if t.len() > 0 && t[0] == '|' {
                proof {
                    assert(t@[0] == '|');
                }
                1
            } else {
                1 - 1
            };
            let en: usize = if t.len() > 0 && t[t.len() - 1] == '|' {
                proof {
                    assert(t@.last() == '|');
                }
                1
            } else {
                1 - 1
            };
            proof {
                if t@.len() > 0 && t@[0] == '|' {
                    assert(st == 1);
                }
                if t@.len() > 0 && t@.last() == '|' {
                    assert(en == 1);
                }
            }
            if pipes < st + en {
                proof {
                    assert(header_cols(rows@[i as int]@) <= 0);
                }
                return None;
            }
            proof {
                if st == 0 && t@.len() > 0 {
                    assert(t@[0] != '|');
                    lemma_count_ch_lt(t@, '|', 0);
                }
            }
            let cols = pipes - st - en + 1;
            proof {
                assert(cols as int == header_cols(rows@[i as int]@));
            }
            let mut out = str_chars("|");
            let piece = str_chars(" --- |");
            let mut k: usize = 0;
            proof {
                assert(out@ == sep_seq(0));
            }
            while k < cols
                invariant
                    k <= cols,
                    out@ == sep_seq(k as nat),
                    piece@ == " --- |"@,
                decreases cols - k,
            {
                append_chars(&mut out, &piece);
                k += 1;
            }
            return Some(out);
        }
        i += 1;
    }
    proof {
        assert(views_of(rows@).skip(rows@.len() as int) =~= Seq::<Seq<char>>::empty());
    }
    None
}

/// Builds the synthesized separator row for a run of table rows, from the
/// first pipe-table row's pipe-delimited cell count.
pub fn build_pipe_table_separator(rows: &Vec<String>) -> (r: Option<String>)
    ensures
        match r {
            Some(s) => build_sep_spec(views_of(rows@)) == Some(s@),
            None => build_sep_spec(views_of(rows@)) is None,
        },
{
    let mut cv: Vec<Vec<char>> = Vec::new();
    let mut i: usize = 0;
    while i < rows.len()
        invariant
            i <= rows@.len(),
            views_of(cv@) == views_of(rows@).take(i as int),
        decreases rows@.len() - i,
    {
        let c = str_chars(rows[i].as_str());
        proof {
            lemma_views_of_push(cv@, c);
            assert(views_of(cv@).push(c@) =~= views_of(rows@).take(i + 1 as int));
        }
        cv.push(c);
        i += 1;
    }
    proof {
        assert(views_of(rows@).take(rows@.len() as int) =~= views_of(rows@));
    }
    match build_sep_chars(&cv) {
        Some(s) => Some(chars_to_string(&s)),
        None => None,
    }
}

// --- the normalization pass ---

/// Whether some row is a separator row.
pub open spec fn has_sep(rows: Seq<Seq<char>>) -> bool {
    exists|k: int| 0 <= k < rows.len() && pipe_sep_spec(rows[k])
}

/// Scans the continuation of a table block: how many lines are consumed, and
/// the stripped rows collected. A blank line is consumed and ends the block;
/// a box-drawing line is consumed and dropped; a non-table line ends the
/// block unconsumed.
pub open spec fn block_scan(ls: Seq<Seq<char>>, n: nat) -> (nat, Seq<Seq<char>>)
    decreases ls.len(),
{
    if ls.len() == 0 {
        (0nat, Seq::empty())
    } else {
        let l = ls[0];
        if trim_spec(l).len() == 0 {
            (1nat, Seq::empty())
        } else if box_line_spec(l) {
            let r = block_scan(ls.drop_first(), n);
            ((1 + r.0) as nat, r.1)
        } else {
            let st = strip_spec(l, n);
            if pipe_line_spec(st) || pipe_sep_spec(st) {
                let r = block_scan(ls.drop_first(), n);
                ((1 + r.0) as nat, seq![st] + r.1)
            } else {
                (0nat, Seq::empty())
            }
        }
    }
}

pub proof fn lemma_block_scan_le(ls: Seq<Seq<char>>, n: nat)
    ensures
        block_scan(ls, n).0 <= ls.len(),
    decreases ls.len(),
{
    if ls.len() > 0 {
        lemma_block_scan_le(ls.drop_first(), n);
    }
}

/// One table block's output rows: the collected rows, with a separator row
/// inserted second when none is present and one can be synthesized.
pub open spec fn completed_rows(rows: Seq<Seq<char>>) -> Seq<Seq<char>> {
    if !has_sep(rows) && build_sep_spec(rows) is Some {
        rows.take(1) + seq![build_sep_spec(rows)->Some_0] + rows.skip(1)
    } else {
        rows
    }
}

/// The normalized form of the input lines: table blocks are collected,
/// repaired, and re-emitted followed by one blank line; box-drawing lines are
/// dropped; everything else passes through.
pub open spec fn normalize_lines(ls: Seq<Seq<char>>) -> Seq<Seq<char>>
    decreases ls.len(),
    via normalize_lines_dec
{
    if ls.len() == 0 {
        Seq::empty()
    } else {
        let l = ls[0];
        if box_line_spec(l) {
            normalize_lines(ls.drop_first())
        } else if l.len() == 0 {
            seq![l] + normalize_lines(ls.drop_first())
        } else {
            let n = prefix_len(l);
            let content = strip_spec(l, n);
            if !pipe_line_spec(content) {
                seq![l] + normalize_lines(ls.drop_first())
            } else {
                let sc = block_scan(ls.drop_first(), n);
                let rows = seq![content] + sc.1;
                completed_rows(rows) + seq![Seq::<char>::empty()] + normalize_lines(
                    ls.skip(1 + sc.0 as int),
                )
            }
        }
    }
}

#[via_fn]
proof fn normalize_lines_dec(ls: Seq<Seq<char>>) {
    if ls.len() > 0 {
        let l = ls[0];
        if !box_line_spec(l) && l.len() > 0 {
            let n = prefix_len(l);
            lemma_block_scan_le(ls.drop_first(), n);
        }
    }
}

/// The normalized form of the raw input text: its lines normalized and
/// rejoined, with a trailing newline preserved by the split's final empty
/// piece.
pub open spec fn normalize_spec(s: Seq<char>) -> Seq<char> {
    join_nl(normalize_lines(split_nl(s)))
}

/// Copies a character vector.
fn copy_chars(v: &Vec<char>) -> (r: Vec<char>)
    ensures
        r@ == v@,
{
    let r = subvec(v, 0, v.len());
    proof {
        assert(v@.subrange(0, v@.len() as int) =~= v@);
    }
    r
}

fn block_scan_exec(ls: &Vec<Vec<char>>, i: usize, n: usize, rows: &mut Vec<Vec<char>>) -> (c:
    usize)
    requires
        i <= ls@.len(),
    ensures
        ({
            let sc = block_scan(views_of(ls@).skip(i as int), n as nat);
            c as nat == sc.0 && views_of(final(rows)@) == views_of(old(rows)@) + sc.1 && i + c
                <= ls@.len()
        }),
    decreases ls@.len() - i,
{
    let ghost pre = views_of(ls@).skip(i as int);
    if i == ls.len() {
        proof {
            assert(pre.len() == 0);
            assert(views_of(rows@) =~= views_of(rows@) + block_scan(pre, n as nat).1);
        }
        return 0;
    }
    proof {
        assert(pre[0] == views_of(ls@)[i as int]);
        assert(pre.drop_first() =~= views_of(ls@).skip(i + 1 as int));
    }
    let t = trim_chars(&ls[i]);
    if t.len() == 0 {
        proof {
            assert(views_of(rows@) =~= views_of(rows@) + block_scan(pre, n as nat).1);
        }
        return 1;
    }
    if box_line_chars(&ls[i]) {
        let c = block_scan_exec(ls, i + 1, n, rows);
        return 1 + c;
    }
    let st = strip_chars(&ls[i], n);
    let is_pl = pipe_line_chars(&st);
    let is_ps = pipe_sep_chars(&st);
    if is_pl || is_ps {
        let ghost before = views_of(rows@);
        let ghost stv = st@;
        proof {
            lemma_views_of_push(rows@, st);
        }
        rows.push(st);
        let c = block_scan_exec(ls, i + 1, n, rows);
        proof {
            let rest = block_scan(pre.drop_first(), n as nat).1;
            assert(views_of(rows@) =~= before + (seq![stv] + rest));
        }
        return 1 + c;
    }
    proof {
        assert(views_of(rows@) =~= views_of(rows@) + block_scan(pre, n as nat).1);
    }
    0
}

/// Repairs malformed pipe-table blocks in raw text before structural parsing:
/// contiguous table rows sharing a structural prefix are stripped of it,
/// given a synthesized separator row when they lack one, and re-emitted
/// followed by a blank line; already-rendered box-drawing lines are dropped.
#[verifier::rlimit(100)]
pub fn normalize_table_blocks(input: &str) -> (r: String)
    ensures
        r@ == normalize_spec(input@),
{
    let chars = str_chars(input);
    let lines = split_nl_exec(&chars);
    let ghost lv = views_of(lines@);
    let mut out: Vec<Vec<char>> = Vec::new();
    let mut i: usize = 0;
    proof {
        assert(lv.skip(0) =~= lv);
        assert(views_of(out@) + normalize_lines(lv) =~= normalize_lines(lv));
    }
    while i < lines.len()
        invariant
            i <= lines@.len(),
            lv == views_of(lines@),
            normalize_lines(lv) == views_of(out@) + normalize_lines(lv.skip(i as int)),
        decreases lines@.len() - i,
    {
        let ghost pre = lv.skip(i as int);
        proof {
            assert(pre[0] == lv[i as int]);
            assert(pre.drop_first() =~= lv.skip(i + 1 as int));
        }
        if box_line_chars(&lines[i]) {
            i += 1;
            continue ;
        }
        if lines[i].len() == 0 {
            let ghost prev = views_of(out@);
            let l = copy_chars(&lines[i]);
            proof {
                lemma_views_of_push(out@, l);
            }
            out.push(l);
            proof {
                assert(views_of(out@) =~= prev + seq![lv[i as int]]);
                assert(prev + (seq![lv[i as int]] + normalize_lines(lv.skip(i + 1 as int))) =~= (
                prev + seq![lv[i as int]]) + normalize_lines(lv.skip(i + 1 as int)));
            }
            i += 1;
            continue ;
        }
        let sp = split_prefix_chars(&lines[i]);
        let (n, content) = match sp {
            Some(p) => p,
            None => {
                proof {
                    assert(false);
                }
                (0, Vec::new())
            },
        };
        proof {
            assert(content@ == strip_spec(lv[i as int], n as nat));
        }
        if !pipe_line_chars(&content) {
            let ghost prev = views_of(out@);
            let l = copy_chars(&lines[i]);
            proof {
                lemma_views_of_push(out@, l);
            }
            out.push(l);
            proof {
                assert(views_of(out@) =~= prev + seq![lv[i as int]]);
                assert(prev + (seq![lv[i as int]] + normalize_lines(lv.skip(i + 1 as int))) =~= (
                prev + seq![lv[i as int]]) + normalize_lines(lv.skip(i + 1 as int)));
            }
            i += 1;
            continue ;
        }
        // A table block starts here: collect its rows.
        let mut rows: Vec<Vec<char>> = Vec::new();
        rows.push(content);
        proof {
            assert(views_of(Seq::<Vec<char>>::empty()) =~= Seq::<Seq<char>>::empty());
        }
        let c = block_scan_exec(&lines, i + 1, n, &mut rows);
        let ghost sc = block_scan(pre.drop_first(), n as nat);
        let ghost rowsv = views_of(rows@);
        proof {
            assert(rowsv =~= seq![strip_spec(lv[i as int], n as nat)] + sc.1);
        }
        // Decide whether a separator row must be synthesized.
        let mut found_sep = false;
        let mut k: usize = 0;
        while k < rows.len()
            invariant
                k <= rows@.len(),
                rowsv == views_of(rows@),
                found_sep == (exists|j: int| 0 <= j < k && pipe_sep_spec(rowsv[j])),
            decreases rows@.len() - k,
        {
            if pipe_sep_chars(&rows[k]) {
                proof {
                    assert(pipe_sep_spec(rowsv[k as int]));
                }
                found_sep = true;
            }
            k += 1;
        }
        proof {
            assert(found_sep == has_sep(rowsv));
        }
        let sep = if !found_sep {
            build_sep_chars(&rows)
        } else {
            None
        };
        let ghost prev = views_of(out@);
        // Emit the completed block.
        match sep {
            Some(s) => {
                let first = copy_chars(&rows[0]);
                proof {
                    lemma_views_of_push(out@, first);
                }
                out.push(first);
                proof {
                    lemma_views_of_push(out@, s);
                }
                let ghost sv = s@;
                out.push(s);
                let mut k2: usize = 1;
                while k2 < rows.len()
                    invariant
                        1 <= k2 <= rows@.len(),
                        rowsv == views_of(rows@),
                        rowsv.len() >= 1,
                        views_of(out@) == prev + rowsv.take(1) + seq![sv] + rowsv.subrange(
                            1,
                            k2 as int,
                        ),
                    decreases rows@.len() - k2,
                {
                    let rcopy = copy_chars(&rows[k2]);
                    proof {
                        lemma_views_of_push(out@, rcopy);
                        assert((prev + rowsv.take(1) + seq![sv] + rowsv.subrange(1, k2 as int)).push(
                        rowsv[k2 as int]) =~= prev + rowsv.take(1) + seq![sv] + rowsv.subrange(
                            1,
                            k2 + 1 as int,
                        ));
                    }
                    out.push(rcopy);
                    k2 += 1;
                }
                proof {
                    assert(rowsv.subrange(1, rowsv.len() as int) =~= rowsv.skip(1));
                    assert(completed_rows(rowsv) == rowsv.take(1) + seq![sv] + rowsv.skip(1));
                    assert(views_of(out@) =~= prev + completed_rows(rowsv));
                }
            },
            None => {
                proof {
                    assert(completed_rows(rowsv) == rowsv);
                }
                let mut k2: usize = 0;
                while k2 < rows.len()
                    invariant
                        k2 <= rows@.len(),
                        rowsv == views_of(rows@),
                        views_of(out@) == prev + rowsv.take(k2 as int),
                    decreases rows@.len() - k2,
                {
                    let rcopy = copy_chars(&rows[k2]);
                    proof {
                        lemma_views_of_push(out@, rcopy);
                        assert((prev + rowsv.take(k2 as int)).push(rowsv[k2 as int]) =~= prev
                            + rowsv.take(k2 + 1 as int));
                    }
                    out.push(rcopy);
                    k2 += 1;
                }
                proof {
                    assert(rowsv.take(rowsv.len() as int) =~= rowsv);
                    assert(views_of(out@) =~= prev + completed_rows(rowsv));
                }
            },
        }
        let blank: Vec<char> = Vec::new();
        proof {
            lemma_views_of_push(out@, blank);
        }
        out.push(blank);
        proof {
            assert(views_of(out@) =~= prev + completed_rows(rowsv) + seq![Seq::<char>::empty()]);
            assert(prev + (completed_rows(rowsv) + seq![Seq::<char>::empty()] + normalize_lines(
            pre.skip(1 + sc.0 as int))) =~= (prev + completed_rows(rowsv) + seq![Seq::<char>::empty()])
                + normalize_lines(pre.skip(1 + sc.0 as int)));
            assert(pre.skip(1 + sc.0 as int) =~= lv.skip(i + 1 + c as int));
        }
        i += 1 + c;
    }
    proof {
        assert(lv.skip(lines@.len() as int) =~= Seq::<Seq<char>>::empty());
        assert(normalize_lines(lv) =~= views_of(out@));
    }
    let joined = join_nl_exec(&out);
    chars_to_string(&joined)
}

} // verus!
