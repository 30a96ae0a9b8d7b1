//! Character-level text utilities: conversions between strings and character
//! vectors, and display-column accounting based on East-Asian width rules.

use vstd::prelude::*;
use vstd::string::StrSliceExecFns;

verus! {

/// Collects the characters of a string slice into a vector.
pub fn str_chars(s: &str) -> (r: Vec<char>)
    ensures
        r@ == s@,
{
    let n = s.unicode_len();
    let mut r: Vec<char> = Vec::new();
    let mut i: usize = 0;
    while i < n
        invariant
            i <= n,
            n == s@.len(),
            r@ == s@.take(i as int),
        decreases n - i,
    {
        let c = s.get_char(i);
        r.push(c);
        proof {
            assert(r@ =~= s@.take(i + 1 as int));
        }
        i += 1;
    }
    proof {
        assert(r@ =~= s@);
    }
    r
}

/// Relies on `Iterator::collect` for `String`: collecting a sequence of
/// characters yields the string of exactly those characters, in order.
#[verifier::external_body]
pub fn chars_to_string(v: &Vec<char>) -> (r: String)
    ensures
        r@ == v@,
{
    v.iter().collect()
}

/// The display width, in terminal columns, of one character.
pub uninterp spec fn char_cols(c: char) -> nat;

/// Relies on `unicode_width::UnicodeWidthChar::width`: the column width of a
/// character under Unicode Standard Annex #11, exactly one for printable
/// ASCII, and absent (treated as zero here) for control characters.
#[verifier::external_body]
pub fn char_width(c: char) -> (r: usize)
    ensures
        r == char_cols(c),
        ' ' <= c && c <= '~' ==> r == 1,
{
    unicode_width::UnicodeWidthChar::width(c).unwrap_or(0)
}

/// The exact (unbounded) sum of the column widths of a character sequence.
pub open spec fn cols_of(s: Seq<char>) -> nat
    decreases s.len(),
{
    if s.len() == 0 {
        0
    } else {
        cols_of(s.drop_last()) + char_cols(s.last())
    }
}

/// The column width of a character sequence as computed executably:
/// the exact sum, saturated at `usize::MAX`.
pub open spec fn sat_cols(s: Seq<char>) -> nat {
    if cols_of(s) > usize::MAX {
        usize::MAX as nat
    } else {
        cols_of(s)
    }
}

/// Computes the display width of a character vector, saturating at
/// `usize::MAX`.
pub fn text_cols(v: &Vec<char>) -> (r: usize)
    ensures
        r == sat_cols(v@),
{
    let mut w: usize = 0;
    let mut i: usize = 0;
    while i < v.len()
        invariant
            i <= v@.len(),
            w == sat_cols(v@.take(i as int)),
        decreases v@.len() - i,
    {
        let cw = char_width(v[i]);
        proof {
            assert(v@.take(i + 1 as int).drop_last() =~= v@.take(i as int));
            assert(v@.take(i + 1 as int).last() == v@[i as int]);
        }
        w = if w > usize::MAX - cw {
            usize::MAX
        } else {
            w + cw
        };
        i += 1;
    }
    proof {
        assert(v@.take(v@.len() as int) =~= v@);
    }
    w
}

/// Compares two character vectors for equality.
pub fn eq_chars(a: &Vec<char>, b: &Vec<char>) -> (r: bool)
    ensures
        r == (a@ == b@),
{
    if a.len() != b.len() {
        proof {
            assert(a@.len() != b@.len());
        }
        return false;
    }
    let mut i: usize = 0;
    while i < a.len()
        invariant
            i <= a@.len(),
            a@.len() == b@.len(),
            forall|k: int| 0 <= k < i ==> a@[k] == b@[k],
        decreases a@.len() - i,
    {
        if a[i] != b[i] {
            return false;
        }
        i += 1;
    }
    proof {
        assert(a@ =~= b@);
    }
    true
}

/// Compares a character vector against a string literal.
pub fn eq_lit(v: &Vec<char>, s: &str) -> (r: bool)
    ensures
        r == (v@ == s@),
{
    let l = str_chars(s);
    eq_chars(v, &l)
}

/// Whether `p` is a prefix of `s`.
pub open spec fn is_prefix(p: Seq<char>, s: Seq<char>) -> bool {
    p.len() <= s.len() && p == s.take(p.len() as int)
}

/// Whether the vector starts with the characters of a string literal.
pub fn starts_with_lit(v: &Vec<char>, s: &str) -> (r: bool)
    ensures
        r == is_prefix(s@, v@),
{
    let p = str_chars(s);
    if p.len() > v.len() {
        return false;
    }
    let mut i: usize = 0;
    while i < p.len()
        invariant
            i <= p@.len(),
            p@.len() <= v@.len(),
            p@ == s@,
            forall|k: int| 0 <= k < i ==> p@[k] == v@[k],
        decreases p@.len() - i,
    {
        if p[i] != v[i] {
            proof {
                if is_prefix(s@, v@) {
                    assert(v@.take(s@.len() as int)[i as int] == v@[i as int]);
                    assert(s@ == v@.take(s@.len() as int));
                    assert(s@[i as int] == v@[i as int]);
                    assert(false);
                }
            }
            return false;
        }
        i += 1;
    }
    proof {
        assert(p@ =~= v@.take(p@.len() as int));
    }
    true
}

/// Copies the characters of `v` in positions `[a, b)` into a new vector.
pub fn subvec(v: &Vec<char>, a: usize, b: usize) -> (r: Vec<char>)
    requires
        a <= b <= v@.len(),
    ensures
        r@ == v@.subrange(a as int, b as int),
{
    let mut r: Vec<char> = Vec::new();
    let mut i: usize = a;
    while i < b
        invariant
            a <= i <= b <= v@.len(),
            r@ == v@.subrange(a as int, i as int),
        decreases b - i,
    {
        r.push(v[i]);
        proof {
            assert(r@ =~= v@.subrange(a as int, i + 1 as int));
        }
        i += 1;
    }
    r
}

/// Copies a character vector.
pub fn copy_chars(v: &Vec<char>) -> (r: Vec<char>)
    ensures
        r@ == v@,
{
    let r = subvec(v, 0, v.len());
    proof {
        assert(v@.subrange(0, v@.len() as int) =~= v@);
    }
    r
}

/// Appends the characters of `src` to `dst`.
pub fn append_chars(dst: &mut Vec<char>, src: &Vec<char>)
    ensures
        final(dst)@ == old(dst)@ + src@,
{
    let ghost base = dst@;
    let mut i: usize = 0;
    proof {
        assert(dst@ =~= base + src@.take(0));
    }
    while i < src.len()
        invariant
            i <= src@.len(),
            dst@ == base + src@.take(i as int),
        decreases src@.len() - i,
    {
        dst.push(src[i]);
        proof {
            assert(dst@ =~= base + src@.take(i + 1 as int));
        }
        i += 1;
    }
    proof {
        assert(src@.take(src@.len() as int) =~= src@);
    }
}

/// Splits characters at newlines, keeping empty pieces, accumulator form.
pub open spec fn split_nl_rec(s: Seq<char>, cur: Seq<char>, acc: Seq<Seq<char>>) -> Seq<Seq<char>>
    decreases s.len(),
{
    if s.len() == 0 {
        acc.push(cur)
    } else if s[0] == '\n' {
        split_nl_rec(s.drop_first(), Seq::empty(), acc.push(cur))
    } else {
        split_nl_rec(s.drop_first(), cur.push(s[0]), acc)
    }
}

/// The pieces of `s` between newlines; always at least one piece.
pub open spec fn split_nl(s: Seq<char>) -> Seq<Seq<char>> {
    split_nl_rec(s, Seq::empty(), Seq::empty())
}

/// The pieces rejoined with newlines.
pub open spec fn join_nl(ls: Seq<Seq<char>>) -> Seq<char>
    decreases ls.len(),
{
    if ls.len() == 0 {
        Seq::empty()
    } else if ls.len() == 1 {
        ls[0]
    } else {
        join_nl(ls.drop_last()) + seq!['\n'] + ls.last()
    }
}

/// Splits a character vector at newlines, keeping empty pieces.
pub fn split_nl_exec(v: &Vec<char>) -> (r: Vec<Vec<char>>)
    ensures
        crate::line::views_of(r@) == split_nl(v@),
        r@.len() > 0,
{
    let mut acc: Vec<Vec<char>> = Vec::new();
    let mut cur: Vec<char> = Vec::new();
    let mut i: usize = 0;
    proof {
        assert(v@.skip(0) =~= v@);
        assert(crate::line::views_of(acc@) =~= Seq::<Seq<char>>::empty());
        assert(cur@ =~= Seq::<char>::empty());
    }
    while i < v.len()
        invariant
            i <= v@.len(),
            split_nl_rec(v@.skip(i as int), cur@, crate::line::views_of(acc@)) == split_nl(v@),
        decreases v@.len() - i,
    {
        let ghost pre = v@.skip(i as int);
        proof {
            assert(pre[0] == v@[i as int]);
            assert(pre.drop_first() =~= v@.skip(i + 1 as int));
        }
        if v[i] == '\n' {
            proof {
                crate::line::lemma_views_of_push(acc@, cur);
            }
            acc.push(cur);
            cur = Vec::new();
            proof {
                assert(cur@ =~= Seq::<char>::empty());
            }
        } else {
            cur.push(v[i]);
        }
        i += 1;
    }
    proof {
        assert(v@.skip(v@.len() as int) =~= Seq::<char>::empty());
        crate::line::lemma_views_of_push(acc@, cur);
    }
    acc.push(cur);
    acc
}

/// Rejoins line pieces with newlines.
pub fn join_nl_exec(ls: &Vec<Vec<char>>) -> (r: Vec<char>)
    ensures
        r@ == join_nl(crate::line::views_of(ls@)),
{
    let mut r: Vec<char> = Vec::new();
    let mut i: usize = 0;
    while i < ls.len()
        invariant
            i <= ls@.len(),
            r@ == join_nl(crate::line::views_of(ls@).take(i as int)),
        decreases ls@.len() - i,
    {
        if i > 0 {
            r.push('\n');
        }
        let ghost mid = r@;
        let mut j: usize = 0;
        proof {
            assert(r@ =~= mid + ls@[i as int]@.take(0));
        }
        while j < ls[i].len()
            invariant
                i < ls@.len(),
                j <= ls@[i as int]@.len(),
                r@ == mid + ls@[i as int]@.take(j as int),
            decreases ls@[i as int]@.len() - j,
        {
            r.push(ls[i][j]);
            proof {
                assert(r@ =~= mid + ls@[i as int]@.take(j + 1 as int));
            }
            j += 1;
        }
        proof {
            let lv = crate::line::views_of(ls@);
            assert(ls@[i as int]@.take(ls@[i as int]@.len() as int) =~= ls@[i as int]@);
            assert(lv.take(i + 1 as int).drop_last() =~= lv.take(i as int));
            assert(lv.take(i + 1 as int).last() == ls@[i as int]@);
            if i == 0 {
                assert(r@ =~= join_nl(lv.take(1)));
            } else {
                assert(r@ =~= join_nl(lv.take(i + 1 as int)));
            }
        }
        i += 1;
    }
    proof {
        let lv = crate::line::views_of(ls@);
        assert(lv.take(ls@.len() as int) =~= lv);
    }
    r
}

/// `n` repetitions of one character.
pub open spec fn repeat_char(c: char, n: nat) -> Seq<char>
    decreases n,
{
    if n == 0 {
        Seq::empty()
    } else {
        repeat_char(c, (n - 1) as nat).push(c)
    }
}

/// Builds `n` repetitions of one character.
pub fn repeat_char_exec(c: char, n: usize) -> (r: Vec<char>)
    ensures
        r@ == repeat_char(c, n as nat),
{
    let mut r: Vec<char> = Vec::new();
    let mut i: usize = 0;
    while i < n
        invariant
            i <= n,
            r@ == repeat_char(c, i as nat),
        decreases n - i,
    {
        r.push(c);
        i += 1;
    }
    r
}

/// The decimal digit character of `d`, for `d` below ten.
pub open spec fn digit_char(d: nat) -> char {
    if d == 0 {
        '0'
    } else if d == 1 {
        '1'
    } else if d == 2 {
        '2'
    } else if d == 3 {
        '3'
    } else if d == 4 {
        '4'
    } else if d == 5 {
        '5'
    } else if d == 6 {
        '6'
    } else if d == 7 {
        '7'
    } else if d == 8 {
        '8'
    } else {
        '9'
    }
}

/// The decimal digits of `n`.
pub open spec fn dec_str(n: nat) -> Seq<char>
    decreases n,
{
    if n < 10 {
        seq![digit_char(n)]
    } else {
        dec_str(n / 10) + seq![digit_char(n % 10)]
    }
}

fn digit_char_exec(d: u64) -> (r: char)
    requires
        d < 10,
    ensures
        r == digit_char(d as nat),
{
    if d == 0 {
        '0'
    } else if d == 1 {
        '1'
    } else if d == 2 {
        '2'
    } else if d == 3 {
        '3'
    } else if d == 4 {
        '4'
    } else if d == 5 {
        '5'
    } else if d == 6 {
        '6'
    } else if d == 7 {
        '7'
    } else if d == 8 {
        '8'
    } else {
        '9'
    }
}

/// The decimal digits of a number.
pub fn u64_chars(n: u64) -> (r: Vec<char>)
    ensures
        r@ == dec_str(n as nat),
    decreases n,
{
    if n < 10 {
        let mut r: Vec<char> = Vec::new();
        r.push(digit_char_exec(n));
        proof {
            assert(r@ =~= seq![digit_char(n as nat)]);
        }
        r
    } else {
        let mut r = u64_chars(n / 10);
        r.push(digit_char_exec(n % 10));
        proof {
            assert(r@ =~= dec_str((n / 10) as nat) + seq![digit_char((n % 10) as nat)]);
        }
        r
    }
}

/// The decimal digits of a machine-sized number.
pub fn usize_chars(n: usize) -> (r: Vec<char>)
    ensures
        r@ == dec_str(n as nat),
    decreases n,
{
    if n < 10 {
        let mut r: Vec<char> = Vec::new();
        r.push(digit_char_exec((n % 10) as u64));
        proof {
            assert(r@ =~= seq![digit_char(n as nat)]);
        }
        r
    } else {
        let mut r = usize_chars(n / 10);
        r.push(digit_char_exec((n % 10) as u64));
        proof {
            assert(r@ =~= dec_str((n / 10) as nat) + seq![digit_char((n % 10) as nat)]);
        }
        r
    }
}

/// One line piece with a carriage return dropped from its end, as a CRLF
/// line ending leaves one before the split newline.
pub open spec fn strip_cr(p: Seq<char>) -> Seq<char> {
    if p.len() > 0 && p.last() == '\r' {
        p.drop_last()
    } else {
        p
    }
}

/// Every piece with its trailing carriage return dropped.
pub open spec fn strip_cr_all(ls: Seq<Seq<char>>) -> Seq<Seq<char>>
    decreases ls.len(),
{
    if ls.len() == 0 {
        Seq::empty()
    } else {
        strip_cr_all(ls.drop_last()).push(strip_cr(ls.last()))
    }
}

/// The lines of a text as `lines()` sees them: pieces between newlines, with
/// no final empty piece when the text ends in a newline, and with the
/// carriage return of a CRLF ending dropped. A carriage return at the very
/// end of the text, with no newline after it, stays.
pub open spec fn text_lines(s: Seq<char>) -> Seq<Seq<char>> {
    if s.len() == 0 {
        Seq::empty()
    } else if s.last() == '\n' {
        strip_cr_all(split_nl(s.take(s.len() - 1)))
    } else {
        let ps = split_nl(s);
        strip_cr_all(ps.drop_last()).push(ps.last())
    }
}

/// Drops one trailing carriage return from a line piece.
fn strip_cr_exec(p: &Vec<char>) -> (r: Vec<char>)
    ensures
        r@ == strip_cr(p@),
{
    let n = p.len();
    if n > 0 && p[n - 1] == '\r' {
        proof {
            assert(p@.last() == p@[n - 1]);
        }
        let r = subvec(p, 0, n - 1);
        proof {
            assert(r@ =~= p@.drop_last());
        }
        r
    } else {
        proof {
            if p@.len() > 0 {
                assert(p@.last() == p@[n - 1]);
            }
        }
        copy_chars(p)
    }
}

/// Splits a text into its lines, dropping a final newline and the carriage
/// return of each CRLF ending.
pub fn text_lines_exec(v: &Vec<char>) -> (r: Vec<Vec<char>>)
    ensures
        crate::line::views_of(r@) == text_lines(v@),
{
    let n = v.len();
    if n == 0 {
        let r: Vec<Vec<char>> = Vec::new();
        proof {
            assert(crate::line::views_of(r@) =~= text_lines(v@));
        }
        return r;
    }
    if v[n - 1] == '\n' {
        let head = subvec(v, 0, n - 1);
        proof {
            assert(v@.last() == v@[n - 1]);
            assert(head@ =~= v@.take(n - 1 as int));
        }
        let pieces = split_nl_exec(&head);
        let ghost pv = crate::line::views_of(pieces@);
        let mut out: Vec<Vec<char>> = Vec::new();
        let mut i: usize = 0;
        proof {
            assert(crate::line::views_of(out@) =~= strip_cr_all(pv.take(0)));
        }
        while i < pieces.len()
            invariant
                i <= pieces@.len(),
                pv == crate::line::views_of(pieces@),
                crate::line::views_of(out@) == strip_cr_all(pv.take(i as int)),
            decreases pieces@.len() - i,
        {
            let piece = strip_cr_exec(&pieces[i]);
            proof {
                crate::line::lemma_views_of_push(out@, piece);
                assert(pv.take(i + 1 as int).drop_last() =~= pv.take(i as int));
                assert(pv.take(i + 1 as int).last() == pv[i as int]);
                assert(crate::line::views_of(out@).push(piece@) =~= strip_cr_all(pv.take(
                    i + 1 as int)));
            }
            out.push(piece);
            i += 1;
        }
        proof {
            assert(pv.take(pieces@.len() as int) =~= pv);
        }
        out
    } else {
        proof {
            assert(v@.last() == v@[n - 1]);
        }
        let pieces = split_nl_exec(v);
        let ghost pv = crate::line::views_of(pieces@);
        let m = pieces.len();
        let mut out: Vec<Vec<char>> = Vec::new();
        let mut i: usize = 0;
        proof {
            assert(crate::line::views_of(out@) =~= strip_cr_all(pv.drop_last().take(0)));
        }
        while i < m - 1
            invariant
                m >= 1,
                i <= m - 1,
                m == pieces@.len(),
                pv == crate::line::views_of(pieces@),
                crate::line::views_of(out@) == strip_cr_all(pv.drop_last().take(i as int)),
            decreases m - i,
        {
            let piece = strip_cr_exec(&pieces[i]);
            proof {
                crate::line::lemma_views_of_push(out@, piece);
                assert(pv.drop_last()[i as int] == pv[i as int]);
                assert(pv.drop_last().take(i + 1 as int).drop_last() =~= pv.drop_last().take(
                    i as int));
                assert(pv.drop_last().take(i + 1 as int).last() == pv.drop_last()[i as int]);
                assert(crate::line::views_of(out@).push(piece@) =~= strip_cr_all(
                    pv.drop_last().take(i + 1 as int)));
            }
            out.push(piece);
            i += 1;
        }
        proof {
            assert(pv.drop_last().take((m - 1) as int) =~= pv.drop_last());
        }
        let last = copy_chars(&pieces[m - 1]);
        proof {
            crate::line::lemma_views_of_push(out@, last);
            assert(pv.last() == pv[m - 1]);
            assert(crate::line::views_of(out@).push(last@) =~= strip_cr_all(pv.drop_last()).push(
                pv.last()));
        }
        out.push(last);
        out
    }
}

/// The index of the last occurrence of `c` in `s`; meaningful only when some
/// occurrence exists.
pub open spec fn last_idx(s: Seq<char>, c: char) -> int
    decreases s.len(),
{
    if s.len() == 0 {
        -1
    } else if s.last() == c {
        s.len() - 1
    } else {
        last_idx(s.drop_last(), c)
    }
}

/// Whether `c` occurs anywhere in `s`.
pub open spec fn has_ch(s: Seq<char>, c: char) -> bool {
    exists|i: int| 0 <= i < s.len() && s[i] == c
}

pub proof fn lemma_last_idx_found(s: Seq<char>, c: char, i: int)
    requires
        0 <= i < s.len(),
        s[i] == c,
        forall|k: int| i < k < s.len() ==> s[k] != c,
    ensures
        last_idx(s, c) == i,
        has_ch(s, c),
    decreases s.len() - i,
{
    if i == s.len() - 1 {
    } else {
        lemma_last_idx_found(s.drop_last(), c, i);
    }
}

pub proof fn lemma_last_idx_none(s: Seq<char>, c: char)
    requires
        forall|k: int| 0 <= k < s.len() ==> s[k] != c,
    ensures
        !has_ch(s, c),
{
}

/// Finds the index of the last occurrence of `c` in `v`.
pub fn rfind_char(v: &Vec<char>, c: char) -> (r: Option<usize>)
    ensures
        match r {
            Some(i) => i < v@.len() && v@[i as int] == c && last_idx(v@, c) == i && has_ch(v@, c),
            None => !has_ch(v@, c),
        },
{
    let mut i: usize = v.len();
    while i > 0
        invariant
            i <= v@.len(),
            forall|k: int| i <= k < v@.len() ==> v@[k] != c,
        decreases i,
    {
        i -= 1;
        if v[i] == c {
            proof {
                lemma_last_idx_found(v@, c, i as int);
            }
            return Some(i);
        }
    }
    proof {
        lemma_last_idx_none(v@, c);
    }
    None
}

} // verus!
