//! Character-level text helpers shared by the parsers of the library:
//! whitespace as Rust's `char::is_whitespace` defines it, trimming, line
//! splitting as `str::lines` does it, and decimal numbers.

use vstd::prelude::*;

verus! {

// ---------------------------------------------------------------------------
// Whitespace
// ---------------------------------------------------------------------------

/// The characters with the Unicode `White_Space` property, which is the set
/// that `char::is_whitespace` recognises.
pub open spec fn is_ws(c: char) -> bool {
    ||| ('\u{9}' <= c && c <= '\u{d}')
    ||| c == ' '
    ||| c == '\u{85}'
    ||| c == '\u{a0}'
    ||| c == '\u{1680}'
    ||| ('\u{2000}' <= c && c <= '\u{200a}')
    ||| c == '\u{2028}'
    ||| c == '\u{2029}'
    ||| c == '\u{202f}'
    ||| c == '\u{205f}'
    ||| c == '\u{3000}'
}

/// Whether `c` is a whitespace character.
pub fn is_whitespace(c: char) -> (b: bool)
    ensures
        b == is_ws(c),
{
    ('\u{9}' <= c && c <= '\u{d}') || c == ' ' || c == '\u{85}' || c == '\u{a0}' || c
        == '\u{1680}' || ('\u{2000}' <= c && c <= '\u{200a}') || c == '\u{2028}' || c
        == '\u{2029}' || c == '\u{202f}' || c == '\u{205f}' || c == '\u{3000}'
}

/// The first index at or after `pos` whose character is whitespace, or the
/// length of `s` when there is none.
pub open spec fn next_ws(s: Seq<char>, pos: int) -> int
    decreases s.len() - pos,
{
    if pos < 0 || pos >= s.len() {
        s.len() as int
    } else if is_ws(s[pos]) {
        pos
    } else {
        next_ws(s, pos + 1)
    }
}

/// The first index at or after `pos` whose character is not whitespace, or
/// the length of `s` when there is none.
pub open spec fn skip_ws(s: Seq<char>, pos: int) -> int
    decreases s.len() - pos,
{
    if pos < 0 || pos >= s.len() {
        s.len() as int
    } else if !is_ws(s[pos]) {
        pos
    } else {
        skip_ws(s, pos + 1)
    }
}

/// The first index at or after `pos` holding `c`, or the length of `s`.
pub open spec fn next_char(s: Seq<char>, pos: int, c: char) -> int
    decreases s.len() - pos,
{
    if pos < 0 || pos >= s.len() {
        s.len() as int
    } else if s[pos] == c {
        pos
    } else {
        next_char(s, pos + 1, c)
    }
}

/// The end of `s.take(end)` once its trailing whitespace is dropped.
pub open spec fn trim_end_pos(s: Seq<char>, end: int) -> int
    decreases end,
{
    if end <= 0 || end > s.len() {
        0
    } else if !is_ws(s[end - 1]) {
        end
    } else {
        trim_end_pos(s, end - 1)
    }
}

/// `s` without its leading whitespace (`str::trim_start`).
pub open spec fn trim_start(s: Seq<char>) -> Seq<char> {
    s.subrange(skip_ws(s, 0), s.len() as int)
}

/// `s` without its leading and trailing whitespace (`str::trim`).
pub open spec fn trim(s: Seq<char>) -> Seq<char> {
    let a = skip_ws(s, 0);
    if a >= s.len() {
        Seq::empty()
    } else {
        s.subrange(a, trim_end_pos(s, s.len() as int))
    }
}

pub proof fn lemma_next_ws_bounds(s: Seq<char>, pos: int)
    requires
        0 <= pos <= s.len(),
    ensures
        pos <= next_ws(s, pos) <= s.len(),
        forall|i: int| pos <= i < next_ws(s, pos) ==> !is_ws(#[trigger] s[i]),
        next_ws(s, pos) < s.len() ==> is_ws(s[next_ws(s, pos)]),
    decreases s.len() - pos,
{
    if pos < s.len() && !is_ws(s[pos]) {
        lemma_next_ws_bounds(s, pos + 1);
    }
}

pub proof fn lemma_skip_ws_bounds(s: Seq<char>, pos: int)
    requires
        0 <= pos <= s.len(),
    ensures
        pos <= skip_ws(s, pos) <= s.len(),
        forall|i: int| pos <= i < skip_ws(s, pos) ==> is_ws(#[trigger] s[i]),
        skip_ws(s, pos) < s.len() ==> !is_ws(s[skip_ws(s, pos)]),
    decreases s.len() - pos,
{
    if pos < s.len() && is_ws(s[pos]) {
        lemma_skip_ws_bounds(s, pos + 1);
    }
}

pub proof fn lemma_next_char_bounds(s: Seq<char>, pos: int, c: char)
    requires
        0 <= pos <= s.len(),
    ensures
        pos <= next_char(s, pos, c) <= s.len(),
        forall|i: int| pos <= i < next_char(s, pos, c) ==> #[trigger] s[i] != c,
        next_char(s, pos, c) < s.len() ==> s[next_char(s, pos, c)] == c,
    decreases s.len() - pos,
{
    if pos < s.len() && s[pos] != c {
        lemma_next_char_bounds(s, pos + 1, c);
    }
}

pub proof fn lemma_trim_end_bounds(s: Seq<char>, end: int)
    requires
        0 <= end <= s.len(),
    ensures
        0 <= trim_end_pos(s, end) <= end,
        forall|i: int| trim_end_pos(s, end) <= i < end ==> is_ws(#[trigger] s[i]),
        trim_end_pos(s, end) > 0 ==> !is_ws(s[trim_end_pos(s, end) - 1]),
    decreases end,
{
    if end > 0 && is_ws(s[end - 1]) {
        lemma_trim_end_bounds(s, end - 1);
    }
}

/// When `s` holds a non-whitespace character at or after `a = skip_ws(s, 0)`,
/// the trimmed end lies after `a`.
pub proof fn lemma_trim_nonempty(s: Seq<char>)
    requires
        skip_ws(s, 0) < s.len(),
    ensures
        skip_ws(s, 0) < trim_end_pos(s, s.len() as int) <= s.len(),
        trim(s).len() > 0,
{
    lemma_skip_ws_bounds(s, 0);
    lemma_trim_end_bounds(s, s.len() as int);
    let a = skip_ws(s, 0);
    let e = trim_end_pos(s, s.len() as int);
    if e <= a {
        assert(is_ws(s[a]));
    }
}

/// The first index at or after `pos` whose character is whitespace.
pub fn find_ws(v: &Vec<char>, pos: usize) -> (r: usize)
    requires
        pos <= v.len(),
    ensures
        r as int == next_ws(v@, pos as int),
{
    let mut i = pos;
    while i < v.len() && !is_whitespace(v[i])
        invariant
            pos <= i <= v.len(),
            next_ws(v@, pos as int) == next_ws(v@, i as int),
        decreases v.len() - i,
    {
        i = i + 1;
    }
    i
}

/// The first index at or after `pos` whose character is not whitespace.
pub fn skip_whitespace(v: &Vec<char>, pos: usize) -> (r: usize)
    requires
        pos <= v.len(),
    ensures
        r as int == skip_ws(v@, pos as int),
{
    let mut i = pos;
    while i < v.len() && is_whitespace(v[i])
        invariant
            pos <= i <= v.len(),
            skip_ws(v@, pos as int) == skip_ws(v@, i as int),
        decreases v.len() - i,
    {
        i = i + 1;
    }
    i
}

/// The first index at or after `pos` holding `c`.
pub fn find_char(v: &Vec<char>, pos: usize, c: char) -> (r: usize)
    requires
        pos <= v.len(),
    ensures
        r as int == next_char(v@, pos as int, c),
{
    let mut i = pos;
    while i < v.len() && v[i] != c
        invariant
            pos <= i <= v.len(),
            next_char(v@, pos as int, c) == next_char(v@, i as int, c),
        decreases v.len() - i,
    {
        i = i + 1;
    }
    i
}

/// The end of `v[..end]` once its trailing whitespace is dropped.
pub fn trim_end_index(v: &Vec<char>, end: usize) -> (r: usize)
    requires
        end <= v.len(),
    ensures
        r as int == trim_end_pos(v@, end as int),
{
    let mut e = end;
    while e > 0 && is_whitespace(v[e - 1])
        invariant
            e <= end,
            end <= v.len(),
            trim_end_pos(v@, end as int) == trim_end_pos(v@, e as int),
        decreases e,
    {
        e = e - 1;
    }
    e
}

/// The characters `v[a..b]`.
pub fn slice_chars(v: &Vec<char>, a: usize, b: usize) -> (r: Vec<char>)
    requires
        a <= b <= v.len(),
    ensures
        r@ == v@.subrange(a as int, b as int),
{
    let mut r: Vec<char> = Vec::new();
    let mut i = a;
    while i < b
        invariant
            a <= i <= b,
            b <= v.len(),
            r@ == v@.subrange(a as int, i as int),
        decreases b - i,
    {
        r.push(v[i]);
        i = i + 1;
    }
    r
}

/// `v` with its leading and trailing whitespace removed.
pub fn trim_chars(v: &Vec<char>) -> (r: Vec<char>)
    ensures
        r@ == trim(v@),
{
    let a = skip_whitespace(v, 0);
    if a >= v.len() {
        return Vec::new();
    }
    proof {
        lemma_trim_nonempty(v@);
    }
    let e = trim_end_index(v, v.len());
    slice_chars(v, a, e)
}


// ---------------------------------------------------------------------------
// Lines
// ---------------------------------------------------------------------------

/// The views of a vector of character vectors.
pub open spec fn views(r: Seq<Vec<char>>) -> Seq<Seq<char>> {
    r.map_values(|l: Vec<char>| l@)
}

/// `l` without one trailing carriage return.
pub open spec fn strip_cr(l: Seq<char>) -> Seq<char> {
    if l.len() > 0 && l.last() == '\r' {
        l.drop_last()
    } else {
        l
    }
}

/// The lines of `s` from position `pos` on, as `str::lines` yields them:
/// split after each `'\n'`, which is dropped together with a `'\r'` just
/// before it; a final line ending adds no empty line.
pub open spec fn lines_from(s: Seq<char>, pos: int) -> Seq<Seq<char>>
    decreases s.len() - pos,
{
    if pos < 0 || pos >= s.len() {
        Seq::empty()
    } else {
        let e = next_char(s, pos, '\n');
        if e < s.len() {
            proof {
                lemma_next_char_bounds(s, pos, '\n');
            }
            seq![strip_cr(s.subrange(pos, e))] + lines_from(s, e + 1)
        } else {
            seq![s.subrange(pos, s.len() as int)]
        }
    }
}

/// The lines of `s` (`str::lines`).
pub open spec fn lines(s: Seq<char>) -> Seq<Seq<char>> {
    lines_from(s, 0)
}

/// The lines of `v`, as `str::lines` splits them.
pub fn split_lines(v: &Vec<char>) -> (r: Vec<Vec<char>>)
    ensures
        views(r@) == lines(v@),
{
    let mut r: Vec<Vec<char>> = Vec::new();
    let mut pos: usize = 0;
    while pos < v.len()
        invariant
            pos <= v.len(),
            views(r@) + lines_from(v@, pos as int) == lines(v@),
        decreases v.len() - pos,
    {
        let e = find_char(v, pos, '\n');
        proof {
            lemma_next_char_bounds(v@, pos as int, '\n');
        }
        let ghost old_r = r@;
        if e < v.len() {
            let mut line = slice_chars(v, pos, e);
            if line.len() > 0 && line[line.len() - 1] == '\r' {
                line.pop();
            }
            r.push(line);
            proof {
                assert(views(r@) == views(old_r).push(strip_cr(v@.subrange(pos as int, e as int))));
                assert(lines_from(v@, pos as int) == seq![strip_cr(v@.subrange(pos as int, e as int))]
                    + lines_from(v@, e + 1));
                assert(views(r@) + lines_from(v@, e + 1) == views(old_r) + lines_from(v@, pos as int));
            }
            pos = e + 1;
        } else {
            let line = slice_chars(v, pos, v.len());
            r.push(line);
            proof {
                assert(views(r@) == views(old_r).push(v@.subrange(pos as int, v@.len() as int)));
                assert(lines_from(v@, v@.len() as int) == Seq::<Seq<char>>::empty());
                assert(views(r@) + lines_from(v@, v@.len() as int) == views(old_r) + lines_from(v@, pos as int));
            }
            pos = v.len();
        }
    }
    assert(lines_from(v@, pos as int) == Seq::<Seq<char>>::empty());
    assert(views(r@) + Seq::<Seq<char>>::empty() == views(r@));
    r
}


proof fn lemma_next_char_shift(p: Seq<char>, t: Seq<char>, q: int, c: char)
    requires
        0 <= q <= t.len(),
    ensures
        next_char(p + t, p.len() + q, c) == p.len() + next_char(t, q, c),
    decreases t.len() - q,
{
    if q < t.len() {
        assert((p + t)[p.len() + q] == t[q]);
        if t[q] != c {
            lemma_next_char_shift(p, t, q + 1, c);
        }
    }
}

pub proof fn lemma_lines_from_shift(p: Seq<char>, t: Seq<char>, q: int)
    requires
        0 <= q <= t.len(),
    ensures
        lines_from(p + t, p.len() + q) == lines_from(t, q),
    decreases t.len() - q,
{
    if q < t.len() {
        let s = p + t;
        lemma_next_char_shift(p, t, q, '\n');
        lemma_next_char_bounds(t, q, '\n');
        let e = next_char(t, q, '\n');
        if e < t.len() {
            assert(s.subrange(p.len() + q, p.len() + e) =~= t.subrange(q, e));
            lemma_lines_from_shift(p, t, e + 1);
        } else {
            assert(s.subrange(p.len() + q, s.len() as int) =~= t.subrange(q, t.len() as int));
        }
    }
}

/// Text appended after `a` leaves the search for `c` from `pos` unchanged
/// where it finds `c` in `a`; else the search goes on at the end of `a`.
pub proof fn lemma_next_char_prefix(a: Seq<char>, t: Seq<char>, pos: int, c: char)
    requires
        0 <= pos <= a.len(),
    ensures
        next_char(a, pos, c) < a.len() ==> next_char(a + t, pos, c) == next_char(a, pos, c),
        next_char(a, pos, c) == a.len() ==> next_char(a + t, pos, c) == next_char(
            a + t,
            a.len() as int,
            c,
        ),
    decreases a.len() - pos,
{
    if pos < a.len() {
        assert((a + t)[pos] == a[pos]);
        if a[pos] != c {
            lemma_next_char_prefix(a, t, pos + 1, c);
        }
    }
}

/// A trailing whitespace character does not move the first whitespace
/// position found before it.
pub proof fn lemma_next_ws_drop_last(x: Seq<char>, pos: int)
    requires
        x.len() > 0,
        is_ws(x.last()),
        0 <= pos < x.len(),
    ensures
        next_ws(x.drop_last(), pos) == next_ws(x, pos),
    decreases x.len() - pos,
{
    let y = x.drop_last();
    if pos < y.len() {
        assert(y[pos] == x[pos]);
        if !is_ws(x[pos]) {
            lemma_next_ws_drop_last(x, pos + 1);
        }
    } else {
        assert(x[pos] == x.last());
    }
}

/// No character of `c` ends a line: neither `'\n'` nor `'\r'`.
pub open spec fn single_line(c: Seq<char>) -> bool {
    forall|i: int| 0 <= i < c.len() ==> #[trigger] c[i] != '\n' && c[i] != '\r'
}

/// A line without line-ending characters, followed by `'\n'` and more
/// text, is the first of the lines.
pub proof fn lemma_lines_cons(c: Seq<char>, t: Seq<char>)
    requires
        single_line(c),
    ensures
        lines(c + "\n"@ + t) == seq![c] + lines(t),
{
    reveal_strlit("\n");
    let s = c + "\n"@ + t;
    let p = c + "\n"@;
    assert(s == p + t);
    lemma_next_char_bounds(s, 0, '\n');
    let k = next_char(s, 0, '\n');
    assert(s[c.len() as int] == '\n');
    if k < c.len() {
        assert(s[k] == c[k]);
    }
    assert(k == c.len());
    assert(s.subrange(0, k) =~= c);
    if c.len() > 0 {
        assert(c.last() == c[c.len() - 1]);
    }
    assert(strip_cr(c) == c);
    lemma_lines_from_shift(p, t, 0);
    assert(p.len() == c.len() + 1);
    if t.len() == 0 {
        assert(lines_from(t, 0) == Seq::<Seq<char>>::empty());
    }
}

// ---------------------------------------------------------------------------
// Splitting on whitespace with a bounded number of splits
// ---------------------------------------------------------------------------

/// The fields of `s` from the non-whitespace position `pos` on, split at
/// runs of whitespace at most `k` times; the last field keeps the rest of
/// the text, trailing whitespace included.
pub open spec fn split_max_from(s: Seq<char>, pos: int, k: nat) -> Seq<Seq<char>>
    decreases k,
{
    if pos < 0 || pos >= s.len() {
        Seq::empty()
    } else if k == 0 {
        seq![s.subrange(pos, s.len() as int)]
    } else {
        let e = next_ws(s, pos);
        if e >= s.len() {
            seq![s.subrange(pos, s.len() as int)]
        } else {
            seq![s.subrange(pos, e)] + split_max_from(s, skip_ws(s, e), (k - 1) as nat)
        }
    }
}

/// `s` split at runs of whitespace at most `k` times, leading whitespace
/// ignored.
pub open spec fn split_ws_max(s: Seq<char>, k: nat) -> Seq<Seq<char>> {
    split_max_from(s, skip_ws(s, 0), k)
}

/// `v` split at runs of whitespace at most `k` times.
pub fn split_chars_max(v: &Vec<char>, k: usize) -> (r: Vec<Vec<char>>)
    ensures
        views(r@) == split_ws_max(v@, k as nat),
{
    let mut r: Vec<Vec<char>> = Vec::new();
    let mut pos = skip_whitespace(v, 0);
    let mut left = k;
    proof {
        lemma_skip_ws_bounds(v@, 0);
    }
    while pos < v.len() && left > 0
        invariant
            pos <= v.len(),
            left <= k,
            views(r@) + split_max_from(v@, pos as int, left as nat) == split_ws_max(v@, k as nat),
        decreases left,
    {
        let e = find_ws(v, pos);
        proof {
            lemma_next_ws_bounds(v@, pos as int);
        }
        let ghost old_r = r@;
        if e >= v.len() {
            let part = slice_chars(v, pos, v.len());
            r.push(part);
            proof {
                assert(views(r@) == views(old_r).push(v@.subrange(pos as int, v@.len() as int)));
                assert(split_max_from(v@, v@.len() as int, (left - 1) as nat) == Seq::<Seq<char>>::empty());
                assert(views(r@) + split_max_from(v@, v@.len() as int, (left - 1) as nat) == views(old_r)
                    + split_max_from(v@, pos as int, left as nat));
            }
            pos = v.len();
            left = left - 1;
        } else {
            let part = slice_chars(v, pos, e);
            r.push(part);
            let next = skip_whitespace(v, e);
            proof {
                lemma_skip_ws_bounds(v@, e as int);
                assert(views(r@) == views(old_r).push(v@.subrange(pos as int, e as int)));
                assert(views(r@) + split_max_from(v@, next as int, (left - 1) as nat) == views(old_r)
                    + split_max_from(v@, pos as int, left as nat));
            }
            pos = next;
            left = left - 1;
        }
    }
    let ghost old_r = r@;
    if pos < v.len() {
        let part = slice_chars(v, pos, v.len());
        r.push(part);
        proof {
            assert(views(r@) == views(old_r).push(v@.subrange(pos as int, v@.len() as int)));
        }
    } else {
        assert(split_max_from(v@, pos as int, left as nat) == Seq::<Seq<char>>::empty());
        assert(views(r@) + Seq::<Seq<char>>::empty() == views(r@));
    }
    r
}



/// Every character of `t` is whitespace.
pub open spec fn all_ws(t: Seq<char>) -> bool {
    forall|i: int| 0 <= i < t.len() ==> is_ws(#[trigger] t[i])
}

pub proof fn lemma_next_ws_at(s: Seq<char>, pos: int, e: int)
    requires
        0 <= pos <= e <= s.len(),
        forall|i: int| pos <= i < e ==> !is_ws(#[trigger] s[i]),
        e == s.len() || is_ws(s[e]),
    ensures
        next_ws(s, pos) == e,
    decreases e - pos,
{
    if pos < e {
        lemma_next_ws_at(s, pos + 1, e);
    }
}

pub proof fn lemma_skip_ws_at(s: Seq<char>, pos: int, e: int)
    requires
        0 <= pos <= e <= s.len(),
        forall|i: int| pos <= i < e ==> is_ws(#[trigger] s[i]),
        e == s.len() || !is_ws(s[e]),
    ensures
        skip_ws(s, pos) == e,
    decreases e - pos,
{
    if pos < e {
        lemma_skip_ws_at(s, pos + 1, e);
    }
}

pub proof fn lemma_trim_end_at(s: Seq<char>, end: int, e: int)
    requires
        0 < e <= end <= s.len(),
        forall|i: int| e <= i < end ==> is_ws(#[trigger] s[i]),
        !is_ws(s[e - 1]),
    ensures
        trim_end_pos(s, end) == e,
    decreases end - e,
{
    if e < end {
        lemma_trim_end_at(s, end - 1, e);
    }
}

/// A text made of a non-empty value whose ends are not whitespace, with
/// whitespace after it, trims to the value.
pub proof fn lemma_trim_padded(v: Seq<char>, post: Seq<char>)
    requires
        v.len() > 0,
        !is_ws(v[0]),
        !is_ws(v.last()),
        all_ws(post),
    ensures
        trim(v + post) == v,
{
    let s = v + post;
    lemma_skip_ws_at(s, 0, 0);
    assert forall|i: int| v.len() <= i < s.len() implies is_ws(#[trigger] s[i]) by {
        assert(s[i] == post[i - v.len()]);
    }
    assert(s[v.len() - 1] == v.last());
    lemma_trim_end_at(s, s.len() as int, v.len() as int);
    assert(s.subrange(0, v.len() as int) =~= v);
}

/// Splitting at a field that ends at whitespace: the field, then the rest
/// after the whitespace.
pub proof fn lemma_split_step(s: Seq<char>, pos: int, tok: Seq<char>, sep: Seq<char>, k: nat)
    requires
        0 <= pos,
        pos + tok.len() + sep.len() <= s.len(),
        k > 0,
        tok.len() > 0,
        sep.len() > 0,
        no_ws(tok),
        all_ws(sep),
        s.subrange(pos, pos + tok.len()) == tok,
        s.subrange(pos + tok.len(), pos + tok.len() + sep.len()) == sep,
        pos + tok.len() + sep.len() == s.len() || !is_ws(s[pos + tok.len() + sep.len()]),
    ensures
        split_max_from(s, pos, k) == seq![tok] + split_max_from(
            s,
            pos + tok.len() + sep.len(),
            (k - 1) as nat,
        ),
{
    let e = pos + tok.len();
    assert forall|i: int| pos <= i < e implies !is_ws(#[trigger] s[i]) by {
        assert(s[i] == tok[i - pos]);
    }
    assert(s[e] == sep[0]);
    lemma_next_ws_at(s, pos, e);
    assert forall|i: int| e <= i < e + sep.len() implies is_ws(#[trigger] s[i]) by {
        assert(s[i] == sep[i - e]);
    }
    lemma_skip_ws_at(s, e, e + sep.len());
}

// ---------------------------------------------------------------------------
// Decimal numbers
// ---------------------------------------------------------------------------

/// The ASCII digit for `d < 10`.
pub open spec fn digit_char(d: nat) -> char {
    ('0' as nat + d) as char
}

/// The decimal representation of `n`, without leading zeros.
pub open spec fn decimal(n: nat) -> Seq<char>
    decreases n,
{
    if n < 10 {
        seq![digit_char(n)]
    } else {
        decimal(n / 10).push(digit_char(n % 10))
    }
}

/// The decimal representation of an integer, with a leading `-` when it is
/// negative (what `format!("{}", n)` writes).
pub open spec fn decimal_signed(n: int) -> Seq<char> {
    if n < 0 {
        seq!['-'] + decimal((-n) as nat)
    } else {
        decimal(n as nat)
    }
}

fn digit(d: u64) -> (c: char)
    requires
        d < 10,
    ensures
        c == digit_char(d as nat),
{
    let b: u8 = 48u8 + (d as u8);
    b as char
}

fn push_decimal(out: &mut Vec<char>, n: u64)
    ensures
        final(out)@ == old(out)@ + decimal(n as nat),
    decreases n,
{
    if n >= 10 {
        push_decimal(out, n / 10);
    }
    out.push(digit(n % 10));
    proof {
        if n >= 10 {
            assert(decimal(n as nat) == decimal((n / 10) as nat).push(digit_char((n % 10) as nat)));
        } else {
            assert(n % 10 == n);
        }
    }
}

/// The decimal representation of `n` (`n.to_string()`).
pub fn usize_to_decimal(n: usize) -> (r: Vec<char>)
    ensures
        r@ == decimal(n as nat),
{
    let mut r: Vec<char> = Vec::new();
    push_decimal(&mut r, n as u64);
    assert(r@ == Seq::<char>::empty() + decimal(n as nat));
    r
}

/// The decimal representation of `n`, signed (`n.to_string()`).
pub fn i32_to_decimal(n: i32) -> (r: Vec<char>)
    ensures
        r@ == decimal_signed(n as int),
{
    let mut r: Vec<char> = Vec::new();
    if n < 0 {
        r.push('-');
        let m: u64 = (-(n as i64)) as u64;
        push_decimal(&mut r, m);
    } else {
        push_decimal(&mut r, n as u64);
        assert(r@ == Seq::<char>::empty() + decimal(n as nat));
    }
    r
}

/// Whether `c` is an ASCII decimal digit.
pub open spec fn is_digit(c: char) -> bool {
    '0' <= c && c <= '9'
}

/// The value of a string of decimal digits.
pub open spec fn digits_value(s: Seq<char>) -> nat
    decreases s.len(),
{
    if s.len() == 0 {
        0
    } else {
        digits_value(s.drop_last()) * 10 + (s.last() as nat - '0' as nat) as nat
    }
}

proof fn lemma_digits_value_monotone(s: Seq<char>, j: int)
    requires
        0 <= j <= s.len(),
        forall|i: int| 0 <= i < s.len() ==> is_digit(#[trigger] s[i]),
    ensures
        digits_value(s.take(j)) <= digits_value(s),
    decreases s.len() - j,
{
    if j < s.len() {
        lemma_digits_value_monotone(s, j + 1);
        assert(s.take(j + 1).drop_last() == s.take(j));
    } else {
        assert(s.take(j) == s);
    }
}

/// The value of the decimal digits `v` as `str::parse::<usize>` reads it,
/// or 0 where it does not fit in a `usize` (`parse().unwrap_or(0)`).
pub fn parse_usize_or_zero(v: &Vec<char>) -> (r: usize)
    requires
        v.len() > 0,
        forall|i: int| 0 <= i < v.len() ==> is_digit(#[trigger] v@[i]),
    ensures
        r == (if digits_value(v@) <= usize::MAX { digits_value(v@) } else { 0 }),
{
    let mut acc: usize = 0;
    let mut i: usize = 0;
    while i < v.len()
        invariant
            i <= v.len(),
            forall|j: int| 0 <= j < v.len() ==> is_digit(#[trigger] v@[j]),
            acc as nat == digits_value(v@.take(i as int)),
        decreases v.len() - i,
    {
        let d: usize = ((v[i] as u32) - 48) as usize;
        assert(v@.take(i + 1).drop_last() == v@.take(i as int));
        match acc.checked_mul(10) {
            Some(m) => match m.checked_add(d) {
                Some(a) => {
                    acc = a;
                },
                None => {
                    proof {
                        lemma_digits_value_monotone(v@, i + 1);
                    }
                    return 0;
                },
            },
            None => {
                proof {
                    lemma_digits_value_monotone(v@, i + 1);
                }
                return 0;
            },
        }
        i = i + 1;
    }
    assert(v@.take(v@.len() as int) == v@);
    acc
}


/// No character of `t` is whitespace.
pub open spec fn no_ws(t: Seq<char>) -> bool {
    forall|i: int| 0 <= i < t.len() ==> !is_ws(#[trigger] t[i])
}

proof fn lemma_split_max_from_fields(s: Seq<char>, pos: int, k: nat)
    requires
        0 <= pos <= s.len(),
        pos < s.len() ==> !is_ws(s[pos]),
    ensures
        split_max_from(s, pos, k).len() <= k + 1,
        forall|i: int|
            0 <= i < split_max_from(s, pos, k).len() ==> (#[trigger] split_max_from(s, pos, k)[i]).len()
                > 0 && !is_ws(split_max_from(s, pos, k)[i][0]),
        forall|i: int|
            0 <= i < split_max_from(s, pos, k).len() && i < k ==> no_ws(
                #[trigger] split_max_from(s, pos, k)[i],
            ),
    decreases k,
{
    if pos < s.len() && k > 0 {
        lemma_next_ws_bounds(s, pos);
        let e = next_ws(s, pos);
        if e < s.len() {
            lemma_skip_ws_bounds(s, e);
            lemma_split_max_from_fields(s, skip_ws(s, e), (k - 1) as nat);
            let head = s.subrange(pos, e);
            let rest = split_max_from(s, skip_ws(s, e), (k - 1) as nat);
            let r = split_max_from(s, pos, k);
            assert(r == seq![head] + rest);
            assert forall|i: int| 0 <= i < r.len() implies (#[trigger] r[i]).len() > 0 && !is_ws(r[i][0]) by {
                if i > 0 {
                    assert(r[i] == rest[i - 1]);
                }
            }
            assert forall|i: int| 0 <= i < r.len() && i < k implies no_ws(#[trigger] r[i]) by {
                if i > 0 {
                    assert(r[i] == rest[i - 1]);
                } else {
                    assert forall|j: int| 0 <= j < head.len() implies !is_ws(#[trigger] head[j]) by {
                        assert(head[j] == s[pos + j]);
                    }
                }
            }
        } else {
            let r = split_max_from(s, pos, k);
            let head = s.subrange(pos, s.len() as int);
            assert(r == seq![head]);
            assert forall|j: int| 0 <= j < head.len() implies !is_ws(#[trigger] head[j]) by {
                assert(head[j] == s[pos + j]);
            }
        }
    }
}

/// Splitting at most `k` times gives at most `k + 1` fields, none of them
/// empty or starting with whitespace, and the fields before the `k`-th
/// split hold no whitespace at all: only the last field, which keeps the
/// rest of the text, may.
pub proof fn law_split_fields(s: Seq<char>, k: nat)
    ensures
        split_ws_max(s, k).len() <= k + 1,
        forall|i: int|
            0 <= i < split_ws_max(s, k).len() ==> (#[trigger] split_ws_max(s, k)[i]).len() > 0
                && !is_ws(split_ws_max(s, k)[i][0]),
        forall|i: int| 0 <= i < split_ws_max(s, k).len() && i < k ==> no_ws(#[trigger] split_ws_max(s, k)[i]),
{
    lemma_skip_ws_bounds(s, 0);
    lemma_split_max_from_fields(s, skip_ws(s, 0), k);
}

/// The whitespace-separated tokens of `s` from `pos` on: the maximal runs
/// of non-whitespace characters, in order (`str::split_whitespace`).
pub open spec fn tokens_from(s: Seq<char>, pos: int) -> Seq<Seq<char>>
    decreases s.len() - pos,
{
    if pos < 0 || pos >= s.len() {
        Seq::empty()
    } else {
        let a = skip_ws(s, pos);
        if a >= s.len() {
            Seq::empty()
        } else {
            let e = next_ws(s, a);
            proof {
                lemma_skip_ws_bounds(s, pos);
                lemma_next_ws_bounds(s, a);
                lemma_next_ws_past(s, a);
            }
            seq![s.subrange(a, e)] + tokens_from(s, e)
        }
    }
}

/// The whitespace-separated tokens of `s` (`str::split_whitespace`).
pub open spec fn ws_tokens(s: Seq<char>) -> Seq<Seq<char>> {
    tokens_from(s, 0)
}

/// A token that starts at `a` ends after it.
pub proof fn lemma_next_ws_past(s: Seq<char>, a: int)
    requires
        0 <= a < s.len(),
        !is_ws(s[a]),
    ensures
        next_ws(s, a) > a,
{
    lemma_next_ws_bounds(s, a);
}

proof fn lemma_skip_ws_shift(p: Seq<char>, t: Seq<char>, q: int)
    requires
        0 <= q <= t.len(),
    ensures
        skip_ws(p + t, p.len() + q) == p.len() + skip_ws(t, q),
    decreases t.len() - q,
{
    if q < t.len() {
        assert((p + t)[p.len() + q] == t[q]);
        if is_ws(t[q]) {
            lemma_skip_ws_shift(p, t, q + 1);
        }
    }
}

proof fn lemma_next_ws_shift(p: Seq<char>, t: Seq<char>, q: int)
    requires
        0 <= q <= t.len(),
    ensures
        next_ws(p + t, p.len() + q) == p.len() + next_ws(t, q),
    decreases t.len() - q,
{
    if q < t.len() {
        assert((p + t)[p.len() + q] == t[q]);
        if !is_ws(t[q]) {
            lemma_next_ws_shift(p, t, q + 1);
        }
    }
}

/// The tokens of a text from a position inside its tail `t` are those of
/// `t` from there.
proof fn lemma_tokens_shift(p: Seq<char>, t: Seq<char>, q: int)
    requires
        0 <= q <= t.len(),
    ensures
        tokens_from(p + t, p.len() + q) == tokens_from(t, q),
    decreases t.len() - q,
{
    if q < t.len() {
        let s = p + t;
        lemma_skip_ws_shift(p, t, q);
        lemma_skip_ws_bounds(t, q);
        let a = skip_ws(t, q);
        if a < t.len() {
            lemma_next_ws_shift(p, t, a);
            lemma_next_ws_bounds(t, a);
            lemma_next_ws_past(t, a);
            let e = next_ws(t, a);
            assert(s.subrange(p.len() + a, p.len() + e) =~= t.subrange(a, e));
            lemma_tokens_shift(p, t, e);
        }
    }
}

/// Leading whitespace does not change the tokens.
proof fn lemma_tokens_skip(s: Seq<char>, x: int)
    requires
        0 <= x <= s.len(),
    ensures
        tokens_from(s, x) == tokens_from(s, skip_ws(s, x)),
{
    lemma_skip_ws_bounds(s, x);
    let a = skip_ws(s, x);
    if a < s.len() {
        lemma_skip_ws_at(s, a, a);
    }
}

/// A text has no more tokens than characters.
proof fn lemma_tokens_len(s: Seq<char>, x: int)
    requires
        0 <= x <= s.len(),
    ensures
        tokens_from(s, x).len() <= s.len() - x,
    decreases s.len() - x,
{
    if x < s.len() {
        lemma_skip_ws_bounds(s, x);
        let a = skip_ws(s, x);
        if a < s.len() {
            lemma_next_ws_bounds(s, a);
            lemma_next_ws_past(s, a);
            lemma_tokens_len(s, next_ws(s, a));
        }
    }
}

/// Splitting from the token start `pos` at most `k` times against the
/// tokens from `pos`: with no more than `k` tokens the fields are the
/// tokens; with more, the first `k` fields are the first `k` tokens and the
/// last field is the rest of the text from a token start `q`, whose tokens
/// are the remaining ones.
proof fn lemma_split_vs_tokens(s: Seq<char>, pos: int, k: nat) -> (q: int)
    requires
        0 <= pos <= s.len(),
        pos < s.len() ==> !is_ws(s[pos]),
    ensures
        tokens_from(s, pos).len() <= k ==> split_max_from(s, pos, k) == tokens_from(s, pos),
        tokens_from(s, pos).len() > k ==> {
            let r = split_max_from(s, pos, k);
            &&& r.len() == k + 1
            &&& r.take(k as int) == tokens_from(s, pos).take(k as int)
            &&& 0 <= q < s.len()
            &&& r[k as int] == s.subrange(q, s.len() as int)
            &&& tokens_from(s, q) == tokens_from(s, pos).skip(k as int)
        },
    decreases k,
{
    if pos >= s.len() {
        return pos;
    }
    lemma_skip_ws_at(s, pos, pos);
    lemma_next_ws_bounds(s, pos);
    lemma_next_ws_past(s, pos);
    let e = next_ws(s, pos);
    let w = tokens_from(s, pos);
    let head = s.subrange(pos, e);
    assert(w == seq![head] + tokens_from(s, e));
    if k == 0 {
        assert(w.skip(0) == w);
        return pos;
    }
    if e >= s.len() {
        assert(tokens_from(s, e) == Seq::<Seq<char>>::empty());
        assert(split_max_from(s, pos, k) == seq![head]);
        assert(w =~= seq![head]);
        return pos;
    }
    lemma_skip_ws_bounds(s, e);
    let p2 = skip_ws(s, e);
    lemma_tokens_skip(s, e);
    let r2 = split_max_from(s, p2, (k - 1) as nat);
    let w2 = tokens_from(s, p2);
    assert(split_max_from(s, pos, k) == seq![head] + r2);
    assert(w == seq![head] + w2);
    let q = lemma_split_vs_tokens(s, p2, (k - 1) as nat);
    if w2.len() > k - 1 {
        let r = split_max_from(s, pos, k);
        assert(r.take(k as int) =~= seq![head] + r2.take(k - 1));
        assert(w.take(k as int) =~= seq![head] + w2.take(k - 1));
        assert(r[k as int] == r2[k - 1]);
        assert(w.skip(k as int) =~= w2.skip(k - 1));
    }
    q
}

/// Splitting at most `k` times is the whitespace split
/// (`str::split_whitespace`) cut short after `k` splits, as Python's
/// `str.split(None, k)` does: where the text has no more than `k` tokens
/// the fields are its tokens; else the first `k` fields are its first `k`
/// tokens and the last field is the rest of the text from the start of the
/// next token on, trailing whitespace included, which holds the remaining
/// tokens.
pub proof fn law_split_matches_whitespace_split(s: Seq<char>, k: nat)
    ensures
        ws_tokens(s).len() <= k ==> split_ws_max(s, k) == ws_tokens(s),
        ws_tokens(s).len() > k ==> {
            let r = split_ws_max(s, k);
            let last = r[k as int];
            &&& r.len() == k + 1
            &&& r.take(k as int) == ws_tokens(s).take(k as int)
            &&& last.len() > 0 && !is_ws(last[0])
            &&& last == s.subrange(s.len() - last.len(), s.len() as int)
            &&& ws_tokens(last) == ws_tokens(s).skip(k as int)
        },
{
    lemma_skip_ws_bounds(s, 0);
    lemma_tokens_skip(s, 0);
    let q = lemma_split_vs_tokens(s, skip_ws(s, 0), k);
    if ws_tokens(s).len() > k {
        let r = split_ws_max(s, k);
        let last = r[k as int];
        law_split_fields(s, k);
        let pre = s.subrange(0, q);
        let t = s.subrange(q, s.len() as int);
        assert(s =~= pre + t);
        lemma_tokens_shift(pre, t, 0);
        assert(last == t);
    }
}

/// A text split at most as many times as it has characters falls into its
/// tokens.
pub proof fn lemma_split_all(s: Seq<char>)
    ensures
        split_ws_max(s, s.len() as nat) == ws_tokens(s),
{
    lemma_tokens_len(s, 0);
    law_split_matches_whitespace_split(s, s.len() as nat);
}

/// Every character of a decimal representation is a digit, and reading the
/// digits back gives the number.
pub proof fn law_decimal_roundtrip(n: nat)
    ensures
        decimal(n).len() > 0,
        forall|i: int| 0 <= i < decimal(n).len() ==> is_digit(#[trigger] decimal(n)[i]),
        digits_value(decimal(n)) == n,
    decreases n,
{
    if n < 10 {
        assert(digit_char(n) as nat == '0' as nat + n);
        assert(decimal(n).drop_last() =~= Seq::<char>::empty());
        assert(digits_value(decimal(n)) == digits_value(decimal(n).drop_last()) * 10 + (decimal(n).last() as nat - '0' as nat) as nat);
    }
    if n >= 10 {
        law_decimal_roundtrip(n / 10);
        let d = decimal(n);
        assert(d.drop_last() == decimal(n / 10));
        assert(d.last() == digit_char(n % 10));
        assert(digit_char(n % 10) as nat == '0' as nat + n % 10);
        assert(n == (n / 10) * 10 + n % 10);
        assert(digits_value(d) == digits_value(d.drop_last()) * 10 + (d.last() as nat - '0' as nat) as nat);
        assert((d.last() as nat - '0' as nat) as nat == n % 10);
        assert forall|i: int| 0 <= i < d.len() implies is_digit(#[trigger] d[i]) by {
            if i < d.len() - 1 {
                assert(d[i] == decimal(n / 10)[i]);
            }
        }
    }
}

// ---------------------------------------------------------------------------
// Strings and characters
// ---------------------------------------------------------------------------

/// Appends one character to a `String` (`String::push`).
#[verifier::external_body]
fn push_char(s: &mut String, c: char)
    ensures
        final(s)@ == old(s)@.push(c),
{
    s.push(c);
}

/// The characters of a string slice, as a vector.
pub fn chars_of(s: &str) -> (v: Vec<char>)
    ensures
        v@ == s@,
{
    let mut v: Vec<char> = Vec::new();
    for c in it: s.chars()
        invariant
            v@ == it.seq().take(it.index() as int),
    {
        v.push(c);
    }
    v
}

/// A `String` holding the given characters.
pub fn string_of(cs: &[char]) -> (s: String)
    ensures
        s@ == cs@,
{
    let mut s = String::new();
    let mut i: usize = 0;
    while i < cs.len()
        invariant
            i <= cs.len(),
            s@ == cs@.take(i as int),
        decreases cs.len() - i,
    {
        push_char(&mut s, cs[i]);
        i = i + 1;
        assert(cs@.take(i as int) == cs@.take((i - 1) as int).push(cs@[i - 1]));
    }
    assert(cs@.take(cs@.len() as int) == cs@);
    s
}

/// The views of a sequence of strings.
pub open spec fn string_views(v: Seq<String>) -> Seq<Seq<char>> {
    v.map_values(|s: String| s@)
}

/// Appends the characters `cs` to `s`.
pub fn push_chars(s: &mut String, cs: &Vec<char>)
    ensures
        final(s)@ == old(s)@ + cs@,
{
    let mut i: usize = 0;
    let ghost s0 = s@;
    while i < cs.len()
        invariant
            i <= cs.len(),
            s@ == s0 + cs@.take(i as int),
        decreases cs.len() - i,
    {
        push_char(s, cs[i]);
        i = i + 1;
        assert(cs@.take(i as int) == cs@.take((i - 1) as int).push(cs@[i - 1]));
    }
    assert(cs@.take(cs@.len() as int) == cs@);
}

/// Appends `t` to `s`.
pub fn push_str(s: &mut String, t: &str)
    ensures
        final(s)@ == old(s)@ + t@,
{
    s.append(t);
}

/// Whether `v` begins with the characters of `p`.
pub fn starts_with(v: &Vec<char>, p: &Vec<char>) -> (b: bool)
    ensures
        b == (p@.len() <= v@.len() && v@.take(p@.len() as int) == p@),
{
    if p.len() > v.len() {
        return false;
    }
    let mut i: usize = 0;
    while i < p.len()
        invariant
            i <= p.len(),
            p.len() <= v.len(),
            forall|j: int| 0 <= j < i ==> v@[j] == p@[j],
        decreases p.len() - i,
    {
        if v[i] != p[i] {
            assert(v@.take(p@.len() as int)[i as int] != p@[i as int]);
            return false;
        }
        i = i + 1;
    }
    assert(v@.take(p@.len() as int) == p@);
    true
}

} // verus!
