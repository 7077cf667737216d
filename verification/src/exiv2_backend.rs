//! The exiv2 back end: the tags that `exiv2 -pe` / `exiv2 -pt` print, the
//! modify commands that `exiv2 -m` runs, and what their outcomes mean.

use vstd::prelude::*;
use indexmap::IndexMap;
use crate::text::{
    chars_of, decimal_signed, digits_value, i32_to_decimal, is_digit, lines, parse_usize_or_zero,
    push_chars, push_str, split_chars_max, split_lines, split_ws_max, string_of, string_views,
    trim, trim_chars, views, next_ws, find_ws, slice_chars, starts_with, lemma_next_ws_bounds,
    decimal, usize_to_decimal, law_decimal_roundtrip, no_ws, single_line, lemma_lines_cons, all_ws, is_ws,
    lemma_split_step, lemma_trim_padded, lemma_skip_ws_at, skip_ws, split_max_from, strip_cr,
    lines_from, next_char, lemma_next_char_bounds, lemma_next_char_prefix, lemma_next_ws_drop_last,
    lemma_lines_from_shift,
};
use crate::tag_map::{
    entry_keys, entries_get, entries_insert, key_index, lemma_key_index_bounds, tag_entries, tag_map_get,
    tag_map_get_index, tag_map_insert, tag_map_len, tag_map_new,
};

verus! {

/// The error of a processor whose `exiv2` binary was not found on `PATH`.
#[derive(Debug, Clone)]
pub struct Exiv2NotFoundError;

/// A tag "count", which exiv2 prints as an integer or, rarely, as text.
#[derive(Clone, Debug, PartialEq)]
pub enum ExifCount {
    Int(usize),
    Str(String),
}

/// The model of an [`ExifCount`].
pub enum ExifCountView {
    Int(usize),
    Str(Seq<char>),
}

impl View for ExifCount {
    type V = ExifCountView;

    open spec fn view(&self) -> ExifCountView {
        match self {
            ExifCount::Int(n) => ExifCountView::Int(*n),
            ExifCount::Str(s) => ExifCountView::Str(s@),
        }
    }
}

/// A single EXIF tag as the extraction returns it.
#[derive(Clone, Debug)]
pub struct ExifTag {
    pub tag_type: String,
    pub count: ExifCount,
    pub value: String,
    pub translated: String,
}

/// The model of an [`ExifTag`].
pub struct ExifTagView {
    pub tag_type: Seq<char>,
    pub count: ExifCountView,
    pub value: Seq<char>,
    pub translated: Seq<char>,
}

impl View for ExifTag {
    type V = ExifTagView;

    open spec fn view(&self) -> ExifTagView {
        ExifTagView {
            tag_type: self.tag_type@,
            count: self.count@,
            value: self.value@,
            translated: self.translated@,
        }
    }
}


// ---------------------------------------------------------------------------
// Splitting a printed line
// ---------------------------------------------------------------------------

/// `s` split at runs of whitespace at most `max_splits` times, leading
/// whitespace ignored and the rest of the line kept in the last field, so
/// at most `max_splits + 1` fields.
pub fn split_whitespace_max(s: &str, max_splits: usize) -> (r: Vec<String>)
    ensures
        string_views(r@) == split_ws_max(s@, max_splits as nat),
{
    let v = chars_of(s);
    let parts = split_chars_max(&v, max_splits);
    let mut r: Vec<String> = Vec::new();
    let mut i: usize = 0;
    while i < parts.len()
        invariant
            i <= parts.len(),
            string_views(r@) == views(parts@).take(i as int),
        decreases parts.len() - i,
    {
        r.push(string_of(parts[i].as_slice()));
        i = i + 1;
        assert(views(parts@).take(i as int) == views(parts@).take((i - 1) as int).push(parts@[i - 1]@));
    }
    assert(views(parts@).take(parts@.len() as int) == views(parts@));
    r
}

// ---------------------------------------------------------------------------
// Parsing `exiv2 -pe` / `exiv2 -pt` output
// ---------------------------------------------------------------------------

/// The count that a count column reads as: a decimal number where it is
/// all digits (0 where it does not fit in a `usize`), else the text itself.
pub open spec fn count_of(t: Seq<char>) -> ExifCountView {
    if t.len() > 0 && (forall|i: int| 0 <= i < t.len() ==> is_digit(#[trigger] t[i])) {
        ExifCountView::Int(
            if digits_value(t) <= usize::MAX {
                digits_value(t) as usize
            } else {
                0
            },
        )
    } else {
        ExifCountView::Str(t)
    }
}

/// The key and tag that one printed line describes, if it has the four
/// columns key, type, count and value. Until the raw and translated
/// printouts are merged, the translated field repeats the value.
pub open spec fn parsed_line(line: Seq<char>) -> Option<(Seq<char>, ExifTagView)> {
    if trim(line).len() == 0 {
        None
    } else {
        let parts = split_ws_max(line, 3);
        if parts.len() < 4 {
            None
        } else {
            let value = trim(parts[3]);
            Some(
                (
                    parts[0],
                    ExifTagView {
                        tag_type: parts[1],
                        count: count_of(parts[2]),
                        value: value,
                        translated: value,
                    },
                ),
            )
        }
    }
}

/// The entries that the lines `ls` give, each inserted in turn, so that a
/// repeated key keeps its first place and its last tag.
pub open spec fn parse_lines(ls: Seq<Seq<char>>) -> Seq<(Seq<char>, ExifTagView)>
    decreases ls.len(),
{
    if ls.len() == 0 {
        Seq::empty()
    } else {
        let e = parse_lines(ls.drop_last());
        match parsed_line(ls.last()) {
            Some(kt) => entries_insert(e, kt.0, kt.1),
            None => e,
        }
    }
}

/// The entries of a printout of exiv2.
pub open spec fn parsed_output(stdout: Seq<char>) -> Seq<(Seq<char>, ExifTagView)> {
    parse_lines(lines(stdout))
}

/// The count read from a count column.
fn read_count(t: &Vec<char>) -> (c: ExifCount)
    ensures
        c@ == count_of(t@),
{
    let mut all = t.len() > 0;
    let mut i: usize = 0;
    while i < t.len()
        invariant
            i <= t.len(),
            all == (t.len() > 0 && forall|j: int| 0 <= j < i ==> is_digit(#[trigger] t@[j])),
        decreases t.len() - i,
    {
        if !('0' <= t[i] && t[i] <= '9') {
            all = false;
        }
        i = i + 1;
    }
    if all {
        ExifCount::Int(parse_usize_or_zero(t))
    } else {
        ExifCount::Str(string_of(t.as_slice()))
    }
}

/// The key and tag of one printed line.
fn parse_line(line: &Vec<char>) -> (r: Option<(String, ExifTag)>)
    ensures
        match r {
            Some(kt) => parsed_line(line@) == Some((kt.0@, kt.1@)),
            None => parsed_line(line@) is None,
        },
{
    let t = trim_chars(line);
    if t.len() == 0 {
        return None;
    }
    let parts = split_chars_max(line, 3);
    if parts.len() < 4 {
        return None;
    }
    assert(parts@[0]@ == views(parts@)[0]);
    assert(parts@[1]@ == views(parts@)[1]);
    assert(parts@[2]@ == views(parts@)[2]);
    assert(parts@[3]@ == views(parts@)[3]);
    let key = string_of(parts[0].as_slice());
    let tag_type = string_of(parts[1].as_slice());
    let count = read_count(&parts[2]);
    let value_chars = trim_chars(&parts[3]);
    let value = string_of(value_chars.as_slice());
    let translated = string_of(value_chars.as_slice());
    Some((key, ExifTag { tag_type, count, value, translated }))
}

// ---------------------------------------------------------------------------
// Runs of exiv2
// ---------------------------------------------------------------------------

/// What a finished run of exiv2 reported: its exit code (-1 when it was
/// ended by a signal) and its output, decoded as UTF-8.
pub struct CompletedProcess {
    pub returncode: i32,
    pub stdout: String,
    pub stderr: String,
}

/// Why a run counts as failed: the error of starting it, or, when `check`
/// is set, a non-zero exit code together with the trimmed error output.
pub open spec fn run_failure(run: Result<CompletedProcess, String>, check: bool) -> Option<
    Seq<char>,
> {
    match run {
        Err(e) => Some(e@),
        Ok(p) => if check && p.returncode != 0 {
            Some(
                "exiv2 exited with code "@ + decimal_signed(p.returncode as int) + ": "@ + trim(
                    p.stderr@,
                ),
            )
        } else {
            None
        },
    }
}

/// The standard output of a run that started, else nothing.
pub open spec fn run_stdout(run: Result<CompletedProcess, String>) -> Seq<char> {
    match run {
        Ok(p) => p.stdout@,
        Err(_) => Seq::empty(),
    }
}

// ---------------------------------------------------------------------------
// Merging the raw and the translated printouts
// ---------------------------------------------------------------------------

/// A raw tag, with its translated field taken from the translated printout
/// where that holds the same key, else its raw value.
pub open spec fn merged_tag(
    key: Seq<char>,
    raw: ExifTagView,
    translated: Seq<(Seq<char>, ExifTagView)>,
) -> ExifTagView {
    ExifTagView {
        tag_type: raw.tag_type,
        count: raw.count,
        value: raw.value,
        translated: match entries_get(translated, key) {
            Some(t) => t.value,
            None => raw.value,
        },
    }
}

/// The raw entries, in their order, with their translations merged in.
pub open spec fn merged_entries(
    raw: Seq<(Seq<char>, ExifTagView)>,
    translated: Seq<(Seq<char>, ExifTagView)>,
) -> Seq<(Seq<char>, ExifTagView)> {
    raw.map_values(
        |p: (Seq<char>, ExifTagView)| (p.0, merged_tag(p.0, p.1, translated)),
    )
}

/// No key occurs twice among the entries.
pub open spec fn keys_distinct(e: Seq<(Seq<char>, ExifTagView)>) -> bool {
    forall|i: int, j: int| 0 <= i < j < e.len() ==> #[trigger] e[i].0 != #[trigger] e[j].0
}

pub proof fn lemma_insert_keeps_keys_distinct(
    e: Seq<(Seq<char>, ExifTagView)>,
    k: Seq<char>,
    v: ExifTagView,
)
    requires
        keys_distinct(e),
    ensures
        keys_distinct(entries_insert(e, k, v)),
{
    lemma_key_index_bounds(e, k);
    let r = entries_insert(e, k, v);
    match key_index(e, k) {
        Some(i) => {
            assert forall|a: int, b: int| 0 <= a < b < r.len() implies #[trigger] r[a].0
                != #[trigger] r[b].0 by {
                assert(r[a].0 == e[a].0 && r[b].0 == e[b].0);
            }
        },
        None => {
            assert forall|a: int, b: int| 0 <= a < b < r.len() implies #[trigger] r[a].0
                != #[trigger] r[b].0 by {
                if b == e.len() {
                    assert(r[a].0 == e[a].0);
                } else {
                    assert(r[a].0 == e[a].0 && r[b].0 == e[b].0);
                }
            }
        },
    }
}

pub proof fn lemma_parse_lines_keys_distinct(ls: Seq<Seq<char>>)
    ensures
        keys_distinct(parse_lines(ls)),
    decreases ls.len(),
{
    if ls.len() > 0 {
        lemma_parse_lines_keys_distinct(ls.drop_last());
        match parsed_line(ls.last()) {
            Some(kt) => lemma_insert_keeps_keys_distinct(parse_lines(ls.drop_last()), kt.0, kt.1),
            None => {},
        }
    }
}

/// A copy of a tag with another translated field.
fn with_translation(t: &ExifTag, translated: String) -> (r: ExifTag)
    ensures
        r@ == (ExifTagView { translated: translated@, ..t@ }),
{
    let count = match &t.count {
        ExifCount::Int(n) => ExifCount::Int(*n),
        ExifCount::Str(s) => ExifCount::Str(s.clone()),
    };
    ExifTag { tag_type: t.tag_type.clone(), count, value: t.value.clone(), translated }
}

/// The raw tags in their order, each with the value that the translated
/// printout holds for its key as translation.
fn merge_translations(raw: &IndexMap<String, ExifTag>, translated: &IndexMap<String, ExifTag>) -> (m:
    IndexMap<String, ExifTag>)
    requires
        keys_distinct(tag_entries(*raw)),
    ensures
        tag_entries(m) == merged_entries(tag_entries(*raw), tag_entries(*translated)),
{
    let ghost re = tag_entries(*raw);
    let ghost te = tag_entries(*translated);
    let n = tag_map_len(raw);
    let mut m = tag_map_new();
    let mut i: usize = 0;
    while i < n
        invariant
            i <= n,
            n == re.len(),
            re == tag_entries(*raw),
            te == tag_entries(*translated),
            keys_distinct(re),
            tag_entries(m) == merged_entries(re, te).take(i as int),
        decreases n - i,
    {
        match tag_map_get_index(raw, i) {
            Some(kt) => {
                let (k, info) = kt;
                let tr = match tag_map_get(translated, k.as_str()) {
                    Some(t) => t.value.clone(),
                    None => info.value.clone(),
                };
                let tag = with_translation(info, tr);
                proof {
                    let out = tag_entries(m);
                    lemma_key_index_bounds(out, k@);
                    assert forall|j: int| 0 <= j < out.len() implies #[trigger] out[j].0 != k@ by {
                        assert(out[j].0 == re[j].0);
                    }
                }
                tag_map_insert(&mut m, k.clone(), tag);
                proof {
                    assert(merged_entries(re, te).take(i + 1) == merged_entries(re, te).take(
                        i as int,
                    ).push(merged_entries(re, te)[i as int]));
                }
            },
            None => {},
        }
        i = i + 1;
    }
    assert(merged_entries(re, te).take(n as int) == merged_entries(re, te));
    m
}


// ---------------------------------------------------------------------------
// Keys that exiv2 warned about
// ---------------------------------------------------------------------------

/// The last index of `c` in `s`, or -1.
pub open spec fn last_index_of(s: Seq<char>, c: char) -> int
    decreases s.len(),
{
    if s.len() == 0 {
        -1
    } else if s.last() == c {
        s.len() - 1
    } else {
        last_index_of(s.drop_last(), c)
    }
}

/// The key that a line `Warning: <key>: <reason>` names: the first token
/// after the prefix, up to its last colon, where that colon is not its
/// first character. Structural warnings such as
/// `Warning: Directory GPSInfo has an unexpected ...` name none.
pub open spec fn warned_key(line: Seq<char>) -> Option<Seq<char>> {
    let p = "Warning: "@;
    if p.len() <= line.len() && line.take(p.len() as int) == p {
        let rest = line.skip(p.len() as int);
        let token = rest.take(next_ws(rest, 0));
        let c = last_index_of(token, ':');
        if c > 0 {
            Some(token.take(c))
        } else {
            None
        }
    } else {
        None
    }
}

/// The keys that the lines `ls` warn about.
pub open spec fn warned_in(ls: Seq<Seq<char>>) -> Set<Seq<char>> {
    Set::new(|k: Seq<char>| exists|i: int| 0 <= i < ls.len() && warned_key(ls[i]) == Some(k))
}

/// The keys that an error output of exiv2 warns about.
pub open spec fn warned_keys(stderr: Seq<char>) -> Set<Seq<char>> {
    warned_in(lines(stderr))
}

/// No string occurs twice.
pub open spec fn no_duplicates(v: Seq<Seq<char>>) -> bool {
    forall|i: int, j: int| 0 <= i < j < v.len() ==> #[trigger] v[i] != #[trigger] v[j]
}

pub proof fn lemma_last_index_bounds(s: Seq<char>, c: char)
    ensures
        -1 <= last_index_of(s, c) < s.len(),
        last_index_of(s, c) >= 0 ==> s[last_index_of(s, c)] == c,
    decreases s.len(),
{
    if s.len() > 0 && s.last() != c {
        lemma_last_index_bounds(s.drop_last(), c);
    }
}

fn last_index(v: &Vec<char>, c: char) -> (r: Option<usize>)
    ensures
        match r {
            Some(i) => i as int == last_index_of(v@, c) && i < v.len(),
            None => last_index_of(v@, c) == -1,
        },
{
    let mut i = v.len();
    assert(v@.take(i as int) == v@);
    while i > 0
        invariant
            i <= v.len(),
            last_index_of(v@, c) == last_index_of(v@.take(i as int), c),
        decreases i,
    {
        assert(v@.take(i as int).drop_last() == v@.take(i - 1));
        if v[i - 1] == c {
            return Some(i - 1);
        }
        i = i - 1;
    }
    None
}

/// The key that one line of error output warns about.
fn warned_key_of(line: &Vec<char>) -> (r: Option<Vec<char>>)
    ensures
        match r {
            Some(k) => warned_key(line@) == Some(k@),
            None => warned_key(line@) is None,
        },
{
    let prefix = chars_of("Warning: ");
    if !starts_with(line, &prefix) {
        return None;
    }
    let rest = slice_chars(line, prefix.len(), line.len());
    assert(rest@ == line@.skip(prefix@.len() as int));
    let e = find_ws(&rest, 0);
    proof {
        lemma_next_ws_bounds(rest@, 0);
    }
    let token = slice_chars(&rest, 0, e);
    assert(token@ == rest@.take(e as int));
    match last_index(&token, ':') {
        Some(c) => {
            if c > 0 {
                let key = slice_chars(&token, 0, c);
                assert(key@ == token@.take(c as int));
                Some(key)
            } else {
                None
            }
        },
        None => None,
    }
}

/// Whether `v` holds a string equal to `s`.
pub fn contains_string(v: &Vec<String>, s: &String) -> (b: bool)
    ensures
        b == string_views(v@).contains(s@),
{
    let mut i: usize = 0;
    while i < v.len()
        invariant
            i <= v.len(),
            forall|j: int| 0 <= j < i ==> v@[j]@ != s@,
        decreases v.len() - i,
    {
        if v[i] == *s {
            assert(string_views(v@)[i as int] == s@);
            return true;
        }
        i = i + 1;
    }
    assert forall|j: int| 0 <= j < string_views(v@).len() implies string_views(v@)[j] != s@ by {
        assert(string_views(v@)[j] == v@[j]@);
    }
    false
}

/// The keys that the `Warning: <key>: <reason>` lines of an error output of
/// exiv2 name, each once.
pub fn extract_warned_keys(stderr: &str) -> (keys: Vec<String>)
    ensures
        string_views(keys@).to_set() == warned_keys(stderr@),
        no_duplicates(string_views(keys@)),
{
    let v = chars_of(stderr);
    let ls = split_lines(&v);
    let mut keys: Vec<String> = Vec::new();
    let mut i: usize = 0;
    while i < ls.len()
        invariant
            i <= ls.len(),
            string_views(keys@).to_set() == warned_in(views(ls@).take(i as int)),
            no_duplicates(string_views(keys@)),
        decreases ls.len() - i,
    {
        let ghost pre = views(ls@).take(i as int);
        let ghost cur = views(ls@).take(i + 1);
        assert(cur == pre.push(ls@[i as int]@));
        let ghost old_keys = string_views(keys@);
        match warned_key_of(&ls[i]) {
            Some(k) => {
                let key = string_of(k.as_slice());
                if !contains_string(&keys, &key) {
                    keys.push(key);
                    assert(string_views(keys@) == old_keys.push(k@));
                }
                assert(string_views(keys@).to_set() =~= warned_in(cur)) by {
                    assert forall|x: Seq<char>| warned_in(cur).contains(x) implies string_views(
                        keys@,
                    ).to_set().contains(x) by {
                        let j = choose|j: int| 0 <= j < cur.len() && warned_key(cur[j]) == Some(x);
                        if j < i {
                            assert(pre[j] == cur[j]);
                            assert(warned_in(pre).contains(x));
                            assert(old_keys.to_set().contains(x));
                            let q = choose|q: int| 0 <= q < old_keys.len() && old_keys[q] == x;
                            assert(string_views(keys@)[q] == x);
                        } else {
                            if string_views(keys@).len() > old_keys.len() {
                                assert(string_views(keys@)[old_keys.len() as int] == x);
                            } else {
                                let q = choose|q: int| 0 <= q < old_keys.len() && old_keys[q] == x;
                                assert(string_views(keys@)[q] == x);
                            }
                        }
                    }
                    assert forall|x: Seq<char>| string_views(keys@).to_set().contains(x) implies warned_in(
                        cur,
                    ).contains(x) by {
                        let q = choose|q: int| 0 <= q < string_views(keys@).len() && string_views(keys@)[q] == x;
                        if q < old_keys.len() {
                            assert(old_keys[q] == x);
                            assert(old_keys.to_set().contains(x));
                            let j = choose|j: int| 0 <= j < pre.len() && warned_key(pre[j]) == Some(x);
                            assert(cur[j] == pre[j]);
                        } else {
                            assert(cur[i as int] == ls@[i as int]@);
                        }
                    }
                }
            },
            None => {
                assert(string_views(keys@).to_set() =~= warned_in(cur)) by {
                    assert forall|x: Seq<char>| warned_in(cur).contains(x) implies warned_in(pre).contains(x) by {
                        let j = choose|j: int| 0 <= j < cur.len() && warned_key(cur[j]) == Some(x);
                        assert(j < i);
                        assert(pre[j] == cur[j]);
                    }
                    assert forall|x: Seq<char>| warned_in(pre).contains(x) implies warned_in(cur).contains(x) by {
                        let j = choose|j: int| 0 <= j < pre.len() && warned_key(pre[j]) == Some(x);
                        assert(pre[j] == cur[j]);
                    }
                }
            },
        }
        i = i + 1;
    }
    assert(views(ls@).take(ls@.len() as int) == views(ls@));
    keys
}


// ---------------------------------------------------------------------------
// Values to write and the results of the operations
// ---------------------------------------------------------------------------

/// A value to write with an edit.
#[derive(Clone, Debug)]
pub enum ExifValue {
    /// A plain value: "NIKON"
    Plain(String),
    /// A (type, value) pair for explicit typing, needed when the tag does
    /// not exist yet: ("Rational", "43/1 28/1 2814/1000")
    Typed(String, String),
}

/// The model of an [`ExifValue`].
pub enum ExifValueView {
    Plain(Seq<char>),
    Typed(Seq<char>, Seq<char>),
}

impl View for ExifValue {
    type V = ExifValueView;

    open spec fn view(&self) -> ExifValueView {
        match self {
            ExifValue::Plain(v) => ExifValueView::Plain(v@),
            ExifValue::Typed(t, v) => ExifValueView::Typed(t@, v@),
        }
    }
}

/// The outcome of an edit: "success" or "partial", the keys that were
/// written and those that exiv2 skipped, and a summary.
#[derive(Clone, Debug)]
pub struct EditResult {
    pub status: String,
    pub applied: Vec<String>,
    pub failed: Vec<String>,
    pub message: String,
}

/// The model of an [`EditResult`].
pub struct EditResultView {
    pub status: Seq<char>,
    pub applied: Seq<Seq<char>>,
    pub failed: Seq<Seq<char>>,
    pub message: Seq<char>,
}

impl View for EditResult {
    type V = EditResultView;

    open spec fn view(&self) -> EditResultView {
        EditResultView {
            status: self.status@,
            applied: string_views(self.applied@),
            failed: string_views(self.failed@),
            message: self.message@,
        }
    }
}

/// The outcome of a deletion.
#[derive(Clone, Debug)]
pub struct DeleteResult {
    pub status: String,
    pub message: String,
}

// ---------------------------------------------------------------------------
// Edit commands
// ---------------------------------------------------------------------------

/// The key and value views of the edits.
pub open spec fn edit_views(d: Seq<(String, ExifValue)>) -> Seq<(Seq<char>, ExifValueView)> {
    d.map_values(|p: (String, ExifValue)| (p.0@, p.1@))
}

/// The keys of the edits, in order.
pub open spec fn edit_keys(d: Seq<(Seq<char>, ExifValueView)>) -> Seq<Seq<char>> {
    d.map_values(|p: (Seq<char>, ExifValueView)| p.0)
}

/// No key occurs twice among the edits: they form a map from exiv2 key to
/// value.
pub open spec fn edit_keys_distinct(d: Seq<(String, ExifValue)>) -> bool {
    no_duplicates(edit_keys(edit_views(d)))
}

/// The exiv2 modify command that sets `key` to `v`.
pub open spec fn command_line(key: Seq<char>, v: ExifValueView) -> Seq<char> {
    match v {
        ExifValueView::Typed(t, x) => "set "@ + key + " "@ + t + " "@ + x,
        ExifValueView::Plain(x) => "set "@ + key + " "@ + x,
    }
}

/// The lines joined with `'\n'` between them.
pub open spec fn join_lines(ls: Seq<Seq<char>>) -> Seq<char>
    decreases ls.len(),
{
    if ls.len() == 0 {
        Seq::empty()
    } else if ls.len() == 1 {
        ls[0]
    } else {
        join_lines(ls.drop_last()) + "\n"@ + ls.last()
    }
}

/// The content of the command file for the edits: one command per edit,
/// in order, each on its own line.
pub open spec fn command_file_text(d: Seq<(Seq<char>, ExifValueView)>) -> Seq<char> {
    join_lines(d.map_values(|p: (Seq<char>, ExifValueView)| command_line(p.0, p.1))) + "\n"@
}

/// The keys among `keys` that are in `warned` (`want`) or not (`!want`),
/// in order.
pub open spec fn select_keys(keys: Seq<Seq<char>>, warned: Set<Seq<char>>, want: bool) -> Seq<
    Seq<char>,
>
    decreases keys.len(),
{
    if keys.len() == 0 {
        Seq::empty()
    } else {
        let r = select_keys(keys.drop_last(), warned, want);
        if warned.contains(keys.last()) == want {
            r.push(keys.last())
        } else {
            r
        }
    }
}

/// What a finished modify run means for the edited keys: the keys that
/// exiv2 warned about failed, the others were applied. A run that exited
/// non-zero failed as a whole where exiv2 warned about every key. It also
/// failed as a whole where it warned about none of the keys but printed an
/// error all the same: then exiv2 stopped before it read the commands (it
/// could not open the image, say) and applied nothing. A non-zero exit with
/// an empty error output and no key warned about applied every key.
pub open spec fn classify_edit(keys: Seq<Seq<char>>, returncode: i32, stderr: Seq<char>) -> Result<
    EditResultView,
    Seq<char>,
> {
    let warned = warned_keys(stderr);
    let failed = select_keys(keys, warned, true);
    let applied = select_keys(keys, warned, false);
    if returncode != 0 && (applied.len() == 0 || (failed.len() == 0 && trim(stderr).len() > 0)) {
        Err(
            if trim(stderr).len() == 0 {
                "exit code "@ + decimal_signed(returncode as int)
            } else {
                trim(stderr)
            },
        )
    } else {
        Ok(
            EditResultView {
                status: if failed.len() == 0 {
                    "success"@
                } else {
                    "partial"@
                },
                applied: applied,
                failed: failed,
                message: if failed.len() == 0 {
                    "Updated "@ + decimal(applied.len()) + " tag(s)"@
                } else {
                    "Updated "@ + decimal(applied.len()) + " tag(s), "@ + decimal(failed.len())
                        + " failed"@
                },
            },
        )
    }
}

/// The error of a step that the caller performed, if it failed.
pub open spec fn step_failure(step: Result<(), String>) -> Option<Seq<char>> {
    match step {
        Ok(_) => None,
        Err(e) => Some(e@),
    }
}

/// What an edit returns, given the outcomes of its steps: the backup copy
/// (made only when `preserve_original` is set), the writing of the command
/// file, and the modify run; the first step that failed decides the error.
pub open spec fn edit_outcome(
    d: Seq<(Seq<char>, ExifValueView)>,
    preserve_original: bool,
    backup: Result<(), String>,
    command_file: Result<(), String>,
    run: Result<CompletedProcess, String>,
) -> Result<EditResultView, Seq<char>> {
    let prefix = "Failed to edit EXIF data: "@;
    if preserve_original && step_failure(backup) is Some {
        Err(prefix + step_failure(backup)->0)
    } else if step_failure(command_file) is Some {
        Err(prefix + step_failure(command_file)->0)
    } else {
        match run {
            Err(e) => Err(prefix + e@),
            Ok(p) => match classify_edit(edit_keys(d), p.returncode, p.stderr@) {
                Ok(v) => Ok(v),
                Err(e) => Err(prefix + e),
            },
        }
    }
}

/// What a deletion returns, given the outcomes of the backup copy (made only
/// when `preserve_original` is set) and of the `rm` run.
pub open spec fn delete_outcome(
    preserve_original: bool,
    backup: Result<(), String>,
    run: Result<CompletedProcess, String>,
) -> Result<Seq<char>, Seq<char>> {
    let prefix = "Failed to delete EXIF data: "@;
    if preserve_original && step_failure(backup) is Some {
        Err(prefix + step_failure(backup)->0)
    } else {
        match run_failure(run, true) {
            Some(e) => Err(prefix + e),
            None => Ok("EXIF data deleted successfully"@),
        }
    }
}

/// What an extraction returns, given the raw (`-pe`) and translated (`-pt`)
/// printing runs: the first failed run decides the error; else the raw
/// tags in their order, each with its translation.
pub open spec fn extract_outcome(
    raw: Result<CompletedProcess, String>,
    translated: Result<CompletedProcess, String>,
) -> Result<Seq<(Seq<char>, ExifTagView)>, Seq<char>> {
    let prefix = "Failed to extract EXIF data: "@;
    match run_failure(raw, true) {
        Some(e) => Err(prefix + e),
        None => match run_failure(translated, true) {
            Some(e) => Err(prefix + e),
            None => Ok(
                merged_entries(parsed_output(run_stdout(raw)), parsed_output(run_stdout(translated))),
            ),
        },
    }
}

fn command_line_of(key: &String, v: &ExifValue) -> (r: String)
    ensures
        r@ == command_line(key@, v@),
{
    let mut r = String::new();
    push_str(&mut r, "set ");
    push_str(&mut r, key.as_str());
    match v {
        ExifValue::Typed(t, x) => {
            push_str(&mut r, " ");
            push_str(&mut r, t.as_str());
            push_str(&mut r, " ");
            push_str(&mut r, x.as_str());
        },
        ExifValue::Plain(x) => {
            push_str(&mut r, " ");
            push_str(&mut r, x.as_str());
        },
    }
    r
}

/// The keys among `keys` that are in `warned` (`want`) or not (`!want`).
fn select(keys: &Vec<String>, warned: &Vec<String>, want: bool) -> (r: Vec<String>)
    ensures
        string_views(r@) == select_keys(string_views(keys@), string_views(warned@).to_set(), want),
{
    let mut r: Vec<String> = Vec::new();
    let mut i: usize = 0;
    while i < keys.len()
        invariant
            i <= keys.len(),
            string_views(r@) == select_keys(
                string_views(keys@).take(i as int),
                string_views(warned@).to_set(),
                want,
            ),
        decreases keys.len() - i,
    {
        let ghost ks = string_views(keys@);
        assert(ks.take(i + 1).drop_last() == ks.take(i as int));
        assert(ks.take(i + 1).last() == keys@[i as int]@);
        let found = contains_string(warned, &keys[i]);
        assert(found == string_views(warned@).to_set().contains(keys@[i as int]@));
        if found == want {
            let ghost old_r = string_views(r@);
            r.push(keys[i].clone());
            assert(string_views(r@) == old_r.push(keys@[i as int]@));
        }
        i = i + 1;
    }
    assert(string_views(keys@).take(keys@.len() as int) == string_views(keys@));
    r
}

/// The summary of an edit.
fn edit_message(applied: usize, failed: usize) -> (m: String)
    ensures
        m@ == (if failed == 0 {
            "Updated "@ + decimal(applied as nat) + " tag(s)"@
        } else {
            "Updated "@ + decimal(applied as nat) + " tag(s), "@ + decimal(failed as nat)
                + " failed"@
        }),
{
    let mut m = String::new();
    push_str(&mut m, "Updated ");
    push_chars(&mut m, &usize_to_decimal(applied));
    if failed == 0 {
        push_str(&mut m, " tag(s)");
    } else {
        push_str(&mut m, " tag(s), ");
        push_chars(&mut m, &usize_to_decimal(failed));
        push_str(&mut m, " failed");
    }
    m
}

// ---------------------------------------------------------------------------
// EXIFProcessor
// ---------------------------------------------------------------------------

/// Reads, edits and deletes the EXIF data of one image through exiv2.
///
/// The processor decides what is run and what the runs mean; the caller
/// runs exiv2 and copies files, and hands the outcomes in.
pub struct EXIFProcessor {
    pub image_path: String,
    exiv2_bin: String,
}

impl Exiv2NotFoundError {
    /// The text of the error.
    pub fn message(&self) -> (m: String)
        ensures
            m@ == "exiv2 binary not found on PATH. Install it (e.g. `apt install exiv2` or `brew install exiv2`) and ensure it's on PATH."@,
    {
        "exiv2 binary not found on PATH. Install it (e.g. `apt install exiv2` or `brew install exiv2`) and ensure it's on PATH.".to_owned()
    }
}

impl ExifCount {
    /// The count as exiv2 prints it.
    pub fn to_display(&self) -> (s: String)
        ensures
            s@ == match self@ {
                ExifCountView::Int(n) => decimal(n as nat),
                ExifCountView::Str(t) => t,
            },
    {
        match self {
            ExifCount::Int(n) => string_of(usize_to_decimal(*n).as_slice()),
            ExifCount::Str(t) => t.clone(),
        }
    }
}

impl EXIFProcessor {
    /// Parses exiv2 `-pe` / `-pt` style output into a map keyed by the
    /// fully-qualified exiv2 keys. Each line looks like
    /// `Exif.GPSInfo.GPSLatitude    Rational    3    43/1 28/1 2814/1000`:
    /// keys and types never hold whitespace, so three splits leave the value,
    /// spaces included, in the fourth field.
    pub fn parse_print_output(stdout: &str) -> (m: IndexMap<String, ExifTag>)
        ensures
            tag_entries(m) == parsed_output(stdout@),
    {
        let v = chars_of(stdout);
        let ls = split_lines(&v);
        let mut m = tag_map_new();
        let mut i: usize = 0;
        while i < ls.len()
            invariant
                i <= ls.len(),
                tag_entries(m) == parse_lines(views(ls@).take(i as int)),
            decreases ls.len() - i,
        {
            let ghost pre = views(ls@).take(i as int);
            assert(views(ls@).take(i + 1).drop_last() == pre);
            assert(views(ls@).take(i + 1).last() == ls@[i as int]@);
            match parse_line(&ls[i]) {
                Some(kt) => {
                    let (k, t) = kt;
                    tag_map_insert(&mut m, k, t);
                },
                None => {},
            }
            i = i + 1;
        }
        assert(views(ls@).take(ls@.len() as int) == views(ls@));
        m
    }

    /// The path of the exiv2 binary that the processor runs.
    pub closed spec fn binary(&self) -> Seq<char> {
        self.exiv2_bin@
    }

    /// The path of the image that the processor works on.
    pub closed spec fn image(&self) -> Seq<char> {
        self.image_path@
    }

    /// A processor for the image at `image_path` that runs the exiv2 binary
    /// found on `PATH`; `Err(Exiv2NotFoundError)` where none was found.
    pub fn new(image_path: String, exiv2_bin: Option<String>) -> (r: Result<Self, Exiv2NotFoundError>)
        ensures
            match exiv2_bin {
                Some(b) => r matches Ok(p) && p.image() == image_path@ && p.binary() == b@,
                None => r is Err,
            },
    {
        match exiv2_bin {
            Some(b) => Ok(EXIFProcessor { image_path, exiv2_bin: b }),
            None => Err(Exiv2NotFoundError),
        }
    }

    /// The path of the exiv2 binary that the processor runs.
    pub fn exiv2_bin(&self) -> (b: &String)
        ensures
            b@ == self.binary(),
    {
        &self.exiv2_bin
    }

    /// The arguments that print the raw tags (`-pe`) or the translated
    /// ones (`-pt`) of the image.
    pub fn print_args(&self, translated: bool) -> (args: Vec<String>)
        ensures
            string_views(args@) == seq![if translated { "-pt"@ } else { "-pe"@ }, self.image()],
    {
        let mut args: Vec<String> = Vec::new();
        args.push(if translated { "-pt".to_owned() } else { "-pe".to_owned() });
        args.push(self.image_path.clone());
        assert(string_views(args@) =~= seq![if translated { "-pt"@ } else { "-pe"@ }, self.image()]);
        args
    }

    /// The arguments that run the command file at `command_file` on the
    /// image.
    pub fn modify_args(&self, command_file: &str) -> (args: Vec<String>)
        ensures
            string_views(args@) == seq!["-m"@, command_file@, self.image()],
    {
        let mut args: Vec<String> = Vec::new();
        args.push("-m".to_owned());
        args.push(command_file.to_owned());
        args.push(self.image_path.clone());
        assert(string_views(args@) =~= seq!["-m"@, command_file@, self.image()]);
        args
    }

    /// The arguments that delete all metadata of the image.
    pub fn delete_args(&self) -> (args: Vec<String>)
        ensures
            string_views(args@) == seq!["-d"@, "a"@, "rm"@, self.image()],
    {
        let mut args: Vec<String> = Vec::new();
        args.push("-d".to_owned());
        args.push("a".to_owned());
        args.push("rm".to_owned());
        args.push(self.image_path.clone());
        assert(string_views(args@) =~= seq!["-d"@, "a"@, "rm"@, self.image()]);
        args
    }

    /// Where the original is copied when it is preserved.
    pub fn backup_path(&self) -> (p: String)
        ensures
            p@ == self.image() + ".backup"@,
    {
        let mut p = self.image_path.clone();
        push_str(&mut p, ".backup");
        p
    }

    /// Why a run counts as failed, if it does (see [`run_failure`]).
    pub fn run_error(run: &Result<CompletedProcess, String>, check: bool) -> (e: Option<String>)
        ensures
            match e {
                Some(m) => run_failure(*run, check) == Some(m@),
                None => run_failure(*run, check) is None,
            },
    {
        match run {
            Err(e) => Some(e.clone()),
            Ok(p) => {
                if check && p.returncode != 0 {
                    let mut m = String::new();
                    push_str(&mut m, "exiv2 exited with code ");
                    push_chars(&mut m, &i32_to_decimal(p.returncode));
                    push_str(&mut m, ": ");
                    let err = chars_of(p.stderr.as_str());
                    push_chars(&mut m, &trim_chars(&err));
                    Some(m)
                } else {
                    None
                }
            },
        }
    }

    /// Extracts the EXIF data of the image from the raw (`-pe`) and the
    /// translated (`-pt`) printing runs of exiv2, keyed by fully-qualified
    /// exiv2 keys in the order of the raw printout, e.g.
    /// `"Exif.GPSInfo.GPSLatitude"` → type `Rational`, count 3, value
    /// `43/1 28/1 2814/1000`, translated `43 deg 28' 2.81"`.
    pub fn extract(
        &self,
        raw: Result<CompletedProcess, String>,
        translated: Result<CompletedProcess, String>,
    ) -> (r: Result<IndexMap<String, ExifTag>, String>)
        ensures
            match r {
                Ok(m) => extract_outcome(raw, translated) == Ok::<
                    Seq<(Seq<char>, ExifTagView)>,
                    Seq<char>,
                >(tag_entries(m)),
                Err(e) => extract_outcome(raw, translated) == Err::<
                    Seq<(Seq<char>, ExifTagView)>,
                    Seq<char>,
                >(e@),
            },
    {
        match Self::run_error(&raw, true) {
            Some(e) => {
                let mut m = String::new();
                push_str(&mut m, "Failed to extract EXIF data: ");
                push_str(&mut m, e.as_str());
                return Err(m);
            },
            None => {},
        }
        match Self::run_error(&translated, true) {
            Some(e) => {
                let mut m = String::new();
                push_str(&mut m, "Failed to extract EXIF data: ");
                push_str(&mut m, e.as_str());
                return Err(m);
            },
            None => {},
        }
        match (raw, translated) {
            (Ok(rp), Ok(tp)) => {
                let raw_tags = Self::parse_print_output(rp.stdout.as_str());
                let translated_tags = Self::parse_print_output(tp.stdout.as_str());
                proof {
                    lemma_parse_lines_keys_distinct(lines(rp.stdout@));
                }
                Ok(merge_translations(&raw_tags, &translated_tags))
            },
            _ => Err(String::new()),
        }
    }

    /// Whether no key occurs twice among the edits, as [`Self::edit`]
    /// asks.
    pub fn has_distinct_keys(exif_data: &Vec<(String, ExifValue)>) -> (b: bool)
        ensures
            b == edit_keys_distinct(exif_data@),
    {
        let ghost ks = edit_keys(edit_views(exif_data@));
        assert forall|a: int| 0 <= a < exif_data@.len() implies #[trigger] ks[a] == exif_data@[a].0@ by {}
        let mut i: usize = 0;
        while i < exif_data.len()
            invariant
                i <= exif_data.len(),
                ks == edit_keys(edit_views(exif_data@)),
                ks.len() == exif_data@.len(),
                forall|a: int| 0 <= a < exif_data@.len() ==> #[trigger] ks[a] == exif_data@[a].0@,
                forall|a: int, b: int| 0 <= a < b < i ==> #[trigger] ks[a] != #[trigger] ks[b],
            decreases exif_data.len() - i,
        {
            let mut j: usize = 0;
            while j < i
                invariant
                    j <= i,
                    i < exif_data.len(),
                    ks == edit_keys(edit_views(exif_data@)),
                    ks.len() == exif_data@.len(),
                    forall|a: int| 0 <= a < exif_data@.len() ==> #[trigger] ks[a] == exif_data@[a].0@,
                    forall|a: int| 0 <= a < j ==> #[trigger] ks[a] != ks[i as int],
                decreases i - j,
            {
                if exif_data[j].0 == exif_data[i].0 {
                    assert(ks[j as int] == ks[i as int]);
                    return false;
                }
                j = j + 1;
            }
            i = i + 1;
        }
        true
    }

    /// The content of the exiv2 command file for the edits: one
    /// `set <key> [<type>] <value>` command per edit, in order, one per
    /// line (a single exiv2 run applies the whole batch).
    pub fn command_file(exif_data: &Vec<(String, ExifValue)>) -> (t: String)
        ensures
            t@ == command_file_text(edit_views(exif_data@)),
    {
        let ghost d = edit_views(exif_data@);
        let ghost cmds = d.map_values(|p: (Seq<char>, ExifValueView)| command_line(p.0, p.1));
        let mut t = String::new();
        let mut i: usize = 0;
        while i < exif_data.len()
            invariant
                i <= exif_data.len(),
                d == edit_views(exif_data@),
                cmds == d.map_values(|p: (Seq<char>, ExifValueView)| command_line(p.0, p.1)),
                t@ == join_lines(cmds.take(i as int)),
            decreases exif_data.len() - i,
        {
            let line = command_line_of(&exif_data[i].0, &exif_data[i].1);
            assert(line@ == cmds[i as int]);
            assert(cmds.take(i + 1).drop_last() == cmds.take(i as int));
            if i > 0 {
                push_str(&mut t, "\n");
            }
            push_str(&mut t, line.as_str());
            proof {
                if i == 0 {
                    assert(cmds.take(1) == seq![cmds[0]]);
                }
            }
            i = i + 1;
        }
        assert(cmds.take(exif_data@.len() as int) == cmds);
        push_str(&mut t, "\n");
        t
    }

    /// Sets EXIF tags through one exiv2 modify run over a command file.
    ///
    /// The caller makes the backup copy (when `preserve_original` is set;
    /// else `backup` is not read), writes [`Self::command_file`] to a
    /// temporary file, runs exiv2 with [`Self::modify_args`], and hands in
    /// what each step gave. exiv2 applies every valid command even when one
    /// fails, exits non-zero and prints `Warning: <key>: <reason>` for each
    /// one it skipped; so the edit reports which keys were applied and which
    /// failed, and fails outright where nothing in the batch applied: where
    /// exiv2 exited non-zero and warned about every key, or warned about none
    /// of them yet printed an error (it stopped before it read the commands).
    pub fn edit(
        &self,
        exif_data: &Vec<(String, ExifValue)>,
        preserve_original: bool,
        backup: Result<(), String>,
        command_file: Result<(), String>,
        run: Result<CompletedProcess, String>,
    ) -> (r: Result<EditResult, String>)
        requires
            edit_keys_distinct(exif_data@),
        ensures
            match r {
                Ok(er) => edit_outcome(
                    edit_views(exif_data@),
                    preserve_original,
                    backup,
                    command_file,
                    run,
                ) == Ok::<EditResultView, Seq<char>>(er@),
                Err(e) => edit_outcome(
                    edit_views(exif_data@),
                    preserve_original,
                    backup,
                    command_file,
                    run,
                ) == Err::<EditResultView, Seq<char>>(e@),
            },
    {
        let ghost d = edit_views(exif_data@);
        if preserve_original {
            match &backup {
                Err(e) => {
                    let mut m = String::new();
                    push_str(&mut m, "Failed to edit EXIF data: ");
                    push_str(&mut m, e.as_str());
                    return Err(m);
                },
                Ok(_) => {},
            }
        }
        match &command_file {
            Err(e) => {
                let mut m = String::new();
                push_str(&mut m, "Failed to edit EXIF data: ");
                push_str(&mut m, e.as_str());
                return Err(m);
            },
            Ok(_) => {},
        }
        let p = match run {
            Err(e) => {
                let mut m = String::new();
                push_str(&mut m, "Failed to edit EXIF data: ");
                push_str(&mut m, e.as_str());
                return Err(m);
            },
            Ok(p) => p,
        };
        let mut keys: Vec<String> = Vec::new();
        let mut i: usize = 0;
        while i < exif_data.len()
            invariant
                i <= exif_data.len(),
                d == edit_views(exif_data@),
                string_views(keys@) == edit_keys(d).take(i as int),
            decreases exif_data.len() - i,
        {
            let ghost old_keys = string_views(keys@);
            keys.push(exif_data[i].0.clone());
            assert(edit_keys(d).take(i + 1) == edit_keys(d).take(i as int).push(
                exif_data@[i as int].0@,
            ));
            assert(string_views(keys@) == old_keys.push(exif_data@[i as int].0@));
            i = i + 1;
        }
        assert(edit_keys(d).take(exif_data@.len() as int) == edit_keys(d));
        let warned = extract_warned_keys(p.stderr.as_str());
        let failed = select(&keys, &warned, true);
        let applied = select(&keys, &warned, false);
        let err = chars_of(p.stderr.as_str());
        let trimmed = trim_chars(&err);
        if p.returncode != 0 && (applied.len() == 0 || (failed.len() == 0 && trimmed.len() > 0)) {
            let mut m = String::new();
            push_str(&mut m, "Failed to edit EXIF data: ");
            let ghost m0 = m@;
            if trimmed.len() == 0 {
                push_str(&mut m, "exit code ");
                let digits = i32_to_decimal(p.returncode);
                push_chars(&mut m, &digits);
                assert(m@ =~= m0 + ("exit code "@ + digits@));
            } else {
                push_chars(&mut m, &trimmed);
            }
            return Err(m);
        }
        let message = edit_message(applied.len(), failed.len());
        let status = if failed.len() == 0 {
            "success".to_owned()
        } else {
            "partial".to_owned()
        };
        Ok(EditResult { status, applied, failed, message })
    }

    /// Deletes all EXIF data of the image through the exiv2 `rm` action.
    ///
    /// The caller makes the backup copy (when `preserve_original` is set;
    /// else `backup` is not read) and, where it succeeded, runs exiv2 with
    /// [`Self::delete_args`], and hands in what each step gave.
    pub fn delete(
        &self,
        preserve_original: bool,
        backup: Result<(), String>,
        run: Result<CompletedProcess, String>,
    ) -> (r: Result<DeleteResult, String>)
        ensures
            match r {
                Ok(dr) => dr.status@ == "success"@ && delete_outcome(preserve_original, backup, run)
                    == Ok::<Seq<char>, Seq<char>>(dr.message@),
                Err(e) => delete_outcome(preserve_original, backup, run) == Err::<
                    Seq<char>,
                    Seq<char>,
                >(e@),
            },
    {
        if preserve_original {
            match &backup {
                Err(e) => {
                    let mut m = String::new();
                    push_str(&mut m, "Failed to delete EXIF data: ");
                    push_str(&mut m, e.as_str());
                    return Err(m);
                },
                Ok(_) => {},
            }
        }
        match Self::run_error(&run, true) {
            Some(e) => {
                let mut m = String::new();
                push_str(&mut m, "Failed to delete EXIF data: ");
                push_str(&mut m, e.as_str());
                Err(m)
            },
            None => Ok(
                DeleteResult {
                    status: "success".to_owned(),
                    message: "EXIF data deleted successfully".to_owned(),
                },
            ),
        }
    }
}


// ---------------------------------------------------------------------------
// Laws
// ---------------------------------------------------------------------------

/// A count that exiv2 prints as a number reads back as that number.
pub proof fn law_count_roundtrip(n: usize)
    ensures
        count_of(decimal(n as nat)) == ExifCountView::Int(n),
{
    law_decimal_roundtrip(n as nat);
}

/// No key occurs twice in a parsed printout.
pub proof fn law_parsed_keys_distinct(stdout: Seq<char>)
    ensures
        keys_distinct(parsed_output(stdout)),
{
    lemma_parse_lines_keys_distinct(lines(stdout));
}

proof fn lemma_select_keys(keys: Seq<Seq<char>>, warned: Set<Seq<char>>)
    ensures
        select_keys(keys, warned, true).len() + select_keys(keys, warned, false).len() == keys.len(),
        forall|i: int|
            0 <= i < keys.len() ==> select_keys(keys, warned, warned.contains(keys[i])).contains(
                #[trigger] keys[i],
            ),
        forall|i: int|
            0 <= i < select_keys(keys, warned, true).len() ==> warned.contains(
                #[trigger] select_keys(keys, warned, true)[i],
            ) && keys.contains(select_keys(keys, warned, true)[i]),
        forall|i: int|
            0 <= i < select_keys(keys, warned, false).len() ==> !warned.contains(
                #[trigger] select_keys(keys, warned, false)[i],
            ) && keys.contains(select_keys(keys, warned, false)[i]),
    decreases keys.len(),
{
    if keys.len() > 0 {
        let pre = keys.drop_last();
        lemma_select_keys(pre, warned);
        let last = keys.last();
        let t = select_keys(keys, warned, true);
        let f = select_keys(keys, warned, false);
        let t0 = select_keys(pre, warned, true);
        let f0 = select_keys(pre, warned, false);
        assert forall|i: int|
            0 <= i < keys.len() implies select_keys(keys, warned, warned.contains(keys[i])).contains(
            #[trigger] keys[i],
        ) by {
            if i < keys.len() - 1 {
                assert(pre[i] == keys[i]);
                let w = warned.contains(keys[i]);
                let s0 = select_keys(pre, warned, w);
                assert(s0.contains(pre[i]));
                let j = choose|j: int| 0 <= j < s0.len() && s0[j] == pre[i];
                assert(select_keys(keys, warned, w)[j] == s0[j]);
            } else {
                let w = warned.contains(keys[i]);
                let s1 = select_keys(keys, warned, w);
                assert(s1[s1.len() - 1] == keys[i]);
            }
        }
        assert forall|i: int| 0 <= i < t.len() implies warned.contains(#[trigger] t[i]) && keys.contains(
            t[i],
        ) by {
            if i < t0.len() {
                assert(t[i] == t0[i]);
                let j = choose|j: int| 0 <= j < pre.len() && pre[j] == t0[i];
                assert(keys[j] == pre[j]);
            } else {
                assert(t[i] == last);
                assert(keys[keys.len() - 1] == last);
            }
        }
        assert forall|i: int| 0 <= i < f.len() implies !warned.contains(#[trigger] f[i]) && keys.contains(
            f[i],
        ) by {
            if i < f0.len() {
                assert(f[i] == f0[i]);
                let j = choose|j: int| 0 <= j < pre.len() && pre[j] == f0[i];
                assert(keys[j] == pre[j]);
            } else {
                assert(f[i] == last);
                assert(keys[keys.len() - 1] == last);
            }
        }
    }
}

/// An edit reports every edited key exactly once: as failed where exiv2
/// warned about it, else as applied; its status is "success" exactly when
/// nothing failed. A run that exited non-zero fails outright where exiv2
/// warned about every key, or about none of them while its error output is
/// not blank; otherwise it reports. A run that exited with 0 always
/// reports.
pub proof fn law_edit_reports_every_key(keys: Seq<Seq<char>>, returncode: i32, stderr: Seq<char>)
    ensures
        match classify_edit(keys, returncode, stderr) {
            Ok(v) => {
                &&& v.applied.len() + v.failed.len() == keys.len()
                &&& forall|i: int|
                    0 <= i < keys.len() ==> (v.applied.contains(#[trigger] keys[i]) || v.failed.contains(
                        keys[i],
                    ))
                &&& forall|i: int|
                    0 <= i < v.failed.len() ==> warned_keys(stderr).contains(#[trigger] v.failed[i])
                        && keys.contains(v.failed[i])
                &&& forall|i: int|
                    0 <= i < v.applied.len() ==> !warned_keys(stderr).contains(#[trigger] v.applied[i])
                        && keys.contains(v.applied[i])
                &&& (v.status == "success"@ <==> v.failed.len() == 0)
                &&& returncode != 0 ==> v.applied.len() > 0 && (v.failed.len() > 0 || trim(
                    stderr,
                ).len() == 0)
            },
            Err(_) => returncode != 0 && ((forall|i: int|
                0 <= i < keys.len() ==> warned_keys(stderr).contains(#[trigger] keys[i])) || ((forall|
                i: int,
            | 0 <= i < keys.len() ==> !warned_keys(stderr).contains(#[trigger] keys[i])) && trim(
                stderr,
            ).len() > 0)),
        },
{
    let w = warned_keys(stderr);
    lemma_select_keys(keys, w);
    reveal_strlit("success");
    reveal_strlit("partial");
    match classify_edit(keys, returncode, stderr) {
        Ok(v) => {
            assert forall|i: int| 0 <= i < keys.len() implies (v.applied.contains(
                #[trigger] keys[i],
            ) || v.failed.contains(keys[i])) by {
                assert(select_keys(keys, w, w.contains(keys[i])).contains(keys[i]));
            }
            assert(v.applied == select_keys(keys, w, false));
            assert(v.failed == select_keys(keys, w, true));
            assert("success"@ != "partial"@) by {
                assert("success"@[0] != "partial"@[0]);
            }
        },
        Err(_) => {
            if select_keys(keys, w, false).len() == 0 {
                assert forall|i: int| 0 <= i < keys.len() implies w.contains(#[trigger] keys[i]) by {
                    if !w.contains(keys[i]) {
                        assert(select_keys(keys, w, false).contains(keys[i]));
                    }
                }
            } else {
                assert forall|i: int| 0 <= i < keys.len() implies !w.contains(#[trigger] keys[i]) by {
                    if w.contains(keys[i]) {
                        assert(select_keys(keys, w, true).contains(keys[i]));
                    }
                }
            }
        },
    }
}

/// A line warns about the same key with or without a trailing carriage
/// return, which is whitespace and so ends the key's token.
proof fn lemma_warned_key_strip_cr(l: Seq<char>)
    ensures
        warned_key(strip_cr(l)) == warned_key(l),
{
    if l.len() > 0 && l.last() == '\r' {
        reveal_strlit("Warning: ");
        let p = "Warning: "@;
        let m = l.drop_last();
        assert(is_ws('\r'));
        if p.len() <= l.len() && l.take(p.len() as int) == p {
            assert(l.take(9)[8] == ' ');
            assert(l.len() > 9);
            assert(m.take(9) =~= l.take(9));
            let rest = l.skip(9);
            let rest_m = m.skip(9);
            assert(rest_m =~= rest.drop_last());
            assert(rest.last() == l.last());
            lemma_next_ws_drop_last(rest, 0);
            lemma_next_ws_bounds(rest_m, 0);
            assert(rest_m.take(next_ws(rest_m, 0)) =~= rest.take(next_ws(rest, 0)));
        } else if p.len() <= m.len() && m.take(9) == p {
            assert(l.take(9) =~= m.take(9));
        }
    }
}

/// The keys warned about in two runs of lines are those of either.
proof fn lemma_warned_in_concat(x: Seq<Seq<char>>, y: Seq<Seq<char>>)
    ensures
        warned_in(x + y) == warned_in(x).union(warned_in(y)),
{
    let s = x + y;
    assert forall|k: Seq<char>| warned_in(s).contains(k) implies warned_in(x).union(
        warned_in(y),
    ).contains(k) by {
        let i = choose|i: int| 0 <= i < s.len() && warned_key(s[i]) == Some(k);
        if i < x.len() {
            assert(s[i] == x[i]);
        } else {
            assert(s[i] == y[i - x.len()]);
        }
    }
    assert forall|k: Seq<char>| warned_in(x).union(warned_in(y)).contains(k) implies warned_in(
        s,
    ).contains(k) by {
        if warned_in(x).contains(k) {
            let i = choose|i: int| 0 <= i < x.len() && warned_key(x[i]) == Some(k);
            assert(s[i] == x[i]);
        } else {
            let i = choose|i: int| 0 <= i < y.len() && warned_key(y[i]) == Some(k);
            assert(s[x.len() + i] == y[i]);
        }
    }
    assert(warned_in(s) =~= warned_in(x).union(warned_in(y)));
}

/// The lines of `a`, a line break and `b`, read from `pos` within `a`, warn
/// about the keys that the lines of `a` from `pos` and the lines of `b` warn
/// about.
proof fn lemma_warned_lines_joined(a: Seq<char>, b: Seq<char>, pos: int)
    requires
        0 <= pos <= a.len(),
    ensures
        warned_in(lines_from(a + "\n"@ + b, pos)) == warned_in(lines_from(a, pos)).union(
            warned_keys(b),
        ),
    decreases a.len() - pos,
{
    reveal_strlit("\n");
    let t = "\n"@ + b;
    let p = a + "\n"@;
    let s = a + t;
    assert(a + "\n"@ + b =~= s);
    assert(p + b =~= s);
    assert(s[a.len() as int] == '\n');
    lemma_lines_from_shift(p, b, 0);
    assert(lines_from(s, a.len() + 1int) == lines(b));
    let empty_line = Seq::<char>::empty();
    if pos == a.len() {
        assert(next_char(s, pos, '\n') == pos);
        assert(s.subrange(pos, pos) =~= empty_line);
        assert(lines_from(s, pos) == seq![strip_cr(empty_line)] + lines_from(s, pos + 1));
        lemma_warned_in_concat(seq![empty_line], lines(b));
        assert(warned_key(empty_line) is None);
        assert(warned_in(seq![empty_line]) =~= Set::<Seq<char>>::empty());
        assert(warned_in(lines_from(a, pos)) =~= Set::<Seq<char>>::empty());
        assert(warned_in(lines_from(s, pos)) =~= warned_in(lines_from(a, pos)).union(
            warned_keys(b),
        ));
    } else {
        lemma_next_char_bounds(a, pos, '\n');
        lemma_next_char_prefix(a, t, pos, '\n');
        let e = next_char(a, pos, '\n');
        if e < a.len() {
            assert(s.subrange(pos, e) =~= a.subrange(pos, e));
            let line = strip_cr(a.subrange(pos, e));
            assert(lines_from(s, pos) == seq![line] + lines_from(s, e + 1));
            assert(lines_from(a, pos) == seq![line] + lines_from(a, e + 1));
            lemma_warned_lines_joined(a, b, e + 1);
            lemma_warned_in_concat(seq![line], lines_from(s, e + 1));
            lemma_warned_in_concat(seq![line], lines_from(a, e + 1));
            assert(warned_in(lines_from(s, pos)) =~= warned_in(lines_from(a, pos)).union(
                warned_keys(b),
            ));
        } else {
            assert(next_char(s, a.len() as int, '\n') == a.len());
            let whole = a.subrange(pos, a.len() as int);
            assert(s.subrange(pos, a.len() as int) =~= whole);
            assert(lines_from(s, pos) == seq![strip_cr(whole)] + lines(b));
            assert(lines_from(a, pos) == seq![whole]);
            lemma_warned_key_strip_cr(whole);
            lemma_warned_in_concat(seq![strip_cr(whole)], lines(b));
            assert(warned_in(seq![strip_cr(whole)]) =~= warned_in(seq![whole])) by {
                assert(seq![strip_cr(whole)][0] == strip_cr(whole));
                assert(seq![whole][0] == whole);
            }
            assert(warned_in(lines_from(s, pos)) =~= warned_in(lines_from(a, pos)).union(
                warned_keys(b),
            ));
        }
    }
}

/// Two error outputs joined by a line break warn about the keys that
/// either warns about, and an empty output warns about none: the warned
/// keys of a run do not depend on how its output was cut into pieces at
/// line breaks.
pub proof fn law_warned_keys_of_joined_outputs(a: Seq<char>, b: Seq<char>)
    ensures
        warned_keys(a + "\n"@ + b) == warned_keys(a).union(warned_keys(b)),
        warned_keys(Seq::empty()) == Set::<Seq<char>>::empty(),
{
    lemma_warned_lines_joined(a, b, 0);
    assert(lines(Seq::<char>::empty()) == Seq::<Seq<char>>::empty());
    assert(warned_keys(Seq::empty()) =~= Set::<Seq<char>>::empty());
}

/// An extraction lists exactly the keys of the raw printout, in its order,
/// each with its raw type, count and value; the translation is the value
/// that the translated printout holds for the key, else the raw value.
pub proof fn law_extract_keeps_raw_tags(
    raw: Result<CompletedProcess, String>,
    translated: Result<CompletedProcess, String>,
)
    ensures
        extract_outcome(raw, translated) matches Ok(e) ==> {
            let r = parsed_output(run_stdout(raw));
            let t = parsed_output(run_stdout(translated));
            &&& entry_keys(e) == entry_keys(r)
            &&& keys_distinct(e)
            &&& forall|i: int|
                0 <= i < e.len() ==> (#[trigger] e[i]).1.tag_type == r[i].1.tag_type && e[i].1.count
                    == r[i].1.count && e[i].1.value == r[i].1.value && e[i].1.translated == match entries_get(
                    t,
                    r[i].0,
                ) {
                    Some(x) => x.value,
                    None => r[i].1.value,
                }
        },
{
    if let Ok(e) = extract_outcome(raw, translated) {
        let r = parsed_output(run_stdout(raw));
        law_parsed_keys_distinct(run_stdout(raw));
        assert(entry_keys(e) =~= entry_keys(r));
        assert forall|i: int, j: int| 0 <= i < j < e.len() implies #[trigger] e[i].0 != #[trigger] e[j].0 by {
            assert(e[i].0 == r[i].0 && e[j].0 == r[j].0);
        }
    }
}

/// A key that exiv2 warns about is a non-empty run of characters without
/// whitespace.
pub proof fn law_warned_keys_are_tokens(stderr: Seq<char>, k: Seq<char>)
    requires
        warned_keys(stderr).contains(k),
    ensures
        k.len() > 0,
        no_ws(k),
{
    let ls = lines(stderr);
    let i = choose|i: int| 0 <= i < ls.len() && warned_key(ls[i]) == Some(k);
    let line = ls[i];
    let p = "Warning: "@;
    let rest = line.skip(p.len() as int);
    lemma_next_ws_bounds(rest, 0);
    let token = rest.take(next_ws(rest, 0));
    lemma_last_index_bounds(token, ':');
    assert forall|j: int| 0 <= j < k.len() implies !crate::text::is_ws(#[trigger] k[j]) by {
        assert(k[j] == token[j]);
        assert(token[j] == rest[j]);
    }
}


proof fn lemma_join_lines_front(ls: Seq<Seq<char>>)
    requires
        ls.len() >= 2,
    ensures
        join_lines(ls) == ls[0] + "\n"@ + join_lines(ls.drop_first()),
    decreases ls.len(),
{
    if ls.len() == 2 {
        assert(ls.drop_last() =~= seq![ls[0]]);
        assert(ls.drop_first() =~= seq![ls[1]]);
        assert(join_lines(ls.drop_last()) == ls[0]);
        assert(join_lines(ls.drop_first()) == ls[1]);
        assert(ls.last() == ls[1]);
    } else {
        lemma_join_lines_front(ls.drop_last());
        assert(ls.drop_last().drop_first() =~= ls.drop_first().drop_last());
        assert(ls.drop_first().last() == ls.last());
        assert(ls.drop_last()[0] == ls[0]);
        let a = ls[0];
        let m = join_lines(ls.drop_first().drop_last());
        assert(join_lines(ls) == (a + "\n"@ + m) + "\n"@ + ls.last());
        assert(join_lines(ls.drop_first()) == m + "\n"@ + ls.last());
        assert((a + "\n"@ + m) + "\n"@ + ls.last() =~= a + "\n"@ + (m + "\n"@ + ls.last()));
    }
}

proof fn lemma_joined_lines(ls: Seq<Seq<char>>)
    requires
        ls.len() > 0,
        forall|i: int| 0 <= i < ls.len() ==> single_line(#[trigger] ls[i]),
    ensures
        lines(join_lines(ls) + "\n"@) == ls,
    decreases ls.len(),
{
    if ls.len() == 1 {
        lemma_lines_cons(ls[0], Seq::empty());
        assert(ls[0] + "\n"@ + Seq::<char>::empty() =~= ls[0] + "\n"@);
        assert(lines(Seq::<char>::empty()) =~= Seq::<Seq<char>>::empty());
        assert(seq![ls[0]] + Seq::<Seq<char>>::empty() =~= ls);
    } else {
        lemma_join_lines_front(ls);
        let rest = ls.drop_first();
        assert forall|i: int| 0 <= i < rest.len() implies single_line(#[trigger] rest[i]) by {
            assert(rest[i] == ls[i + 1]);
        }
        lemma_joined_lines(rest);
        lemma_lines_cons(ls[0], join_lines(rest) + "\n"@);
        assert(join_lines(ls) + "\n"@ =~= ls[0] + "\n"@ + (join_lines(rest) + "\n"@));
        assert(seq![ls[0]] + rest =~= ls);
    }
}

/// The pieces of an edit hold no line-ending characters.
pub open spec fn single_line_edit(p: (Seq<char>, ExifValueView)) -> bool {
    &&& single_line(p.0)
    &&& match p.1 {
        ExifValueView::Plain(x) => single_line(x),
        ExifValueView::Typed(t, x) => single_line(t) && single_line(x),
    }
}

/// The command file holds one line per edit, in order, which exiv2 reads
/// back as exactly the edit commands, as long as no key, type or value
/// holds a line-ending character.
pub proof fn law_command_file_lines(d: Seq<(Seq<char>, ExifValueView)>)
    requires
        d.len() > 0,
        forall|i: int| 0 <= i < d.len() ==> single_line_edit(#[trigger] d[i]),
    ensures
        lines(command_file_text(d)) == d.map_values(
            |p: (Seq<char>, ExifValueView)| command_line(p.0, p.1),
        ),
{
    reveal_strlit("set ");
    reveal_strlit(" ");
    let cmds = d.map_values(|p: (Seq<char>, ExifValueView)| command_line(p.0, p.1));
    assert forall|i: int| 0 <= i < cmds.len() implies single_line(#[trigger] cmds[i]) by {
        let p = d[i];
        assert(single_line_edit(p));
        let c = command_line(p.0, p.1);
        assert forall|j: int| 0 <= j < c.len() implies #[trigger] c[j] != '\n' && c[j] != '\r' by {
            match p.1 {
                ExifValueView::Plain(x) => {
                    let a = "set "@ + p.0;
                    assert(c == a + " "@ + x);
                    if j < 4 {
                        assert(c[j] == "set "@[j]);
                    } else if j < a.len() {
                        assert(c[j] == p.0[j - 4]);
                    } else if j == a.len() {
                        assert(c[j] == ' ');
                    } else {
                        assert(c[j] == x[j - a.len() - 1]);
                    }
                },
                ExifValueView::Typed(t, x) => {
                    let a = "set "@ + p.0;
                    let b = a + " "@ + t;
                    assert(c == b + " "@ + x);
                    if j < 4 {
                        assert(c[j] == "set "@[j]);
                    } else if j < a.len() {
                        assert(c[j] == p.0[j - 4]);
                    } else if j == a.len() {
                        assert(c[j] == ' ');
                    } else if j < b.len() {
                        assert(c[j] == t[j - a.len() - 1]);
                    } else if j == b.len() {
                        assert(c[j] == ' ');
                    } else {
                        assert(c[j] == x[j - b.len() - 1]);
                    }
                },
            }
        }
    }
    lemma_joined_lines(cmds);
}


/// A printed line reads as its four columns whatever the width of the
/// padding between them: keys, types and counts are tokens without
/// whitespace, so the value, spaces included, is the rest of the line
/// without its surrounding whitespace.
pub proof fn law_parse_columns(
    pre: Seq<char>,
    key: Seq<char>,
    sep1: Seq<char>,
    tag_type: Seq<char>,
    sep2: Seq<char>,
    count: Seq<char>,
    sep3: Seq<char>,
    value: Seq<char>,
    post: Seq<char>,
)
    requires
        all_ws(pre),
        all_ws(post),
        key.len() > 0 && no_ws(key),
        tag_type.len() > 0 && no_ws(tag_type),
        count.len() > 0 && no_ws(count),
        sep1.len() > 0 && all_ws(sep1),
        sep2.len() > 0 && all_ws(sep2),
        sep3.len() > 0 && all_ws(sep3),
        value.len() > 0 && !is_ws(value[0]) && !is_ws(value.last()),
    ensures
        parsed_line(pre + key + sep1 + tag_type + sep2 + count + sep3 + value + post) == Some(
            (
                key,
                ExifTagView {
                    tag_type: tag_type,
                    count: count_of(count),
                    value: value,
                    translated: value,
                },
            ),
        ),
{
    let s = pre + key + sep1 + tag_type + sep2 + count + sep3 + value + post;
    let a0 = pre.len() as int;
    let a1 = a0 + key.len();
    let b1 = a1 + sep1.len();
    let a2 = b1 + tag_type.len();
    let b2 = a2 + sep2.len();
    let a3 = b2 + count.len();
    let b3 = a3 + sep3.len();
    assert(s.subrange(0, a0) =~= pre);
    assert(s.subrange(a0, a1) =~= key);
    assert(s.subrange(a1, b1) =~= sep1);
    assert(s.subrange(b1, a2) =~= tag_type);
    assert(s.subrange(a2, b2) =~= sep2);
    assert(s.subrange(b2, a3) =~= count);
    assert(s.subrange(a3, b3) =~= sep3);
    assert(s.subrange(b3, s.len() as int) =~= value + post);
    assert(s[a0] == key[0]);
    assert(s[b1] == tag_type[0]);
    assert(s[a2 + sep2.len()] == count[0]);
    assert(s[b3] == value[0]);
    assert forall|i: int| 0 <= i < a0 implies is_ws(#[trigger] s[i]) by {
        assert(s[i] == pre[i]);
    }
    lemma_skip_ws_at(s, 0, a0);
    lemma_split_step(s, a0, key, sep1, 3);
    lemma_split_step(s, b1, tag_type, sep2, 2);
    lemma_split_step(s, b2, count, sep3, 1);
    assert(split_max_from(s, b3, 0) == seq![value + post]);
    let parts = crate::text::split_ws_max(s, 3);
    assert(parts =~= seq![key, tag_type, count, value + post]);
    lemma_trim_padded(value, post);
    assert(trim(s).len() > 0) by {
        crate::text::lemma_trim_nonempty(s);
    }
}

} // verus!
