//! Paths: their components as `std::path` reads them, and where a
//! program may be found on `PATH`.

use vstd::prelude::*;
use crate::text::{chars_of, find_char, lemma_next_char_bounds, next_char, slice_chars, string_views, views};

verus! {

/// The path that `Path::new(dir).join(name)` gives, as text.
pub uninterp spec fn joined_path(dir: Seq<char>, name: Seq<char>) -> Seq<char>;

/// `Path::join`: the path of `name` inside `dir`, as text (the path is made
/// of text, so nothing is lost when it is read back).
#[verifier::external_body]
pub(crate) fn join_path(dir: &str, name: &str) -> (p: String)
    ensures
        p@ == joined_path(dir@, name@),
{
    std::path::Path::new(dir).join(name).to_string_lossy().to_string()
}

/// The pieces of `s` from `pos` on, cut at every `c` (`str::split`): empty
/// pieces included, and one piece more than there are separators.
pub open spec fn split_from(s: Seq<char>, pos: int, c: char) -> Seq<Seq<char>>
    decreases s.len() - pos,
{
    if pos < 0 || pos > s.len() {
        Seq::empty()
    } else {
        let e = next_char(s, pos, c);
        if e >= s.len() {
            seq![s.subrange(pos, s.len() as int)]
        } else {
            proof {
                lemma_next_char_bounds(s, pos, c);
            }
            seq![s.subrange(pos, e)] + split_from(s, e + 1, c)
        }
    }
}

/// The pieces of `s` cut at every `c`.
pub open spec fn split_on(s: Seq<char>, c: char) -> Seq<Seq<char>> {
    split_from(s, 0, c)
}

/// The non-empty pieces, in order.
pub open spec fn non_empty(ps: Seq<Seq<char>>) -> Seq<Seq<char>>
    decreases ps.len(),
{
    if ps.len() == 0 {
        Seq::empty()
    } else if ps.last().len() == 0 {
        non_empty(ps.drop_last())
    } else {
        non_empty(ps.drop_last()).push(ps.last())
    }
}

/// The pieces of `v` cut at every `c`.
pub fn split_chars_on(v: &Vec<char>, c: char) -> (r: Vec<Vec<char>>)
    ensures
        views(r@) == split_on(v@, c),
{
    let mut r: Vec<Vec<char>> = Vec::new();
    let mut pos: usize = 0;
    loop
        invariant
            pos <= v.len(),
            views(r@) + split_from(v@, pos as int, c) == split_on(v@, c),
        decreases v.len() - pos,
    {
        let e = find_char(v, pos, c);
        proof {
            lemma_next_char_bounds(v@, pos as int, c);
        }
        let ghost old_r = r@;
        if e >= v.len() {
            let piece = slice_chars(v, pos, v.len());
            r.push(piece);
            assert(views(r@) == views(old_r).push(v@.subrange(pos as int, v@.len() as int)));
            assert(views(r@) =~= views(old_r) + split_from(v@, pos as int, c));
            return r;
        }
        let piece = slice_chars(v, pos, e);
        r.push(piece);
        assert(views(r@) == views(old_r).push(v@.subrange(pos as int, e as int)));
        assert(views(r@) + split_from(v@, e + 1, c) =~= views(old_r) + split_from(v@, pos as int, c));
        pos = e + 1;
    }
}

/// The non-empty pieces of `ps`, in order.
pub fn keep_non_empty(ps: &Vec<Vec<char>>) -> (r: Vec<Vec<char>>)
    ensures
        views(r@) == non_empty(views(ps@)),
{
    let mut r: Vec<Vec<char>> = Vec::new();
    let mut i: usize = 0;
    while i < ps.len()
        invariant
            i <= ps.len(),
            views(r@) == non_empty(views(ps@).take(i as int)),
        decreases ps.len() - i,
    {
        assert(views(ps@).take(i + 1).drop_last() == views(ps@).take(i as int));
        assert(views(ps@).take(i + 1).last() == ps@[i as int]@);
        if ps[i].len() > 0 {
            let ghost old_r = r@;
            r.push(slice_chars(&ps[i], 0, ps[i].len()));
            assert(ps@[i as int]@.subrange(0, ps@[i as int]@.len() as int) == ps@[i as int]@);
            assert(views(r@) == views(old_r).push(ps@[i as int]@));
        }
        i = i + 1;
    }
    assert(views(ps@).take(ps@.len() as int) == views(ps@));
    r
}

/// The candidate paths of program `exe_name` for the search path
/// `path_env` (a list of directories separated by `separator`): each
/// non-empty directory of the list, in order, joined with `exe_name`.
pub open spec fn path_candidates(path_env: Seq<char>, separator: char, exe_name: Seq<char>) -> Seq<
    Seq<char>,
> {
    non_empty(split_on(path_env, separator)).map_values(|d: Seq<char>| joined_path(d, exe_name))
}

/// The paths at which `exe_name` is looked for on the search path
/// `path_env`, in the order in which they are tried; the first one that is
/// an executable file is the program.
pub fn search_path_candidates(path_env: &str, separator: char, exe_name: &str) -> (r: Vec<String>)
    ensures
        string_views(r@) == path_candidates(path_env@, separator, exe_name@),
{
    let v = chars_of(path_env);
    let pieces = split_chars_on(&v, separator);
    let dirs = keep_non_empty(&pieces);
    let ghost ds = views(dirs@);
    let mut r: Vec<String> = Vec::new();
    let mut i: usize = 0;
    while i < dirs.len()
        invariant
            i <= dirs.len(),
            ds == views(dirs@),
            string_views(r@) == ds.take(i as int).map_values(|d: Seq<char>| joined_path(d, exe_name@)),
        decreases dirs.len() - i,
    {
        let dir = crate::text::string_of(dirs[i].as_slice());
        let p = join_path(dir.as_str(), exe_name);
        let ghost old_r = string_views(r@);
        r.push(p);
        assert(string_views(r@) == old_r.push(joined_path(ds[i as int], exe_name@)));
        assert(ds.take(i + 1).map_values(|d: Seq<char>| joined_path(d, exe_name@)) =~= ds.take(
            i as int,
        ).map_values(|d: Seq<char>| joined_path(d, exe_name@)).push(joined_path(ds[i as int], exe_name@)));
        i = i + 1;
    }
    assert(ds.take(dirs@.len() as int) == ds);
    r
}


/// The final component of a path (`Path::file_name`), if it has one.
pub uninterp spec fn path_file_name(p: Seq<char>) -> Option<Seq<char>>;

/// The final component of a path without its extension
/// (`Path::file_stem`), if it has one.
pub uninterp spec fn path_file_stem(p: Seq<char>) -> Option<Seq<char>>;

/// The extension of the final component of a path (`Path::extension`),
/// if it has one.
pub uninterp spec fn path_extension(p: Seq<char>) -> Option<Seq<char>>;

/// A path without its final component (`Path::parent`), if it has one.
pub uninterp spec fn path_parent(p: Seq<char>) -> Option<Seq<char>>;

/// `Path::file_name`, as text.
#[verifier::external_body]
pub(crate) fn file_name_of(p: &str) -> (r: Option<String>)
    ensures
        match r {
            Some(n) => path_file_name(p@) == Some(n@),
            None => path_file_name(p@) is None,
        },
{
    std::path::Path::new(p).file_name().map(|n| n.to_string_lossy().to_string())
}

/// `Path::file_stem`, as text.
#[verifier::external_body]
pub(crate) fn file_stem_of(p: &str) -> (r: Option<String>)
    ensures
        match r {
            Some(n) => path_file_stem(p@) == Some(n@),
            None => path_file_stem(p@) is None,
        },
{
    std::path::Path::new(p).file_stem().map(|n| n.to_string_lossy().to_string())
}

/// `Path::extension`, as text.
#[verifier::external_body]
pub(crate) fn extension_of(p: &str) -> (r: Option<String>)
    ensures
        match r {
            Some(n) => path_extension(p@) == Some(n@),
            None => path_extension(p@) is None,
        },
{
    std::path::Path::new(p).extension().map(|n| n.to_string_lossy().to_string())
}

/// `Path::parent`, as text.
#[verifier::external_body]
pub(crate) fn parent_of(p: &str) -> (r: Option<String>)
    ensures
        match r {
            Some(n) => path_parent(p@) == Some(n@),
            None => path_parent(p@) is None,
        },
{
    std::path::Path::new(p).parent().map(|n| n.to_string_lossy().to_string())
}

/// The text of an optional path component, or nothing.
pub open spec fn or_empty(c: Option<Seq<char>>) -> Seq<char> {
    match c {
        Some(s) => s,
        None => Seq::empty(),
    }
}

/// The final component of a path, or nothing (what a list of files shows).
pub open spec fn basename(p: Seq<char>) -> Seq<char> {
    or_empty(path_file_name(p))
}

/// The final component of the path `p`, or the empty text where it has
/// none.
pub fn file_basename(p: &str) -> (r: String)
    ensures
        r@ == basename(p@),
{
    match file_name_of(p) {
        Some(n) => n,
        None => String::new(),
    }
}

/// Whether two texts are equal.
pub fn same_text(a: &str, b: &str) -> (r: bool)
    ensures
        r == (a@ == b@),
{
    let x = chars_of(a);
    let y = chars_of(b);
    if x.len() != y.len() {
        return false;
    }
    let mut i: usize = 0;
    while i < x.len()
        invariant
            i <= x.len(),
            x.len() == y.len(),
            x@ == a@,
            y@ == b@,
            forall|j: int| 0 <= j < i ==> x@[j] == y@[j],
        decreases x.len() - i,
    {
        if x[i] != y[i] {
            assert(x@[i as int] != y@[i as int]);
            return false;
        }
        i = i + 1;
    }
    assert(x@ =~= y@);
    true
}

} // verus!
