//! The decisions of the main window: the rows of the tag table, pending
//! edits, the search filter, the batch list, and the status messages.

use vstd::prelude::*;
use indexmap::IndexMap;
use crate::exiv2_backend::{
    edit_keys, edit_keys_distinct, edit_views, EditResult, ExifTag, ExifTagView, ExifValue,
    ExifValueView,
};
use crate::tag_map::{tag_entries, tag_map_get_index, tag_map_len};
use crate::text::{chars_of, decimal, push_chars, push_str, string_of, string_views, usize_to_decimal};
use crate::path_search::{basename, file_basename};

verus! {

/// A row of the tag table: the key, the value as shown, and whether the
/// tag is one of the common ones.
#[derive(Debug, Clone)]
pub struct ExifRowData {
    pub tag: String,
    pub value: String,
    pub is_common: bool,
}

/// The model of an [`ExifRowData`].
pub struct RowView {
    pub tag: Seq<char>,
    pub value: Seq<char>,
    pub is_common: bool,
}

impl View for ExifRowData {
    type V = RowView;

    open spec fn view(&self) -> RowView {
        RowView { tag: self.tag@, value: self.value@, is_common: self.is_common }
    }
}

/// The models of a sequence of rows.
pub open spec fn row_views(rows: Seq<ExifRowData>) -> Seq<RowView> {
    rows.map_values(|r: ExifRowData| r@)
}

/// The number of characters a shown value keeps.
pub const MAX_DISPLAY_LEN: usize = 300;

/// Whether `tag` is one of the common tags: make, model, dates, exposure,
/// aperture, ISO, focal length, orientation, or any GPS tag.
pub open spec fn is_common_tag(tag: Seq<char>) -> bool {
    ||| tag == "Exif.Image.Make"@
    ||| tag == "Exif.Image.Model"@
    ||| tag == "Exif.Image.DateTime"@
    ||| tag == "Exif.Photo.DateTimeOriginal"@
    ||| tag == "Exif.Photo.ExposureTime"@
    ||| tag == "Exif.Photo.FNumber"@
    ||| tag == "Exif.Photo.ISOSpeedRatings"@
    ||| tag == "Exif.Photo.FocalLength"@
    ||| tag == "Exif.Image.Orientation"@
    ||| ("Exif.GPSInfo."@.len() <= tag.len() && tag.take("Exif.GPSInfo."@.len() as int)
        == "Exif.GPSInfo."@)
}

/// `s` without its NUL characters.
pub open spec fn without_nul(s: Seq<char>) -> Seq<char>
    decreases s.len(),
{
    if s.len() == 0 {
        Seq::empty()
    } else if s.last() == '\0' {
        without_nul(s.drop_last())
    } else {
        without_nul(s.drop_last()).push(s.last())
    }
}

/// A value as the table shows it: without NUL characters, and cut after
/// its first 300 characters with a note of how many more there are.
pub open spec fn display_text(v: Seq<char>) -> Seq<char> {
    let s = without_nul(v);
    if s.len() > MAX_DISPLAY_LEN {
        s.take(MAX_DISPLAY_LEN as int) + "… ["@ + decimal((s.len() - MAX_DISPLAY_LEN) as nat)
            + " more chars]"@
    } else {
        s
    }
}

/// The row of the table for the tag `t` under `key`.
pub open spec fn row_of(key: Seq<char>, t: ExifTagView) -> RowView {
    RowView { tag: key, value: display_text(t.value), is_common: is_common_tag(key) }
}

/// The rows of the table for the extracted tags, in their order.
pub open spec fn rows_of(e: Seq<(Seq<char>, ExifTagView)>) -> Seq<RowView> {
    e.map_values(|p: (Seq<char>, ExifTagView)| row_of(p.0, p.1))
}

/// `v` without its NUL characters.
pub fn remove_nul(v: &str) -> (r: String)
    ensures
        r@ == without_nul(v@),
{
    let cs = chars_of(v);
    let mut out: Vec<char> = Vec::new();
    let mut i: usize = 0;
    while i < cs.len()
        invariant
            i <= cs.len(),
            out@ == without_nul(cs@.take(i as int)),
        decreases cs.len() - i,
    {
        assert(cs@.take(i + 1).drop_last() == cs@.take(i as int));
        if cs[i] != '\0' {
            out.push(cs[i]);
        }
        i = i + 1;
    }
    assert(cs@.take(cs@.len() as int) == cs@);
    string_of(out.as_slice())
}

/// A value as the table shows it.
pub fn display_value(v: &str) -> (r: String)
    ensures
        r@ == display_text(v@),
{
    let s = remove_nul(v);
    let cs = chars_of(s.as_str());
    if cs.len() > MAX_DISPLAY_LEN {
        let mut r = String::new();
        let mut i: usize = 0;
        let mut head: Vec<char> = Vec::new();
        while i < MAX_DISPLAY_LEN
            invariant
                i <= MAX_DISPLAY_LEN,
                MAX_DISPLAY_LEN < cs.len(),
                head@ == cs@.take(i as int),
            decreases MAX_DISPLAY_LEN - i,
        {
            head.push(cs[i]);
            i = i + 1;
            assert(cs@.take(i as int) == cs@.take((i - 1) as int).push(cs@[i - 1]));
        }
        push_chars(&mut r, &head);
        push_str(&mut r, "… [");
        push_chars(&mut r, &usize_to_decimal(cs.len() - MAX_DISPLAY_LEN));
        push_str(&mut r, " more chars]");
        r
    } else {
        s
    }
}

fn text_is(v: &Vec<char>, lit: &str) -> (b: bool)
    ensures
        b == (v@ == lit@),
{
    let w = chars_of(lit);
    if v.len() != w.len() {
        return false;
    }
    let mut i: usize = 0;
    while i < v.len()
        invariant
            i <= v.len(),
            v.len() == w.len(),
            w@ == lit@,
            forall|j: int| 0 <= j < i ==> v@[j] == w@[j],
        decreases v.len() - i,
    {
        if v[i] != w[i] {
            assert(v@[i as int] != w@[i as int]);
            return false;
        }
        i = i + 1;
    }
    assert(v@ =~= w@);
    true
}

/// Whether `tag` is one of the common tags.
pub fn is_common(tag: &str) -> (b: bool)
    ensures
        b == is_common_tag(tag@),
{
    let v = chars_of(tag);
    let gps = chars_of("Exif.GPSInfo.");
    text_is(&v, "Exif.Image.Make") || text_is(&v, "Exif.Image.Model") || text_is(
        &v,
        "Exif.Image.DateTime",
    ) || text_is(&v, "Exif.Photo.DateTimeOriginal") || text_is(&v, "Exif.Photo.ExposureTime")
        || text_is(&v, "Exif.Photo.FNumber") || text_is(&v, "Exif.Photo.ISOSpeedRatings")
        || text_is(&v, "Exif.Photo.FocalLength") || text_is(&v, "Exif.Image.Orientation")
        || crate::text::starts_with(&v, &gps)
}

/// The rows of the tag table for the extracted tags, in their order.
pub fn exif_rows(data: &IndexMap<String, ExifTag>) -> (rows: Vec<ExifRowData>)
    ensures
        row_views(rows@) == rows_of(tag_entries(*data)),
{
    let ghost e = tag_entries(*data);
    let n = tag_map_len(data);
    let mut rows: Vec<ExifRowData> = Vec::new();
    let mut i: usize = 0;
    while i < n
        invariant
            i <= n,
            n == e.len(),
            e == tag_entries(*data),
            row_views(rows@) == rows_of(e).take(i as int),
        decreases n - i,
    {
        match tag_map_get_index(data, i) {
            Some(kt) => {
                let (k, t) = kt;
                let row = ExifRowData {
                    tag: k.clone(),
                    value: display_value(t.value.as_str()),
                    is_common: is_common(k.as_str()),
                };
                let ghost old_rows = row_views(rows@);
                rows.push(row);
                assert(row_views(rows@) == old_rows.push(row_of(e[i as int].0, e[i as int].1)));
                assert(rows_of(e).take(i + 1) == rows_of(e).take(i as int).push(
                    rows_of(e)[i as int],
                ));
            },
            None => {},
        }
        i = i + 1;
    }
    assert(rows_of(e).take(n as int) == rows_of(e));
    rows
}

// ---------------------------------------------------------------------------
// Status messages
// ---------------------------------------------------------------------------

/// The status after an extraction of `count` tags.
pub fn extracted_message(count: usize) -> (m: String)
    ensures
        m@ == "EXIF extracted ("@ + decimal(count as nat) + ") tags"@,
{
    let mut m = String::new();
    push_str(&mut m, "EXIF extracted (");
    push_chars(&mut m, &usize_to_decimal(count));
    push_str(&mut m, ") tags");
    m
}

/// The status after saving edits: how many were applied and, where some
/// failed, how many were skipped.
pub fn save_message(result: &EditResult) -> (m: String)
    ensures
        m@ == "Saved "@ + decimal(result.applied@.len()) + " change(s)"@ + (if result.failed@.len()
            == 0 {
            Seq::<char>::empty()
        } else {
            " | "@ + decimal(result.failed@.len()) + " skipped"@
        }),
{
    let mut m = String::new();
    push_str(&mut m, "Saved ");
    push_chars(&mut m, &usize_to_decimal(result.applied.len()));
    push_str(&mut m, " change(s)");
    let ghost m0 = m@;
    if result.failed.len() > 0 {
        push_str(&mut m, " | ");
        let d = usize_to_decimal(result.failed.len());
        push_chars(&mut m, &d);
        push_str(&mut m, " skipped");
        assert(m@ =~= m0 + (" | "@ + d@ + " skipped"@));
    } else {
        assert(m@ =~= m0 + Seq::<char>::empty());
    }
    m
}

/// The line of the batch log for the `index`-th file (from 0) of `total`,
/// at `path`, once its deletion gave `outcome`.
pub fn batch_line(index: usize, total: usize, path: &str, outcome: &Result<(), String>) -> (m: String)
    requires
        index < total,
    ensures
        m@ == "("@ + decimal((index + 1) as nat) + "/"@ + decimal(total as nat) + ") "@ + basename(
            path@,
        ) + match outcome {
            Ok(_) => ": Deleted"@,
            Err(e) => ": ERROR - "@ + e@,
        },
{
    let mut m = String::new();
    push_str(&mut m, "(");
    push_chars(&mut m, &usize_to_decimal(index + 1));
    push_str(&mut m, "/");
    push_chars(&mut m, &usize_to_decimal(total));
    push_str(&mut m, ") ");
    let name = file_basename(path);
    push_str(&mut m, name.as_str());
    let ghost m0 = m@;
    match outcome {
        Ok(_) => {
            push_str(&mut m, ": Deleted");
        },
        Err(e) => {
            push_str(&mut m, ": ERROR - ");
            push_str(&mut m, e.as_str());
            assert(m@ =~= m0 + (": ERROR - "@ + e@));
        },
    }
    m
}

/// The action of the window whose failure is reported.
#[derive(Debug, Clone, Copy, PartialEq, Eq, Structural)]
pub enum FailedAction {
    /// Reading or deleting the tags of the open image.
    Process,
    /// Saving the pending edits.
    Save,
    /// Opening the map at the image's GPS position.
    Gps,
}

/// The text before the error in the status after a failed `a`.
pub open spec fn failure_prefix(a: FailedAction) -> Seq<char> {
    match a {
        FailedAction::Process => "Error: "@,
        FailedAction::Save => "Save error: "@,
        FailedAction::Gps => "GPS Error: "@,
    }
}

/// The status after `action` failed with `error`.
pub fn failure_message(action: FailedAction, error: &str) -> (m: String)
    ensures
        m@ == failure_prefix(action) + error@,
{
    let mut m = String::new();
    match action {
        FailedAction::Process => push_str(&mut m, "Error: "),
        FailedAction::Save => push_str(&mut m, "Save error: "),
        FailedAction::Gps => push_str(&mut m, "GPS Error: "),
    }
    push_str(&mut m, error);
    m
}

/// The status after a change of the batch list of `count` images.
pub fn batch_list_message(count: usize) -> (m: String)
    ensures
        m@ == "Batch list: "@ + decimal(count as nat) + " images"@,
{
    let mut m = String::new();
    push_str(&mut m, "Batch list: ");
    push_chars(&mut m, &usize_to_decimal(count));
    push_str(&mut m, " images");
    m
}


// ---------------------------------------------------------------------------
// Searching the table
// ---------------------------------------------------------------------------

/// The lower-case form of a text (`str::to_lowercase`).
pub uninterp spec fn lowercase(s: Seq<char>) -> Seq<char>;

/// `str::to_lowercase`.
#[verifier::external_body]
fn to_lower(s: &str) -> (r: String)
    ensures
        r@ == lowercase(s@),
{
    s.to_lowercase()
}

/// Whether `needle` occurs in `hay`.
pub open spec fn occurs_in(needle: Seq<char>, hay: Seq<char>) -> bool {
    exists|i: int| 0 <= i && i + needle.len() <= hay.len() && #[trigger] hay.subrange(i, i + needle.len()) == needle
}

/// Whether `needle` occurs in `hay` (`str::contains`).
pub fn contains_text(hay: &str, needle: &str) -> (b: bool)
    ensures
        b == occurs_in(needle@, hay@),
{
    let h = chars_of(hay);
    let n = chars_of(needle);
    if n.len() > h.len() {
        return false;
    }
    let mut i: usize = 0;
    while i <= h.len() - n.len()
        invariant
            n.len() <= h.len(),
            i <= h.len() - n.len() + 1,
            h@ == hay@,
            n@ == needle@,
            forall|j: int| 0 <= j < i ==> #[trigger] h@.subrange(j, j + n@.len()) != n@,
        decreases h.len() - i,
    {
        let mut k: usize = 0;
        let mut same = true;
        while k < n.len()
            invariant
                k <= n.len(),
                i + n.len() <= h.len(),
                same == (forall|q: int| 0 <= q < k ==> h@[i + q] == n@[q]),
            decreases n.len() - k,
        {
            if h[i + k] != n[k] {
                same = false;
            }
            k = k + 1;
        }
        if same {
            assert(h@.subrange(i as int, i + n@.len()) =~= n@);
            return true;
        }
        let ghost q = choose|q: int| 0 <= q < n.len() && h@[i + q] != n@[q];
        assert(h@.subrange(i as int, i + n@.len())[q] != n@[q]);
        i = i + 1;
    }
    assert forall|j: int| 0 <= j && j + needle@.len() <= hay@.len() implies #[trigger] hay@.subrange(
        j,
        j + needle@.len(),
    ) != needle@ by {
        assert(j < i);
    }
    false
}

/// Whether a row matches the lower-cased search text `needle`: in its key
/// or in its value, without regard to case.
pub open spec fn row_matches(r: RowView, needle: Seq<char>) -> bool {
    occurs_in(needle, lowercase(r.tag)) || occurs_in(needle, lowercase(r.value))
}

/// The rows that match the lower-cased search text, in order.
pub open spec fn filter_rows(rows: Seq<RowView>, needle: Seq<char>) -> Seq<RowView>
    decreases rows.len(),
{
    if rows.len() == 0 {
        Seq::empty()
    } else if row_matches(rows.last(), needle) {
        filter_rows(rows.drop_last(), needle).push(rows.last())
    } else {
        filter_rows(rows.drop_last(), needle)
    }
}

// ---------------------------------------------------------------------------
// Pending edits
// ---------------------------------------------------------------------------

/// The position of the first pending edit of `key`.
pub open spec fn edit_index(e: Seq<(Seq<char>, Seq<char>)>, key: Seq<char>) -> Option<int>
    decreases e.len(),
{
    if e.len() == 0 {
        None
    } else {
        match edit_index(e.drop_last(), key) {
            Some(i) => Some(i),
            None => if e.last().0 == key {
                Some(e.len() - 1)
            } else {
                None
            },
        }
    }
}

/// The pending value of `key`, if it was edited.
pub open spec fn edit_of(e: Seq<(Seq<char>, Seq<char>)>, key: Seq<char>) -> Option<Seq<char>> {
    match edit_index(e, key) {
        Some(i) => Some(e[i].1),
        None => None,
    }
}

/// The pending edits once `key` is set to `v`: an edited key takes the new
/// value in its place, a new key is added last.
pub open spec fn edits_insert(e: Seq<(Seq<char>, Seq<char>)>, key: Seq<char>, v: Seq<char>) -> Seq<
    (Seq<char>, Seq<char>),
> {
    match edit_index(e, key) {
        Some(i) => e.update(i, (key, v)),
        None => e.push((key, v)),
    }
}

pub proof fn lemma_edit_index(e: Seq<(Seq<char>, Seq<char>)>, key: Seq<char>)
    ensures
        edit_index(e, key) matches Some(i) ==> 0 <= i < e.len() && e[i].0 == key && forall|j: int|
            0 <= j < i ==> #[trigger] e[j].0 != key,
        edit_index(e, key) is None ==> forall|j: int| 0 <= j < e.len() ==> #[trigger] e[j].0 != key,
    decreases e.len(),
{
    if e.len() > 0 {
        lemma_edit_index(e.drop_last(), key);
        assert forall|j: int| 0 <= j < e.len() - 1 implies #[trigger] e[j] == e.drop_last()[j] by {}
    }
}

/// The first index with the given properties is that index.
proof fn lemma_edit_index_unique(e: Seq<(Seq<char>, Seq<char>)>, key: Seq<char>, i: int)
    requires
        0 <= i < e.len(),
        e[i].0 == key,
        forall|j: int| 0 <= j < i ==> #[trigger] e[j].0 != key,
    ensures
        edit_index(e, key) == Some(i),
{
    lemma_edit_index(e, key);
    match edit_index(e, key) {
        Some(k) => {
            if k < i {
                assert(e[k].0 != key);
            } else if k > i {
                assert(e[i].0 != key);
            }
        },
        None => {
            assert(e[i].0 != key);
        },
    }
}

/// The rows with their pending edits shown in place of their values.
pub open spec fn overlay(rows: Seq<RowView>, e: Seq<(Seq<char>, Seq<char>)>) -> Seq<RowView> {
    rows.map_values(
        |r: RowView|
            match edit_of(e, r.tag) {
                Some(v) => RowView { tag: r.tag, value: v, is_common: r.is_common },
                None => r,
            },
    )
}

/// Dropping NUL characters works character by character: the text of two
/// pieces is the text of each piece, a NUL is dropped and any other
/// character is kept.
pub proof fn law_without_nul_per_character(a: Seq<char>, b: Seq<char>, c: char)
    ensures
        without_nul(a + b) == without_nul(a) + without_nul(b),
        without_nul(seq![c]) == (if c == '\0' {
            Seq::<char>::empty()
        } else {
            seq![c]
        }),
        forall|i: int| 0 <= i < without_nul(a).len() ==> #[trigger] without_nul(a)[i] != '\0',
        (forall|i: int| 0 <= i < a.len() ==> #[trigger] a[i] != '\0') ==> without_nul(a) == a,
    decreases b.len(),
{
    assert(seq![c].drop_last() =~= Seq::<char>::empty());
    assert(seq![c].last() == c);
    assert(without_nul(Seq::<char>::empty()) == Seq::<char>::empty());
    assert(Seq::<char>::empty().push(c) =~= seq![c]);
    if b.len() == 0 {
        assert(a + b =~= a);
        assert(without_nul(b) =~= Seq::<char>::empty());
        assert(without_nul(a) + without_nul(b) =~= without_nul(a));
    } else {
        law_without_nul_per_character(a, b.drop_last(), c);
        assert((a + b).drop_last() =~= a + b.drop_last());
        assert((a + b).last() == b.last());
        if b.last() != '\0' {
            assert(without_nul(a) + without_nul(b) =~= (without_nul(a) + without_nul(b.drop_last())).push(
                b.last(),
            ));
        }
    }
    lemma_without_nul_clean(a);
}

proof fn lemma_without_nul_clean(a: Seq<char>)
    ensures
        forall|i: int| 0 <= i < without_nul(a).len() ==> #[trigger] without_nul(a)[i] != '\0',
        (forall|i: int| 0 <= i < a.len() ==> #[trigger] a[i] != '\0') ==> without_nul(a) == a,
    decreases a.len(),
{
    if a.len() > 0 {
        lemma_without_nul_clean(a.drop_last());
        let r = without_nul(a.drop_last());
        if a.last() != '\0' {
            assert forall|i: int| 0 <= i < without_nul(a).len() implies #[trigger] without_nul(a)[i]
                != '\0' by {
                if i < r.len() {
                    assert(without_nul(a)[i] == r[i]);
                }
            }
        }
        if forall|i: int| 0 <= i < a.len() ==> #[trigger] a[i] != '\0' {
            assert forall|i: int| 0 <= i < a.drop_last().len() implies #[trigger] a.drop_last()[i]
                != '\0' by {
                assert(a.drop_last()[i] == a[i]);
            }
            assert(a[a.len() - 1] != '\0');
            assert(a =~= a.drop_last().push(a.last()));
        }
    } else {
        assert(a =~= Seq::<char>::empty());
    }
}

/// A shown value is the value without its NUL characters; a longer one is
/// cut to its first 300 characters, followed by a note of how many more
/// there are.
pub proof fn law_display_keeps_the_start(v: Seq<char>)
    ensures
        without_nul(v).len() <= 300 ==> display_text(v) == without_nul(v),
        without_nul(v).len() > 300 ==> {
            &&& display_text(v).take(300) == without_nul(v).take(300)
            &&& display_text(v).skip(300) == "… ["@ + decimal((without_nul(v).len() - 300) as nat)
                + " more chars]"@
        },
{
    let s = without_nul(v);
    if s.len() > 300 {
        let note = "… ["@ + decimal((s.len() - 300) as nat) + " more chars]"@;
        assert(display_text(v) =~= s.take(300) + note);
        assert((s.take(300) + note).take(300) =~= s.take(300));
        assert((s.take(300) + note).skip(300) =~= note);
    }
}

proof fn lemma_filter_rows_is_filter(
    rows: Seq<RowView>,
    needle: Seq<char>,
    pred: spec_fn(RowView) -> bool,
)
    requires
        forall|r: RowView| #[trigger] pred(r) == row_matches(r, needle),
    ensures
        filter_rows(rows, needle) == rows.filter(pred),
    decreases rows.len(),
{
    reveal(Seq::filter);
    if rows.len() > 0 {
        lemma_filter_rows_is_filter(rows.drop_last(), needle, pred);
    }
}

/// Searching keeps exactly the rows that match, in their order: it is the
/// filter of the rows by the match, so every kept row matches and every
/// matching row is kept.
pub proof fn law_filter_keeps_every_match(rows: Seq<RowView>, needle: Seq<char>)
    ensures
        filter_rows(rows, needle) == rows.filter(|r: RowView| row_matches(r, needle)),
        forall|i: int|
            0 <= i < filter_rows(rows, needle).len() ==> row_matches(
                #[trigger] filter_rows(rows, needle)[i],
                needle,
            ),
        forall|i: int|
            0 <= i < rows.len() && row_matches(rows[i], needle) ==> #[trigger] filter_rows(
                rows,
                needle,
            ).contains(rows[i]),
        filter_rows(rows, needle).len() <= rows.len(),
{
    let pred = |r: RowView| row_matches(r, needle);
    lemma_filter_rows_is_filter(rows, needle, pred);
    rows.lemma_filter_len(pred);
    assert forall|i: int| 0 <= i < filter_rows(rows, needle).len() implies row_matches(
        #[trigger] filter_rows(rows, needle)[i],
        needle,
    ) by {
        rows.lemma_filter_pred(pred, i);
    }
    assert forall|i: int| 0 <= i < rows.len() && row_matches(rows[i], needle) implies #[trigger] filter_rows(
        rows,
        needle,
    ).contains(rows[i]) by {
        rows.lemma_filter_contains(pred, i);
    }
}

/// The table shows each row with its tag and common flag kept and, where
/// the tag has a pending edit, the pending value in place of its value,
/// whatever that value is (an emptied value too); a row without a pending
/// edit is shown as it is. Right after `key` is edited to `v`, every row of
/// `key` shows `v`.
pub proof fn law_overlay_shows_pending_values(
    rows: Seq<RowView>,
    e: Seq<(Seq<char>, Seq<char>)>,
    key: Seq<char>,
    v: Seq<char>,
)
    ensures
        overlay(rows, e).len() == rows.len(),
        forall|i: int|
            0 <= i < rows.len() ==> (#[trigger] overlay(rows, e)[i]).tag == rows[i].tag && overlay(
                rows,
                e,
            )[i].is_common == rows[i].is_common,
        forall|i: int, j: int|
            #![trigger overlay(rows, e)[i], e[j]]
            0 <= i < rows.len() && 0 <= j < e.len() && e[j].0 == rows[i].tag && (forall|k: int|
                0 <= k < j ==> #[trigger] e[k].0 != rows[i].tag) ==> overlay(rows, e)[i].value
                == e[j].1,
        forall|i: int|
            0 <= i < rows.len() && (forall|j: int| 0 <= j < e.len() ==> #[trigger] e[j].0 != rows[i].tag)
                ==> #[trigger] overlay(rows, e)[i] == rows[i],
        forall|i: int|
            0 <= i < rows.len() && rows[i].tag == key ==> (#[trigger] overlay(
                rows,
                edits_insert(e, key, v),
            )[i]).value == v,
{
    assert forall|i: int, j: int|
        #![trigger overlay(rows, e)[i], e[j]]
        0 <= i < rows.len() && 0 <= j < e.len() && e[j].0 == rows[i].tag && (forall|k: int|
            0 <= k < j ==> #[trigger] e[k].0 != rows[i].tag) implies overlay(rows, e)[i].value
        == e[j].1 by {
        lemma_edit_index_unique(e, rows[i].tag, j);
    }
    assert forall|i: int|
        0 <= i < rows.len() && (forall|j: int| 0 <= j < e.len() ==> #[trigger] e[j].0 != rows[i].tag)
            implies #[trigger] overlay(rows, e)[i] == rows[i] by {
        lemma_edit_index(e, rows[i].tag);
    }
    assert forall|i: int| 0 <= i < rows.len() && rows[i].tag == key implies (#[trigger] overlay(
        rows,
        edits_insert(e, key, v),
    )[i]).value == v by {
        law_edit_then_read(e, key, v, key + seq!['x']);
    }
}

/// The batch list once `paths` are added: each non-empty path that is not
/// in the list yet goes last.
pub open spec fn batch_add(list: Seq<Seq<char>>, paths: Seq<Seq<char>>) -> Seq<Seq<char>>
    decreases paths.len(),
{
    if paths.len() == 0 {
        list
    } else {
        let l = batch_add(list, paths.drop_last());
        let p = paths.last();
        if p.len() > 0 && !l.contains(p) {
            l.push(p)
        } else {
            l
        }
    }
}


/// A pending edit reads back the value last written for its key, and every
/// other key keeps its pending value.
pub proof fn law_edit_then_read(
    e: Seq<(Seq<char>, Seq<char>)>,
    key: Seq<char>,
    v: Seq<char>,
    other: Seq<char>,
)
    requires
        other != key,
    ensures
        edit_of(edits_insert(e, key, v), key) == Some(v),
        edit_of(edits_insert(e, key, v), other) == edit_of(e, other),
{
    let r = edits_insert(e, key, v);
    lemma_edit_index(e, key);
    lemma_edit_index(e, other);
    match edit_index(e, key) {
        Some(i) => {
            assert forall|j: int| 0 <= j < i implies #[trigger] r[j].0 != key by {
                assert(r[j] == e[j]);
            }
            lemma_edit_index_unique(r, key, i);
            match edit_index(e, other) {
                Some(j) => {
                    assert forall|q: int| 0 <= q < j implies #[trigger] r[q].0 != other by {
                        if q != i {
                            assert(r[q] == e[q]);
                        }
                    }
                    assert(j != i);
                    lemma_edit_index_unique(r, other, j);
                },
                None => {
                    lemma_edit_index(r, other);
                    if edit_index(r, other) is Some {
                        let q = edit_index(r, other)->0;
                        if q != i {
                            assert(r[q] == e[q]);
                        }
                    }
                },
            }
        },
        None => {
            let n = e.len() as int;
            assert forall|j: int| 0 <= j < n implies #[trigger] r[j].0 != key by {
                assert(r[j] == e[j]);
            }
            lemma_edit_index_unique(r, key, n);
            match edit_index(e, other) {
                Some(j) => {
                    assert forall|q: int| 0 <= q < j implies #[trigger] r[q].0 != other by {
                        assert(r[q] == e[q]);
                    }
                    lemma_edit_index_unique(r, other, j);
                },
                None => {
                    lemma_edit_index(r, other);
                    if edit_index(r, other) is Some {
                        let q = edit_index(r, other)->0;
                        if q < n {
                            assert(r[q] == e[q]);
                        }
                    }
                },
            }
        },
    }
}

/// Every non-empty path that was added is in the batch list, and what was
/// listed stays listed.
pub proof fn lemma_batch_add_contains(list: Seq<Seq<char>>, paths: Seq<Seq<char>>)
    ensures
        forall|p: Seq<char>| list.contains(p) ==> batch_add(list, paths).contains(p),
        forall|i: int|
            0 <= i < paths.len() && paths[i].len() > 0 ==> batch_add(list, paths).contains(
                #[trigger] paths[i],
            ),
    decreases paths.len(),
{
    if paths.len() > 0 {
        lemma_batch_add_contains(list, paths.drop_last());
        let l = batch_add(list, paths.drop_last());
        let r = batch_add(list, paths);
        assert forall|p: Seq<char>| l.contains(p) implies r.contains(p) by {
            if r != l {
                let j = choose|j: int| 0 <= j < l.len() && l[j] == p;
                assert(r[j] == l[j]);
            }
        }
        assert forall|i: int| 0 <= i < paths.len() && paths[i].len() > 0 implies r.contains(
            #[trigger] paths[i],
        ) by {
            if i < paths.len() - 1 {
                assert(paths.drop_last()[i] == paths[i]);
                assert(l.contains(paths.drop_last()[i]));
            } else if !l.contains(paths[i]) {
                assert(r[l.len() as int] == paths[i]);
            }
        }
    }
}

/// Adding paths that are all listed already leaves the batch list as it is.
pub proof fn lemma_batch_add_listed(list: Seq<Seq<char>>, paths: Seq<Seq<char>>)
    requires
        forall|i: int| 0 <= i < paths.len() && paths[i].len() > 0 ==> list.contains(#[trigger] paths[i]),
    ensures
        batch_add(list, paths) == list,
    decreases paths.len(),
{
    if paths.len() > 0 {
        assert forall|i: int| 0 <= i < paths.drop_last().len() && paths.drop_last()[i].len() > 0 implies list.contains(
            #[trigger] paths.drop_last()[i],
        ) by {
            assert(paths.drop_last()[i] == paths[i]);
        }
        lemma_batch_add_listed(list, paths.drop_last());
        let last = paths.len() - 1;
        if paths[last].len() > 0 {
            assert(list.contains(paths[last]));
        }
    }
}

/// Adding the same selection of paths twice lists them once: the second
/// addition changes nothing.
pub proof fn law_batch_add_idempotent(list: Seq<Seq<char>>, paths: Seq<Seq<char>>)
    ensures
        batch_add(batch_add(list, paths), paths) == batch_add(list, paths),
{
    lemma_batch_add_contains(list, paths);
    lemma_batch_add_listed(batch_add(list, paths), paths);
}

/// The state of the main window: the open image, the batch list, the rows
/// of the tag table and the pending edits.
pub struct ExifSession {
    pub current_path: String,
    pub batch_files: Vec<String>,
    pub all_exif_rows: Vec<ExifRowData>,
    pub exif_edits: Vec<(String, String)>,
}

/// The views of the pending edits.
pub open spec fn edits_view(e: Seq<(String, String)>) -> Seq<(Seq<char>, Seq<char>)> {
    e.map_values(|p: (String, String)| (p.0@, p.1@))
}

impl ExifSession {
    /// The pending edits, as key and value.
    pub open spec fn edits(&self) -> Seq<(Seq<char>, Seq<char>)> {
        edits_view(self.exif_edits@)
    }

    /// The batch list.
    pub open spec fn batch(&self) -> Seq<Seq<char>> {
        string_views(self.batch_files@)
    }

    /// Well-formed: no key is edited twice, and the batch list holds no
    /// empty path and no path twice.
    pub open spec fn wf(&self) -> bool {
        &&& forall|i: int, j: int|
            0 <= i < j < self.edits().len() ==> #[trigger] self.edits()[i].0
                != #[trigger] self.edits()[j].0
        &&& forall|i: int, j: int|
            0 <= i < j < self.batch().len() ==> #[trigger] self.batch()[i] != #[trigger] self.batch()[j]
        &&& forall|i: int| 0 <= i < self.batch().len() ==> #[trigger] self.batch()[i].len() > 0
    }

    /// A window with no image, no batch and no edits.
    pub fn new() -> (s: Self)
        ensures
            s.wf(),
            s.current_path@.len() == 0,
            s.batch().len() == 0,
            s.all_exif_rows@.len() == 0,
            s.edits().len() == 0,
    {
        ExifSession {
            current_path: String::new(),
            batch_files: Vec::new(),
            all_exif_rows: Vec::new(),
            exif_edits: Vec::new(),
        }
    }

    /// The pending value of `tag`, if it was edited.
    pub fn edit_for(&self, tag: &String) -> (r: Option<String>)
        ensures
            match r {
                Some(v) => edit_of(self.edits(), tag@) == Some(v@),
                None => edit_of(self.edits(), tag@) is None,
            },
    {
        let ghost e = self.edits();
        let mut i: usize = 0;
        while i < self.exif_edits.len()
            invariant
                i <= self.exif_edits.len(),
                e == self.edits(),
                forall|j: int| 0 <= j < i ==> #[trigger] e[j].0 != tag@,
            decreases self.exif_edits.len() - i,
        {
            if self.exif_edits[i].0 == *tag {
                assert(e[i as int].0 == tag@);
                proof {
                    lemma_edit_index_unique(e, tag@, i as int);
                }
                return Some(self.exif_edits[i].1.clone());
            }
            assert(e[i as int].0 != tag@);
            i = i + 1;
        }
        proof {
            lemma_edit_index(e, tag@);
            if edit_index(e, tag@) is Some {
                let k = edit_index(e, tag@)->0;
                assert(e[k].0 != tag@);
            }
        }
        None
    }

    /// Records the edit of the value of the `index`-th row to `new_value`
    /// (its NUL characters dropped); an index past the rows is ignored.
    pub fn exif_value_edited(&mut self, index: usize, new_value: &str)
        requires
            old(self).wf(),
        ensures
            final(self).wf(),
            final(self).current_path == old(self).current_path,
            final(self).batch_files == old(self).batch_files,
            final(self).all_exif_rows == old(self).all_exif_rows,
            index < old(self).all_exif_rows@.len() ==> final(self).edits() == edits_insert(
                old(self).edits(),
                old(self).all_exif_rows@[index as int].tag@,
                without_nul(new_value@),
            ),
            index >= old(self).all_exif_rows@.len() ==> final(self).edits() == old(self).edits(),
    {
        if index >= self.all_exif_rows.len() {
            return;
        }
        let tag = self.all_exif_rows[index].tag.clone();
        let v = remove_nul(new_value);
        let ghost e = self.edits();
        let mut i: usize = 0;
        while i < self.exif_edits.len()
            invariant
                i <= self.exif_edits.len(),
                e == self.edits(),
                self.wf(),
                *self == *old(self),
                index < old(self).all_exif_rows@.len(),
                tag@ == old(self).all_exif_rows@[index as int].tag@,
                v@ == without_nul(new_value@),
                forall|j: int| 0 <= j < i ==> #[trigger] e[j].0 != tag@,
            decreases self.exif_edits.len() - i,
        {
            if self.exif_edits[i].0 == tag {
                proof {
                    lemma_edit_index_unique(e, tag@, i as int);
                }
                let ghost b = self.batch();
                self.exif_edits.set(i, (tag, v));
                assert(self.edits() =~= e.update(i as int, (tag@, v@)));
                assert(self.batch() == b);
                assert forall|a: int, b: int|
                    0 <= a < b < self.edits().len() implies #[trigger] self.edits()[a].0
                    != #[trigger] self.edits()[b].0 by {
                    assert(self.edits()[a].0 == e[a].0 && self.edits()[b].0 == e[b].0);
                }
                return;
            }
            assert(e[i as int].0 != tag@);
            i = i + 1;
        }
        proof {
            lemma_edit_index(e, tag@);
            if edit_index(e, tag@) is Some {
                let k = edit_index(e, tag@)->0;
                assert(e[k].0 != tag@);
            }
        }
        let ghost b = self.batch();
        self.exif_edits.push((tag, v));
        assert(self.edits() =~= e.push((tag@, v@)));
        assert(self.batch() == b);
        assert forall|a: int, b: int|
            0 <= a < b < self.edits().len() implies #[trigger] self.edits()[a].0
            != #[trigger] self.edits()[b].0 by {
            if b < e.len() {
                assert(self.edits()[a].0 == e[a].0 && self.edits()[b].0 == e[b].0);
            } else {
                assert(self.edits()[a].0 == e[a].0);
            }
        }
    }

    /// Drops all pending edits.
    pub fn clear_edits(&mut self)
        requires
            old(self).wf(),
        ensures
            final(self).wf(),
            final(self).edits().len() == 0,
            final(self).current_path == old(self).current_path,
            final(self).batch_files == old(self).batch_files,
            final(self).all_exif_rows == old(self).all_exif_rows,
    {
        self.exif_edits = Vec::new();
        assert(self.edits().len() == 0);
        assert(self.batch() == old(self).batch());
    }

    /// The rows with their pending edits shown in place of their values.
    pub fn overlay_edits(&self, rows: &Vec<ExifRowData>) -> (r: Vec<ExifRowData>)
        ensures
            row_views(r@) == overlay(row_views(rows@), self.edits()),
    {
        let mut r: Vec<ExifRowData> = Vec::new();
        let mut i: usize = 0;
        while i < rows.len()
            invariant
                i <= rows.len(),
                row_views(r@) == overlay(row_views(rows@), self.edits()).take(i as int),
            decreases rows.len() - i,
        {
            let row = &rows[i];
            let shown = match self.edit_for(&row.tag) {
                Some(v) => ExifRowData { tag: row.tag.clone(), value: v, is_common: row.is_common },
                None => ExifRowData {
                    tag: row.tag.clone(),
                    value: row.value.clone(),
                    is_common: row.is_common,
                },
            };
            let ghost old_r = row_views(r@);
            r.push(shown);
            assert(row_views(r@) == old_r.push(overlay(row_views(rows@), self.edits())[i as int]));
            assert(overlay(row_views(rows@), self.edits()).take(i + 1) == overlay(
                row_views(rows@),
                self.edits(),
            ).take(i as int).push(overlay(row_views(rows@), self.edits())[i as int]));
            i = i + 1;
        }
        assert(overlay(row_views(rows@), self.edits()).take(rows@.len() as int) == overlay(
            row_views(rows@),
            self.edits(),
        ));
        r
    }

    /// The rows that the table shows for the search text `text`, with their
    /// pending edits: all of them for an empty text, else those whose key or
    /// value holds the text, without regard to case.
    pub fn apply_filter(&self, text: &str) -> (r: Vec<ExifRowData>)
        ensures
            text@.len() == 0 ==> row_views(r@) == overlay(row_views(self.all_exif_rows@), self.edits()),
            text@.len() > 0 ==> row_views(r@) == overlay(
                filter_rows(row_views(self.all_exif_rows@), lowercase(text@)),
                self.edits(),
            ),
    {
        if text.is_empty() {
            return self.overlay_edits(&self.all_exif_rows);
        }
        let needle = to_lower(text);
        let ghost rows = row_views(self.all_exif_rows@);
        let mut kept: Vec<ExifRowData> = Vec::new();
        let mut i: usize = 0;
        while i < self.all_exif_rows.len()
            invariant
                i <= self.all_exif_rows.len(),
                rows == row_views(self.all_exif_rows@),
                needle@ == lowercase(text@),
                row_views(kept@) == filter_rows(rows.take(i as int), needle@),
            decreases self.all_exif_rows.len() - i,
        {
            let row = &self.all_exif_rows[i];
            assert(rows.take(i + 1).drop_last() == rows.take(i as int));
            assert(rows.take(i + 1).last() == row@);
            let tag_l = to_lower(row.tag.as_str());
            let val_l = to_lower(row.value.as_str());
            if contains_text(tag_l.as_str(), needle.as_str()) || contains_text(
                val_l.as_str(),
                needle.as_str(),
            ) {
                let ghost old_k = row_views(kept@);
                kept.push(
                    ExifRowData { tag: row.tag.clone(), value: row.value.clone(), is_common: row.is_common },
                );
                assert(row_views(kept@) == old_k.push(row@));
            }
            i = i + 1;
        }
        assert(rows.take(rows.len() as int) == rows);
        self.overlay_edits(&kept)
    }

    /// The pending edits, to be written as plain values.
    pub fn edits_to_save(&self) -> (r: Vec<(String, ExifValue)>)
        ensures
            r@.len() == self.edits().len(),
            forall|i: int|
                0 <= i < r@.len() ==> (#[trigger] r@[i]).0@ == self.edits()[i].0 && r@[i].1@
                    == ExifValueView::Plain(self.edits()[i].1),
            self.wf() ==> edit_keys_distinct(r@),
    {
        let mut r: Vec<(String, ExifValue)> = Vec::new();
        let mut i: usize = 0;
        while i < self.exif_edits.len()
            invariant
                i <= self.exif_edits.len(),
                r@.len() == i,
                forall|j: int|
                    0 <= j < i ==> (#[trigger] r@[j]).0@ == self.edits()[j].0 && r@[j].1@
                        == ExifValueView::Plain(self.edits()[j].1),
            decreases self.exif_edits.len() - i,
        {
            r.push((self.exif_edits[i].0.clone(), ExifValue::Plain(self.exif_edits[i].1.clone())));
            i = i + 1;
        }
        proof {
            if self.wf() {
                let ks = edit_keys(edit_views(r@));
                assert forall|a: int, b: int| 0 <= a < b < ks.len() implies #[trigger] ks[a]
                    != #[trigger] ks[b] by {
                    assert(ks[a] == r@[a].0@);
                    assert(ks[b] == r@[b].0@);
                    assert(self.edits()[a].0 != self.edits()[b].0);
                }
            }
        }
        r
    }

    /// Adds the selected `paths` to the batch list: each non-empty path that
    /// is not listed yet is added last. Returns the base names of the added
    /// paths, in order, which the list shows.
    pub fn add_batch_files(&mut self, paths: &Vec<String>) -> (added: Vec<String>)
        requires
            old(self).wf(),
        ensures
            final(self).wf(),
            final(self).batch() == batch_add(old(self).batch(), string_views(paths@)),
            string_views(added@) == final(self).batch().subrange(
                old(self).batch().len() as int,
                final(self).batch().len() as int,
            ).map_values(|p: Seq<char>| basename(p)),
            final(self).current_path == old(self).current_path,
            final(self).all_exif_rows == old(self).all_exif_rows,
            final(self).exif_edits == old(self).exif_edits,
    {
        let ghost b0 = self.batch();
        let mut added: Vec<String> = Vec::new();
        let mut i: usize = 0;
        while i < paths.len()
            invariant
                i <= paths.len(),
                self.wf(),
                b0.len() <= self.batch().len(),
                self.batch() == batch_add(b0, string_views(paths@).take(i as int)),
                self.batch().subrange(0, b0.len() as int) == b0,
                string_views(added@) == self.batch().subrange(
                    b0.len() as int,
                    self.batch().len() as int,
                ).map_values(|p: Seq<char>| basename(p)),
                self.current_path == old(self).current_path,
                self.all_exif_rows == old(self).all_exif_rows,
                self.exif_edits == old(self).exif_edits,
            decreases paths.len() - i,
        {
            let ghost ps = string_views(paths@);
            assert(ps.take(i + 1).drop_last() == ps.take(i as int));
            assert(ps.take(i + 1).last() == paths@[i as int]@);
            let p = &paths[i];
            if !p.as_str().is_empty() && !crate::exiv2_backend::contains_string(&self.batch_files, p) {
                let ghost before = self.batch();
                let ghost ed = self.edits();
                let ghost old_added = string_views(added@);
                self.batch_files.push(p.clone());
                assert(self.edits() == ed);
                assert(self.batch() == before.push(p@));
                let name = file_basename(p.as_str());
                added.push(name);
                assert(string_views(added@) == old_added.push(basename(p@)));
                assert(self.batch().subrange(b0.len() as int, self.batch().len() as int) =~= before.subrange(
                    b0.len() as int,
                    before.len() as int,
                ).push(p@));
                assert(self.batch().subrange(0, b0.len() as int) =~= before.subrange(0, b0.len() as int));
                assert forall|a: int, b: int|
                    0 <= a < b < self.batch().len() implies #[trigger] self.batch()[a]
                    != #[trigger] self.batch()[b] by {
                    if b == before.len() {
                        assert(before[a] == self.batch()[a]);
                        assert(before.contains(before[a]));
                    } else {
                        assert(before[a] == self.batch()[a] && before[b] == self.batch()[b]);
                    }
                }
                assert forall|a: int| 0 <= a < self.batch().len() implies #[trigger] self.batch()[a].len()
                    > 0 by {
                    if a < before.len() {
                        assert(before[a] == self.batch()[a]);
                    }
                }
                assert(self.batch().subrange(b0.len() as int, self.batch().len() as int).map_values(
                    |q: Seq<char>| basename(q),
                ) =~= before.subrange(b0.len() as int, before.len() as int).map_values(
                    |q: Seq<char>| basename(q),
                ).push(basename(p@)));
            }
            i = i + 1;
        }
        assert(string_views(paths@).take(paths@.len() as int) == string_views(paths@));
        added
    }

    /// Empties the batch list.
    pub fn clear_batch_list(&mut self)
        requires
            old(self).wf(),
        ensures
            final(self).wf(),
            final(self).batch().len() == 0,
            final(self).current_path == old(self).current_path,
            final(self).all_exif_rows == old(self).all_exif_rows,
            final(self).exif_edits == old(self).exif_edits,
    {
        let ghost ed = self.edits();
        self.batch_files = Vec::new();
        assert(self.edits() == ed);
        assert(self.batch().len() == 0);
    }

    /// Why an extraction cannot start, if it cannot: no image is open.
    pub fn extract_refusal(&self) -> (r: Option<String>)
        ensures
            self.current_path@.len() == 0 ==> (r matches Some(m) && m@ == "No image selected"@),
            self.current_path@.len() > 0 ==> r is None,
    {
        if self.current_path.as_str().is_empty() {
            Some("No image selected".to_owned())
        } else {
            None
        }
    }

    /// Whether a deletion can start: an image is open. Without one the
    /// request is ignored, with no status.
    pub fn can_delete(&self) -> (b: bool)
        ensures
            b == (self.current_path@.len() > 0),
    {
        !self.current_path.as_str().is_empty()
    }

    /// Whether the map can be opened: an image is open and its tags hold a
    /// GPS position (`has_gps`). Otherwise the request is ignored.
    pub fn can_open_map(&self, has_gps: bool) -> (b: bool)
        ensures
            b == (has_gps && self.current_path@.len() > 0),
    {
        has_gps && !self.current_path.as_str().is_empty()
    }

    /// Why saving cannot start, if it cannot: no image is open, or nothing
    /// was edited.
    pub fn save_refusal(&self) -> (r: Option<String>)
        ensures
            self.current_path@.len() == 0 ==> (r matches Some(m) && m@ == "No image loaded"@),
            self.current_path@.len() > 0 && self.edits().len() == 0 ==> (r matches Some(m) && m@
                == "No changes to save"@),
            self.current_path@.len() > 0 && self.edits().len() > 0 ==> r is None,
    {
        if self.current_path.as_str().is_empty() {
            Some("No image loaded".to_owned())
        } else if self.exif_edits.len() == 0 {
            Some("No changes to save".to_owned())
        } else {
            None
        }
    }

    /// Why a batch run cannot start, if it cannot: the batch list is empty.
    pub fn batch_refusal(&self) -> (r: Option<String>)
        ensures
            self.batch().len() == 0 ==> (r matches Some(m) && m@ == "No images in batch list"@),
            self.batch().len() > 0 ==> r is None,
    {
        if self.batch_files.len() == 0 {
            Some("No images in batch list".to_owned())
        } else {
            None
        }
    }
}

} // verus!
