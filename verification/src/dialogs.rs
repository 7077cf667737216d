//! The native file selection dialog: which helper program (zenity or
//! kdialog) is asked, with which arguments, and what its answer means.

use vstd::prelude::*;
use crate::text::{chars_of, push_str, string_of, string_views, trim, trim_chars, views};
use crate::path_search::{keep_non_empty, non_empty, split_chars_on, split_on, split_from};
use crate::text::{lemma_next_char_bounds, next_char};

verus! {

/// The image files that the dialogs offer by default.
pub const IMAGE_GLOB: &'static str = "*.jpg *.jpeg *.png *.tiff *.bmp *.JPG *.JPEG *.PNG *.TIFF *.BMP";

/// The error of a file dialog that could not be shown.
#[derive(Debug, Clone)]
pub struct DialogError {
    pub message: String,
}

impl DialogError {
    /// An error with the given text.
    pub fn new(msg: &str) -> (e: Self)
        ensures
            e.message@ == msg@,
    {
        DialogError { message: msg.to_owned() }
    }
}

/// What a file dialog answered.
#[derive(Debug, Clone)]
pub enum FileDialogResult {
    /// Single mode: the selected path, or `None` if cancelled.
    Single(Option<String>),
    /// Multi mode: the selected paths (empty if cancelled).
    Multiple(Vec<String>),
}

/// The helper program that shows the dialog.
#[derive(Debug, Clone, Copy, PartialEq, Eq, Structural)]
pub enum DialogBackend {
    Zenity,
    Kdialog,
}

/// A dialog to show: the program to run, its arguments, and whether it
/// selects several files.
#[derive(Debug, Clone)]
pub struct DialogCommand {
    pub backend: DialogBackend,
    pub program: String,
    pub args: Vec<String>,
    pub multiple: bool,
}

/// The title of the dialog: the given one, else "Select Images" or
/// "Select Image".
pub open spec fn dialog_title(multiple: bool, title: Option<String>) -> Seq<char> {
    match title {
        Some(t) => t@,
        None => if multiple {
            "Select Images"@
        } else {
            "Select Image"@
        },
    }
}

/// The arguments of zenity.
pub open spec fn zenity_args(multiple: bool, title: Seq<char>) -> Seq<Seq<char>> {
    seq![
        "--file-selection"@,
        "--title"@,
        title,
        "--file-filter"@,
        "Image Files | "@ + IMAGE_GLOB@,
        "--file-filter"@,
        "All Files | *"@,
    ] + if multiple {
        seq!["--multiple"@, "--separator"@, "\n"@]
    } else {
        Seq::empty()
    }
}

/// The arguments of kdialog, which starts in the home directory `home`.
pub open spec fn kdialog_args(multiple: bool, title: Seq<char>, home: Seq<char>) -> Seq<Seq<char>> {
    seq!["--getopenfilename"@, home, IMAGE_GLOB@] + (if multiple {
        seq!["--multiple"@, "--separate-output"@]
    } else {
        Seq::empty()
    }) + seq!["--title"@, title]
}

/// The paths that a dialog printed: its trimmed output cut into lines,
/// empty lines left out.
pub open spec fn selected_paths(stdout: Seq<char>) -> Seq<Seq<char>> {
    non_empty(split_on(trim(stdout), '\n'))
}

/// Whether the answer of a dialog is a cancellation: a non-zero exit code
/// (-1 when it was ended by a signal) or nothing printed.
pub open spec fn dialog_cancelled(exit_code: i32, stdout: Seq<char>) -> bool {
    exit_code != 0 || trim(stdout).len() == 0
}


/// The paths that a dialog answers are its output lines: each is non-empty
/// and holds no line break.
pub proof fn law_selected_paths_are_lines(stdout: Seq<char>)
    ensures
        forall|i: int|
            0 <= i < selected_paths(stdout).len() ==> (#[trigger] selected_paths(stdout)[i]).len() > 0
                && !selected_paths(stdout)[i].contains('\n'),
{
    let t = trim(stdout);
    lemma_split_on_pieces(t, 0);
    lemma_non_empty(split_on(t, '\n'));
}

proof fn lemma_split_on_pieces(s: Seq<char>, pos: int)
    requires
        0 <= pos <= s.len(),
    ensures
        forall|i: int|
            0 <= i < split_from(s, pos, '\n').len() ==> !(#[trigger] split_from(s, pos, '\n')[i]).contains('\n'),
    decreases s.len() - pos,
{
    lemma_next_char_bounds(s, pos, '\n');
    let e = next_char(s, pos, '\n');
    let head = if e >= s.len() { s.subrange(pos, s.len() as int) } else { s.subrange(pos, e) };
    assert(!head.contains('\n')) by {
        if head.contains('\n') {
            let j = choose|j: int| 0 <= j < head.len() && head[j] == '\n';
            assert(head[j] == s[pos + j]);
        }
    }
    if e < s.len() {
        lemma_split_on_pieces(s, e + 1);
        let r = split_from(s, pos, '\n');
        assert forall|i: int| 0 <= i < r.len() implies !(#[trigger] r[i]).contains('\n') by {
            if i > 0 {
                assert(r[i] == split_from(s, e + 1, '\n')[i - 1]);
            }
        }
    }
}

proof fn lemma_non_empty(ps: Seq<Seq<char>>)
    ensures
        forall|i: int|
            0 <= i < non_empty(ps).len() ==> (#[trigger] non_empty(ps)[i]).len() > 0 && ps.contains(
                non_empty(ps)[i],
            ),
    decreases ps.len(),
{
    if ps.len() > 0 {
        lemma_non_empty(ps.drop_last());
        let r = non_empty(ps);
        let r0 = non_empty(ps.drop_last());
        assert forall|i: int| 0 <= i < r.len() implies (#[trigger] r[i]).len() > 0 && ps.contains(r[i]) by {
            if i < r0.len() {
                assert(r[i] == r0[i]);
                let j = choose|j: int| 0 <= j < ps.drop_last().len() && ps.drop_last()[j] == r0[i];
                assert(ps[j] == ps.drop_last()[j]);
            } else {
                assert(r[i] == ps.last());
                assert(ps[ps.len() - 1] == ps.last());
            }
        }
    }
}

fn push_owned(v: &mut Vec<String>, s: &str)
    ensures
        string_views(final(v)@) == string_views(old(v)@).push(s@),
{
    let ghost old_v = string_views(v@);
    v.push(s.to_owned());
    assert(string_views(v@) == old_v.push(s@));
}

/// The dialog to show for selecting one image (or several, with
/// `multiple`), under `title` or the default one: zenity where it was
/// found on `PATH`, else kdialog, which starts in `home` (`~` when the
/// `HOME` variable is unset); an error where neither was found.
pub fn open_file_dialog(
    multiple: bool,
    title: Option<String>,
    zenity_found: bool,
    kdialog_found: bool,
    home: Option<String>,
) -> (r: Result<DialogCommand, DialogError>)
    ensures
        zenity_found ==> (r matches Ok(c) && c.backend == DialogBackend::Zenity && c.program@
            == "zenity"@ && c.multiple == multiple && string_views(c.args@) == zenity_args(
            multiple,
            dialog_title(multiple, title),
        )),
        !zenity_found && kdialog_found ==> (r matches Ok(c) && c.backend == DialogBackend::Kdialog
            && c.program@ == "kdialog"@ && c.multiple == multiple && string_views(c.args@)
            == kdialog_args(
            multiple,
            dialog_title(multiple, title),
            match home {
                Some(h) => h@,
                None => "~"@,
            },
        )),
        !zenity_found && !kdialog_found ==> (r matches Err(e) && e.message@
            == "No file dialog backend found. Install zenity or kdialog."@),
{
    let ghost t = dialog_title(multiple, title);
    let title = match title {
        Some(t) => t,
        None => if multiple {
            "Select Images".to_owned()
        } else {
            "Select Image".to_owned()
        },
    };
    assert(title@ == t);
    if zenity_found {
        let mut args: Vec<String> = Vec::new();
        push_owned(&mut args, "--file-selection");
        push_owned(&mut args, "--title");
        push_owned(&mut args, title.as_str());
        push_owned(&mut args, "--file-filter");
        let mut filter = String::new();
        push_str(&mut filter, "Image Files | ");
        push_str(&mut filter, IMAGE_GLOB);
        push_owned(&mut args, filter.as_str());
        push_owned(&mut args, "--file-filter");
        push_owned(&mut args, "All Files | *");
        if multiple {
            push_owned(&mut args, "--multiple");
            push_owned(&mut args, "--separator");
            push_owned(&mut args, "\n");
        }
        assert(string_views(args@) =~= zenity_args(multiple, t));
        Ok(DialogCommand { backend: DialogBackend::Zenity, program: "zenity".to_owned(), args, multiple })
    } else if kdialog_found {
        let home = match home {
            Some(h) => h,
            None => "~".to_owned(),
        };
        let mut args: Vec<String> = Vec::new();
        push_owned(&mut args, "--getopenfilename");
        push_owned(&mut args, home.as_str());
        push_owned(&mut args, IMAGE_GLOB);
        if multiple {
            push_owned(&mut args, "--multiple");
            push_owned(&mut args, "--separate-output");
        }
        push_owned(&mut args, "--title");
        push_owned(&mut args, title.as_str());
        assert(string_views(args@) =~= kdialog_args(multiple, t, home@));
        Ok(
            DialogCommand {
                backend: DialogBackend::Kdialog,
                program: "kdialog".to_owned(),
                args,
                multiple,
            },
        )
    } else {
        Err(DialogError::new("No file dialog backend found. Install zenity or kdialog."))
    }
}

impl DialogCommand {
    /// What the dialog answered, given how its run went: the error of
    /// starting it, or its exit code (-1 when it was ended by a signal) and
    /// its output. An error or a cancellation gives no path (`None` in
    /// single mode, an empty list in multi mode); else the printed paths,
    /// all of them in multi mode and the first one in single mode.
    pub fn finish(&self, run: Result<(i32, String), String>) -> (r: FileDialogResult)
        ensures
            match run {
                Err(_) => if self.multiple {
                    r matches FileDialogResult::Multiple(ps) && ps@.len() == 0
                } else {
                    r matches FileDialogResult::Single(None)
                },
                Ok(out) => if dialog_cancelled(out.0, out.1@) {
                    if self.multiple {
                        r matches FileDialogResult::Multiple(ps) && ps@.len() == 0
                    } else {
                        r matches FileDialogResult::Single(None)
                    }
                } else {
                    if self.multiple {
                        r matches FileDialogResult::Multiple(ps) && string_views(ps@)
                            == selected_paths(out.1@)
                    } else {
                        r matches FileDialogResult::Single(p) && match p {
                            Some(p) => selected_paths(out.1@).len() > 0 && p@ == selected_paths(
                                out.1@,
                            )[0],
                            None => selected_paths(out.1@).len() == 0,
                        }
                    }
                },
            },
    {
        match run {
            Err(_) => {
                if self.multiple {
                    FileDialogResult::Multiple(Vec::new())
                } else {
                    FileDialogResult::Single(None)
                }
            },
            Ok(out) => {
                let (code, stdout) = out;
                let v = chars_of(stdout.as_str());
                let trimmed = trim_chars(&v);
                if code != 0 || trimmed.len() == 0 {
                    return if self.multiple {
                        FileDialogResult::Multiple(Vec::new())
                    } else {
                        FileDialogResult::Single(None)
                    };
                }
                let pieces = split_chars_on(&trimmed, '\n');
                let kept = keep_non_empty(&pieces);
                let mut paths: Vec<String> = Vec::new();
                let mut i: usize = 0;
                while i < kept.len()
                    invariant
                        i <= kept.len(),
                        string_views(paths@) == views(kept@).take(i as int),
                    decreases kept.len() - i,
                {
                    let ghost old_p = string_views(paths@);
                    paths.push(string_of(kept[i].as_slice()));
                    assert(string_views(paths@) == old_p.push(kept@[i as int]@));
                    assert(views(kept@).take(i + 1) == views(kept@).take(i as int).push(
                        kept@[i as int]@,
                    ));
                    i = i + 1;
                }
                assert(views(kept@).take(kept@.len() as int) == views(kept@));
                if self.multiple {
                    FileDialogResult::Multiple(paths)
                } else if paths.len() > 0 {
                    assert(string_views(paths@)[0] == paths@[0]@);
                    FileDialogResult::Single(Some(paths[0].clone()))
                } else {
                    FileDialogResult::Single(None)
                }
            },
        }
    }
}

} // verus!
