//! Batch processing: what is done to each file of a batch and what is
//! reported for it.

use vstd::prelude::*;
use crate::exiv2_backend::{edit_keys_distinct, ExifValue};
use crate::text::push_str;
use crate::path_search::{
    basename, extension_of, file_basename, file_stem_of, join_path, joined_path, or_empty,
    parent_of, path_extension, path_file_stem, path_parent, same_text,
};

verus! {

/// A batch of images and the operation to apply to each.
pub struct BatchProcessor {
    pub file_paths: Vec<String>,
    pub operation: String,
    pub preserve_original: bool,
    pub exif_data: Option<Vec<(String, ExifValue)>>,
}

/// What is done to one file of a batch.
#[derive(Debug, Clone, Copy, PartialEq, Eq, Structural)]
pub enum BatchAction {
    /// Delete all its EXIF data.
    Delete,
    /// Write the batch's EXIF data.
    Edit,
    /// An edit without EXIF data to write: the file fails.
    MissingData,
    /// An unknown operation: nothing is done.
    Nothing,
}

/// The copy that a preserving batch works on: `<stem>_modified<.ext>`
/// beside the original.
pub open spec fn modified_path(p: Seq<char>) -> Seq<char> {
    joined_path(
        or_empty(path_parent(p)),
        or_empty(path_file_stem(p)) + "_modified"@ + match path_extension(p) {
            Some(e) => "."@ + e,
            None => Seq::empty(),
        },
    )
}

/// The action of a batch whose operation is `op`.
pub open spec fn batch_action(op: Seq<char>, has_data: bool) -> BatchAction {
    if op == "delete"@ {
        BatchAction::Delete
    } else if op == "edit"@ {
        if has_data {
            BatchAction::Edit
        } else {
            BatchAction::MissingData
        }
    } else {
        BatchAction::Nothing
    }
}

/// What processing one file of a batch whose operation is `op` gives, from
/// the outcomes of its steps in the order they run: the copy to the working
/// path (made only when originals are preserved), the start of a processor
/// on the working path, and the operation. The first step that failed
/// decides; an edit without EXIF data fails once the processor started.
pub open spec fn file_outcome_of(
    op: Seq<char>,
    has_data: bool,
    preserve_original: bool,
    copy: Result<(), String>,
    processor: Result<(), String>,
    operation: Result<(), String>,
) -> Result<(), Seq<char>> {
    if preserve_original && copy is Err {
        Err(copy->Err_0@)
    } else if processor is Err {
        Err(processor->Err_0@)
    } else {
        match batch_action(op, has_data) {
            BatchAction::Delete | BatchAction::Edit => match operation {
                Ok(_) => Ok(()),
                Err(e) => Err(e@),
            },
            BatchAction::MissingData => Err("No EXIF data provided for edit operation"@),
            BatchAction::Nothing => Ok(()),
        }
    }
}

/// Processing a file runs its steps in order and the first that fails
/// decides: the copy (only when originals are preserved), then the start of
/// the processor, then the operation. Once both succeeded, a deletion or an
/// edit with data gives exactly what the operation gave, an edit without
/// data fails for want of it, and an unknown operation succeeds.
pub proof fn law_file_outcome_first_failure(
    op: Seq<char>,
    has_data: bool,
    preserve_original: bool,
    copy: Result<(), String>,
    processor: Result<(), String>,
    operation: Result<(), String>,
)
    ensures
        preserve_original && copy is Err ==> file_outcome_of(
            op,
            has_data,
            preserve_original,
            copy,
            processor,
            operation,
        ) == Err::<(), Seq<char>>(copy->Err_0@),
        (!preserve_original || copy is Ok) && processor is Err ==> file_outcome_of(
            op,
            has_data,
            preserve_original,
            copy,
            processor,
            operation,
        ) == Err::<(), Seq<char>>(processor->Err_0@),
        (!preserve_original || copy is Ok) && processor is Ok && (op == "delete"@ || (op == "edit"@
            && has_data)) ==> file_outcome_of(
            op,
            has_data,
            preserve_original,
            copy,
            processor,
            operation,
        ) == match operation {
            Ok(_) => Ok::<(), Seq<char>>(()),
            Err(e) => Err(e@),
        },
        (!preserve_original || copy is Ok) && processor is Ok && op == "edit"@ && !has_data
            ==> file_outcome_of(op, has_data, preserve_original, copy, processor, operation)
            == Err::<(), Seq<char>>("No EXIF data provided for edit operation"@),
        (!preserve_original || copy is Ok) && processor is Ok && op != "delete"@ && op != "edit"@
            ==> file_outcome_of(op, has_data, preserve_original, copy, processor, operation) is Ok,
{
    reveal_strlit("delete");
    reveal_strlit("edit");
    assert("edit"@ != "delete"@) by {
        assert("edit"@[0] != "delete"@[0]);
    }
}

/// The status shown for a file: "Success", or the error after "Error: ".
pub open spec fn file_status(outcome: Result<(), String>) -> Seq<char> {
    match outcome {
        Ok(_) => "Success"@,
        Err(e) => "Error: "@ + e@,
    }
}

impl BatchProcessor {
    /// Well-formed: the EXIF data to write, if any, edits no key twice.
    pub open spec fn wf(&self) -> bool {
        match self.exif_data {
            Some(d) => edit_keys_distinct(d@),
            None => true,
        }
    }

    /// A batch of `file_paths` to which `operation` ("delete" or "edit",
    /// with `exif_data`) is applied, on copies where `preserve_original`.
    pub fn new(
        file_paths: Vec<String>,
        operation: String,
        preserve_original: bool,
        exif_data: Option<Vec<(String, ExifValue)>>,
    ) -> (b: Self)
        requires
            exif_data matches Some(d) ==> edit_keys_distinct(d@),
        ensures
            b.wf(),
            b.file_paths == file_paths,
            b.operation == operation,
            b.preserve_original == preserve_original,
            b.exif_data == exif_data,
    {
        BatchProcessor { file_paths, operation, preserve_original, exif_data }
    }

    /// The copy to work on for `file_path`, when originals are preserved:
    /// the caller copies the file there and processes the copy; else the
    /// file itself is processed (`None`).
    pub fn working_copy(&self, file_path: &str) -> (r: Option<String>)
        ensures
            self.preserve_original ==> (r matches Some(c) && c@ == modified_path(file_path@)),
            !self.preserve_original ==> r is None,
    {
        if !self.preserve_original {
            return None;
        }
        let parent = match parent_of(file_path) {
            Some(p) => p,
            None => String::new(),
        };
        let mut name = match file_stem_of(file_path) {
            Some(s) => s,
            None => String::new(),
        };
        push_str(&mut name, "_modified");
        match extension_of(file_path) {
            Some(e) => {
                let ghost n0 = name@;
                push_str(&mut name, ".");
                push_str(&mut name, e.as_str());
                assert(name@ =~= n0 + ("."@ + e@));
            },
            None => {
                assert(name@ =~= name@ + Seq::<char>::empty());
            },
        }
        Some(join_path(parent.as_str(), name.as_str()))
    }

    /// What is done to each file of the batch.
    pub fn action(&self) -> (a: BatchAction)
        ensures
            a == batch_action(self.operation@, self.exif_data is Some),
    {
        if same_text(self.operation.as_str(), "delete") {
            BatchAction::Delete
        } else if same_text(self.operation.as_str(), "edit") {
            if self.exif_data.is_some() {
                BatchAction::Edit
            } else {
                BatchAction::MissingData
            }
        } else {
            BatchAction::Nothing
        }
    }

    /// The error of an edit batch without EXIF data to write.
    pub fn missing_data_error() -> (e: String)
        ensures
            e@ == "No EXIF data provided for edit operation"@,
    {
        "No EXIF data provided for edit operation".to_owned()
    }

    /// What processing one file gives, from the outcomes of its steps (see
    /// [`file_outcome_of`]). The caller runs the steps in order and stops at
    /// the first that fails; a step that did not run is handed in as any
    /// value, which is not read.
    pub fn file_outcome(
        &self,
        copy: Result<(), String>,
        processor: Result<(), String>,
        operation: Result<(), String>,
    ) -> (r: Result<(), String>)
        ensures
            match r {
                Ok(_) => file_outcome_of(
                    self.operation@,
                    self.exif_data is Some,
                    self.preserve_original,
                    copy,
                    processor,
                    operation,
                ) is Ok,
                Err(e) => file_outcome_of(
                    self.operation@,
                    self.exif_data is Some,
                    self.preserve_original,
                    copy,
                    processor,
                    operation,
                ) == Err::<(), Seq<char>>(e@),
            },
    {
        if self.preserve_original {
            if let Err(e) = copy {
                return Err(e);
            }
        }
        if let Err(e) = processor {
            return Err(e);
        }
        match self.action() {
            BatchAction::Delete | BatchAction::Edit => operation,
            BatchAction::MissingData => Err(Self::missing_data_error()),
            BatchAction::Nothing => Ok(()),
        }
    }

    /// What the progress callback is given for the `index`-th file (from
    /// 0) once it was processed with `outcome`: its 1-based position, the
    /// number of files, its base name and its status.
    pub fn file_report(&self, index: usize, outcome: Result<(), String>) -> (r: (
        usize,
        usize,
        String,
        String,
    ))
        requires
            index < self.file_paths.len(),
        ensures
            r.0 == index + 1,
            r.1 == self.file_paths.len(),
            r.2@ == basename(self.file_paths@[index as int]@),
            r.3@ == file_status(outcome),
    {
        let name = file_basename(self.file_paths[index].as_str());
        let status = match outcome {
            Ok(_) => "Success".to_owned(),
            Err(e) => {
                let mut s = String::new();
                push_str(&mut s, "Error: ");
                push_str(&mut s, e.as_str());
                s
            },
        };
        (index + 1, self.file_paths.len(), name, status)
    }
}

} // verus!
