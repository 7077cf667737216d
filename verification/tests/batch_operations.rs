use vera::batch_operations::{BatchAction, BatchProcessor};
use vera::exiv2_backend::ExifValue;

fn batch(op: &str, preserve: bool, data: Option<Vec<(String, ExifValue)>>) -> BatchProcessor {
    BatchProcessor::new(
        vec!["/photos/a.jpg".to_string(), "/photos/b".to_string(), "c.tar.gz".to_string()],
        op.to_string(),
        preserve,
        data,
    )
}

#[test]
fn new_keeps_its_fields() {
    let b = batch("delete", true, None);
    assert_eq!(b.file_paths.len(), 3);
    assert_eq!(b.operation, "delete");
    assert!(b.preserve_original);
    assert!(b.exif_data.is_none());
}

#[test]
fn actions() {
    assert_eq!(batch("delete", false, None).action(), BatchAction::Delete);
    assert_eq!(batch("edit", false, None).action(), BatchAction::MissingData);
    let data = vec![("K".to_string(), ExifValue::Plain("v".to_string()))];
    assert_eq!(batch("edit", false, Some(data)).action(), BatchAction::Edit);
    assert_eq!(batch("other", false, None).action(), BatchAction::Nothing);
    assert_eq!(BatchProcessor::missing_data_error(), "No EXIF data provided for edit operation");
}

#[test]
fn working_copies() {
    let b = batch("delete", true, None);
    assert_eq!(b.working_copy("/photos/a.jpg"), Some("/photos/a_modified.jpg".to_string()));
    assert_eq!(b.working_copy("/photos/b"), Some("/photos/b_modified".to_string()));
    assert_eq!(b.working_copy("c.tar.gz"), Some("c.tar_modified.gz".to_string()));
    assert_eq!(batch("delete", false, None).working_copy("/photos/a.jpg"), None);
}

#[test]
fn file_reports() {
    let b = batch("delete", false, None);
    let r = b.file_report(0, Ok(()));
    assert_eq!(r, (1, 3, "a.jpg".to_string(), "Success".to_string()));
    let r = b.file_report(2, Err("boom".to_string()));
    assert_eq!(r, (3, 3, "c.tar.gz".to_string(), "Error: boom".to_string()));
}

#[test]
fn file_outcome_takes_the_first_failed_step() {
    let err = |m: &str| -> Result<(), String> { Err(m.to_string()) };
    let b = batch("delete", true, None);
    assert_eq!(b.file_outcome(err("copy failed"), err("x"), err("y")), err("copy failed"));
    assert_eq!(b.file_outcome(Ok(()), err("no exiv2"), err("y")), err("no exiv2"));
    assert_eq!(b.file_outcome(Ok(()), Ok(()), err("rm failed")), err("rm failed"));
    assert_eq!(b.file_outcome(Ok(()), Ok(()), Ok(())), Ok(()));
    // Without preserving, no copy is made and its outcome is not read.
    let b = batch("delete", false, None);
    assert_eq!(b.file_outcome(err("not made"), Ok(()), Ok(())), Ok(()));
    // An edit without data fails once the processor started.
    let b = batch("edit", false, None);
    assert_eq!(b.file_outcome(Ok(()), err("no exiv2"), Ok(())), err("no exiv2"));
    assert_eq!(
        b.file_outcome(Ok(()), Ok(()), Ok(())),
        err("No EXIF data provided for edit operation")
    );
    // An unknown operation does nothing.
    let b = batch("other", false, None);
    assert_eq!(b.file_outcome(Ok(()), Ok(()), err("not run")), Ok(()));
}
