use vera::controller::{
    batch_line, batch_list_message, contains_text, display_value, exif_rows, extracted_message,
    failure_message, is_common, remove_nul, save_message, ExifRowData, ExifSession, FailedAction,
};
use vera::exiv2_backend::{EXIFProcessor, EditResult, ExifValue};

fn row(tag: &str, value: &str) -> ExifRowData {
    ExifRowData { tag: tag.to_string(), value: value.to_string(), is_common: false }
}

#[test]
fn common_tags() {
    assert!(is_common("Exif.Image.Make"));
    assert!(is_common("Exif.Photo.FNumber"));
    assert!(is_common("Exif.GPSInfo.GPSLatitude"));
    assert!(!is_common("Exif.GPSInfo"));
    assert!(!is_common("Exif.Image.Software"));
}

#[test]
fn displayed_values() {
    assert_eq!(remove_nul("a\0b\0"), "ab");
    assert_eq!(display_value("NIKON\0"), "NIKON");
    let long: String = std::iter::repeat('x').take(305).collect();
    let shown = display_value(&long);
    let head: String = std::iter::repeat('x').take(300).collect();
    assert_eq!(shown, format!("{}… [5 more chars]", head));
    let exact: String = std::iter::repeat('é').take(300).collect();
    assert_eq!(display_value(&exact), exact);
}

#[test]
fn rows_follow_the_tags() {
    let m = EXIFProcessor::parse_print_output(
        "Exif.Image.Make Ascii 6 NIKON\nExif.Image.Software Ascii 4 GIMP\n",
    );
    let rows = exif_rows(&m);
    assert_eq!(rows.len(), 2);
    assert_eq!(rows[0].tag, "Exif.Image.Make");
    assert!(rows[0].is_common);
    assert_eq!(rows[1].value, "GIMP");
    assert!(!rows[1].is_common);
}

#[test]
fn messages() {
    assert_eq!(extracted_message(12), "EXIF extracted (12) tags");
    let r = EditResult {
        status: "partial".to_string(),
        applied: vec!["a".to_string(), "b".to_string()],
        failed: vec!["c".to_string()],
        message: String::new(),
    };
    assert_eq!(save_message(&r), "Saved 2 change(s) | 1 skipped");
    let r = EditResult { status: "success".to_string(), applied: vec![], failed: vec![], message: String::new() };
    assert_eq!(save_message(&r), "Saved 0 change(s)");
    assert_eq!(batch_line(0, 2, "/x/a.jpg", &Ok(())), "(1/2) a.jpg: Deleted");
    assert_eq!(batch_line(1, 2, "/x/b.jpg", &Err("bad".to_string())), "(2/2) b.jpg: ERROR - bad");
    assert_eq!(batch_list_message(3), "Batch list: 3 images");
}

#[test]
fn substring_search() {
    assert!(contains_text("exif.image.make", "image"));
    assert!(contains_text("abc", ""));
    assert!(!contains_text("ab", "abc"));
    assert!(contains_text("aab", "ab"));
}

#[test]
fn edits_read_back_and_overlay() {
    let mut s = ExifSession::new();
    s.all_exif_rows = vec![row("Exif.Image.Make", "NIKON"), row("Exif.Image.Model", "D90")];
    s.exif_value_edited(0, "Canon\0");
    s.exif_value_edited(5, "ignored");
    assert_eq!(s.edit_for(&"Exif.Image.Make".to_string()), Some("Canon".to_string()));
    assert_eq!(s.edit_for(&"Exif.Image.Model".to_string()), None);
    s.exif_value_edited(0, "Sony");
    assert_eq!(s.exif_edits.len(), 1);
    assert_eq!(s.edit_for(&"Exif.Image.Make".to_string()), Some("Sony".to_string()));
    let shown = s.overlay_edits(&s.all_exif_rows);
    assert_eq!(shown[0].value, "Sony");
    assert_eq!(shown[1].value, "D90");
    let saved = s.edits_to_save();
    assert_eq!(saved.len(), 1);
    assert_eq!(saved[0].0, "Exif.Image.Make");
    match &saved[0].1 {
        ExifValue::Plain(v) => assert_eq!(v, "Sony"),
        other => panic!("unexpected {:?}", other),
    }
    s.clear_edits();
    assert!(s.exif_edits.is_empty());
}

#[test]
fn filter_ignores_case() {
    let mut s = ExifSession::new();
    s.all_exif_rows = vec![row("Exif.Image.Make", "NIKON"), row("Exif.Image.Model", "D90")];
    s.exif_value_edited(1, "Edited");
    assert_eq!(s.apply_filter("").len(), 2);
    let f = s.apply_filter("nikon");
    assert_eq!(f.len(), 1);
    assert_eq!(f[0].tag, "Exif.Image.Make");
    let f = s.apply_filter("MODEL");
    assert_eq!(f.len(), 1);
    assert_eq!(f[0].value, "Edited");
    assert!(s.apply_filter("zzz").is_empty());
}

#[test]
fn batch_list_has_no_duplicates() {
    let mut s = ExifSession::new();
    let paths = vec!["/p/a.jpg".to_string(), "".to_string(), "/p/b.jpg".to_string(), "/p/a.jpg".to_string()];
    let added = s.add_batch_files(&paths);
    assert_eq!(added, vec!["a.jpg", "b.jpg"]);
    assert_eq!(s.batch_files, vec!["/p/a.jpg", "/p/b.jpg"]);
    let added = s.add_batch_files(&paths);
    assert!(added.is_empty());
    assert_eq!(s.batch_files.len(), 2);
    s.clear_batch_list();
    assert!(s.batch_files.is_empty());
}

#[test]
fn handlers_refuse_without_an_image_or_work() {
    let mut s = ExifSession::new();
    assert_eq!(s.extract_refusal(), Some("No image selected".to_string()));
    assert_eq!(s.save_refusal(), Some("No image loaded".to_string()));
    assert_eq!(s.batch_refusal(), Some("No images in batch list".to_string()));
    s.current_path = "/tmp/a.jpg".to_string();
    assert_eq!(s.extract_refusal(), None);
    assert_eq!(s.save_refusal(), Some("No changes to save".to_string()));
    s.exif_edits.push(("Exif.Image.Make".to_string(), "NIKON".to_string()));
    assert_eq!(s.save_refusal(), None);
    s.add_batch_files(&vec!["/tmp/a.jpg".to_string()]);
    assert_eq!(s.batch_refusal(), None);
}

#[test]
fn failures_are_reported_by_action() {
    assert_eq!(failure_message(FailedAction::Process, "boom"), "Error: boom");
    assert_eq!(failure_message(FailedAction::Save, "disk full"), "Save error: disk full");
    assert_eq!(failure_message(FailedAction::Gps, "no fix"), "GPS Error: no fix");
}

#[test]
fn saved_edits_have_distinct_keys() {
    let mut s = ExifSession::new();
    s.exif_edits.push(("Exif.Image.Make".to_string(), "NIKON".to_string()));
    s.exif_edits.push(("Exif.Image.Model".to_string(), "D90".to_string()));
    let edits = s.edits_to_save();
    assert!(EXIFProcessor::has_distinct_keys(&edits));
    assert_eq!(edits.len(), 2);
}

#[test]
fn delete_and_map_need_an_open_image() {
    let mut s = ExifSession::new();
    assert!(!s.can_delete());
    assert!(!s.can_open_map(true));
    s.current_path = "/tmp/a.jpg".to_string();
    assert!(s.can_delete());
    assert!(s.can_open_map(true));
    assert!(!s.can_open_map(false));
}
