use vera::dialogs::{open_file_dialog, DialogBackend, DialogError, FileDialogResult, IMAGE_GLOB};

#[test]
fn dialog_error_keeps_its_message() {
    assert_eq!(DialogError::new("boom").message, "boom");
}

#[test]
fn zenity_is_preferred() {
    let c = open_file_dialog(false, None, true, true, Some("/home/u".to_string())).unwrap();
    assert_eq!(c.backend, DialogBackend::Zenity);
    assert_eq!(c.program, "zenity");
    assert_eq!(
        c.args,
        vec![
            "--file-selection".to_string(),
            "--title".to_string(),
            "Select Image".to_string(),
            "--file-filter".to_string(),
            format!("Image Files | {}", IMAGE_GLOB),
            "--file-filter".to_string(),
            "All Files | *".to_string(),
        ]
    );
    let c = open_file_dialog(true, Some("Pick".to_string()), true, false, None).unwrap();
    assert_eq!(c.args[2], "Pick");
    assert_eq!(&c.args[7..], &["--multiple".to_string(), "--separator".to_string(), "\n".to_string()]);
}

#[test]
fn kdialog_is_the_fallback() {
    let c = open_file_dialog(true, None, false, true, None).unwrap();
    assert_eq!(c.backend, DialogBackend::Kdialog);
    assert_eq!(c.program, "kdialog");
    assert_eq!(
        c.args,
        vec![
            "--getopenfilename".to_string(),
            "~".to_string(),
            IMAGE_GLOB.to_string(),
            "--multiple".to_string(),
            "--separate-output".to_string(),
            "--title".to_string(),
            "Select Images".to_string(),
        ]
    );
    let c = open_file_dialog(false, None, false, true, Some("/home/u".to_string())).unwrap();
    assert_eq!(c.args[1], "/home/u");
    assert_eq!(c.args.len(), 5);
}

#[test]
fn no_backend_is_an_error() {
    let e = open_file_dialog(false, None, false, false, None).unwrap_err();
    assert_eq!(e.message, "No file dialog backend found. Install zenity or kdialog.");
}

#[test]
fn dialog_answers() {
    let single = open_file_dialog(false, None, true, false, None).unwrap();
    let multi = open_file_dialog(true, None, true, false, None).unwrap();
    match single.finish(Ok((0, "  /a/b.jpg\n/c.jpg\n".to_string()))) {
        FileDialogResult::Single(Some(p)) => assert_eq!(p, "/a/b.jpg"),
        other => panic!("unexpected {:?}", other),
    }
    match multi.finish(Ok((0, "/a.jpg\n\n/b c.jpg\n".to_string()))) {
        FileDialogResult::Multiple(ps) => assert_eq!(ps, vec!["/a.jpg", "/b c.jpg"]),
        other => panic!("unexpected {:?}", other),
    }
    match multi.finish(Ok((1, "/a.jpg".to_string()))) {
        FileDialogResult::Multiple(ps) => assert!(ps.is_empty()),
        other => panic!("unexpected {:?}", other),
    }
    match single.finish(Ok((0, " \n ".to_string()))) {
        FileDialogResult::Single(None) => {}
        other => panic!("unexpected {:?}", other),
    }
    match single.finish(Ok((-1, "/x".to_string()))) {
        FileDialogResult::Single(None) => {}
        other => panic!("unexpected {:?}", other),
    }
    match single.finish(Err("not found".to_string())) {
        FileDialogResult::Single(None) => {}
        other => panic!("unexpected {:?}", other),
    }
    let k = open_file_dialog(true, None, false, true, None).unwrap();
    match k.finish(Err("nope".to_string())) {
        FileDialogResult::Multiple(ps) => assert!(ps.is_empty()),
        other => panic!("unexpected {:?}", other),
    }
}
