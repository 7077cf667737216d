use vera::exiv2_backend::{
    extract_warned_keys, split_whitespace_max, CompletedProcess, EXIFProcessor, ExifCount,
    ExifValue, Exiv2NotFoundError,
};

fn processor(path: &str) -> EXIFProcessor {
    match EXIFProcessor::new(path.to_string(), Some("/usr/bin/exiv2".to_string())) {
        Ok(p) => p,
        Err(_) => panic!("a processor with a binary"),
    }
}

fn done(code: i32, stdout: &str, stderr: &str) -> Result<CompletedProcess, String> {
    Ok(CompletedProcess { returncode: code, stdout: stdout.to_string(), stderr: stderr.to_string() })
}

#[test]
fn split_whitespace_max_keeps_the_rest() {
    let parts = split_whitespace_max(
        "  Exif.GPSInfo.GPSLatitude    Rational    3    43/1 28/1 2814/1000  ",
        3,
    );
    assert_eq!(
        parts,
        vec!["Exif.GPSInfo.GPSLatitude", "Rational", "3", "43/1 28/1 2814/1000  "]
    );
}

#[test]
fn split_whitespace_max_edge_cases() {
    assert!(split_whitespace_max("", 3).is_empty());
    assert!(split_whitespace_max(" \t \n", 3).is_empty());
    assert_eq!(split_whitespace_max("a b", 3), vec!["a", "b"]);
    assert_eq!(split_whitespace_max("a b c d e", 0), vec!["a b c d e"]);
    assert_eq!(split_whitespace_max("a b c d e", 1), vec!["a", "b c d e"]);
    assert_eq!(split_whitespace_max("a\u{a0}b", 3), vec!["a", "b"]);
}

#[test]
fn parse_print_output_reads_columns() {
    let out = "Exif.Image.Make    Ascii       6  NIKON\n\
               Exif.GPSInfo.GPSLatitude Rational 3  43/1 28/1 2814/1000\n\
               \n\
               short line\n\
               Exif.Image.Weird  Undefined  n/a  x  \n";
    let m = EXIFProcessor::parse_print_output(out);
    assert_eq!(m.len(), 3);
    let make = m.get("Exif.Image.Make").unwrap();
    assert_eq!(make.tag_type, "Ascii");
    assert_eq!(make.count, ExifCount::Int(6));
    assert_eq!(make.value, "NIKON");
    let lat = m.get("Exif.GPSInfo.GPSLatitude").unwrap();
    assert_eq!(lat.value, "43/1 28/1 2814/1000");
    let weird = m.get("Exif.Image.Weird").unwrap();
    assert_eq!(weird.count, ExifCount::Str("n/a".to_string()));
    assert_eq!(weird.value, "x");
    let keys: Vec<&String> = m.keys().collect();
    assert_eq!(keys, vec!["Exif.Image.Make", "Exif.GPSInfo.GPSLatitude", "Exif.Image.Weird"]);
}

#[test]
fn parse_print_output_repeated_key_keeps_place_and_last_value() {
    let out = "A t 1 first\r\nB t 2 second\r\nA t 3 third";
    let m = EXIFProcessor::parse_print_output(out);
    let keys: Vec<&String> = m.keys().collect();
    assert_eq!(keys, vec!["A", "B"]);
    assert_eq!(m.get("A").unwrap().value, "third");
    assert_eq!(m.get("A").unwrap().count, ExifCount::Int(3));
    assert_eq!(m.get("B").unwrap().value, "second");
}

#[test]
fn parse_print_output_count_overflow_reads_zero() {
    let m = EXIFProcessor::parse_print_output("K t 99999999999999999999999999 v\nL t 007 w\n");
    assert_eq!(m.get("K").unwrap().count, ExifCount::Int(0));
    assert_eq!(m.get("L").unwrap().count, ExifCount::Int(7));
}

#[test]
fn extract_merges_translations() {
    let p = processor("/tmp/photo.jpg");
    let raw = "Exif.Image.Make Ascii 6 NIKON\nExif.GPSInfo.GPSLatitude Rational 3 43/1 28/1 2814/1000\n";
    let translated = "Exif.GPSInfo.GPSLatitude Rational 3 43 deg 28' 2.81\"\n";
    let m = p.extract(done(0, raw, ""), done(0, translated, "")).unwrap();
    let keys: Vec<&String> = m.keys().collect();
    assert_eq!(keys, vec!["Exif.Image.Make", "Exif.GPSInfo.GPSLatitude"]);
    let lat = m.get("Exif.GPSInfo.GPSLatitude").unwrap();
    assert_eq!(lat.value, "43/1 28/1 2814/1000");
    assert_eq!(lat.translated, "43 deg 28' 2.81\"");
    let make = m.get("Exif.Image.Make").unwrap();
    assert_eq!(make.translated, "NIKON");
}

#[test]
fn extract_reports_failed_runs() {
    let p = processor("/tmp/photo.jpg");
    let e = p.extract(done(1, "", "  cannot open file \n"), done(0, "", "")).unwrap_err();
    assert_eq!(e, "Failed to extract EXIF data: exiv2 exited with code 1: cannot open file");
    let e = p.extract(done(0, "", ""), done(-1, "", "")).unwrap_err();
    assert_eq!(e, "Failed to extract EXIF data: exiv2 exited with code -1: ");
    let e = p.extract(Err("No such file or directory (os error 2)".to_string()), done(0, "", "")).unwrap_err();
    assert_eq!(e, "Failed to extract EXIF data: No such file or directory (os error 2)");
}

#[test]
fn warned_keys_are_parsed_from_stderr() {
    let stderr = "Warning: Exif.GPSInfo.GPSLatitude: Failed to read value\n\
                  Warning: Directory GPSInfo has an unexpected next pointer; ignored.\n\
                  Warning: Exif.Image.Make: bad\n\
                  Warning: Exif.GPSInfo.GPSLatitude: Failed again\n\
                  Error: something else\n\
                  Warning: :nokey\n";
    let mut keys = extract_warned_keys(stderr);
    keys.sort();
    assert_eq!(keys, vec!["Exif.GPSInfo.GPSLatitude", "Exif.Image.Make"]);
    assert!(extract_warned_keys("").is_empty());
}

#[test]
fn warned_keys_of_joined_outputs_are_the_union() {
    let a = "Warning: Exif.Image.Make: bad\r";
    let b = "Error: cannot write\nWarning: Exif.Image.Model: bad\nWarning: Exif.Image.Make: again";
    let joined = format!("{}\n{}", a, b);
    let mut keys = extract_warned_keys(&joined);
    keys.sort();
    let mut union = extract_warned_keys(a);
    for k in extract_warned_keys(b) {
        if !union.contains(&k) {
            union.push(k);
        }
    }
    union.sort();
    assert_eq!(keys, union);
    assert_eq!(keys, vec!["Exif.Image.Make", "Exif.Image.Model"]);
    let keys = extract_warned_keys(&format!("{}\n{}", a, "no warning here"));
    assert_eq!(keys, vec!["Exif.Image.Make"]);
}

#[test]
fn command_file_has_one_command_per_edit() {
    let data = vec![
        ("Exif.Image.Make".to_string(), ExifValue::Plain("NIKON".to_string())),
        (
            "Exif.GPSInfo.GPSLatitude".to_string(),
            ExifValue::Typed("Rational".to_string(), "43/1 28/1 2814/1000".to_string()),
        ),
    ];
    assert_eq!(
        EXIFProcessor::command_file(&data),
        "set Exif.Image.Make NIKON\nset Exif.GPSInfo.GPSLatitude Rational 43/1 28/1 2814/1000\n"
    );
    assert_eq!(EXIFProcessor::command_file(&Vec::new()), "\n");
}

#[test]
fn edit_reports_applied_and_failed_keys() {
    let p = processor("/tmp/photo.jpg");
    let data = vec![
        ("Exif.Image.Make".to_string(), ExifValue::Plain("NIKON".to_string())),
        ("Exif.GPSInfo.GPSLatitude".to_string(), ExifValue::Plain("bad".to_string())),
    ];
    let r = p
        .edit(&data, false, Ok(()), Ok(()), done(1, "", "Warning: Exif.GPSInfo.GPSLatitude: Failed to read\n"))
        .unwrap();
    assert_eq!(r.status, "partial");
    assert_eq!(r.applied, vec!["Exif.Image.Make"]);
    assert_eq!(r.failed, vec!["Exif.GPSInfo.GPSLatitude"]);
    assert_eq!(r.message, "Updated 1 tag(s), 1 failed");

    let r = p.edit(&data, true, Ok(()), Ok(()), done(0, "", "")).unwrap();
    assert_eq!(r.status, "success");
    assert_eq!(r.applied.len(), 2);
    assert!(r.failed.is_empty());
    assert_eq!(r.message, "Updated 2 tag(s)");
}

#[test]
fn edit_fails_when_nothing_applied() {
    let p = processor("/tmp/photo.jpg");
    let data = vec![("Exif.Image.Make".to_string(), ExifValue::Plain("x".to_string()))];
    let e = p
        .edit(&data, false, Ok(()), Ok(()), done(1, "", " Warning: nothing\nWarning: Exif.Image.Make: bad \n"))
        .unwrap_err();
    assert_eq!(e, "Failed to edit EXIF data: Warning: nothing\nWarning: Exif.Image.Make: bad");
    let e = p.edit(&Vec::new(), false, Ok(()), Ok(()), done(253, "", "  ")).unwrap_err();
    assert_eq!(e, "Failed to edit EXIF data: exit code 253");
    let r = p.edit(&Vec::new(), false, Ok(()), Ok(()), done(0, "", "")).unwrap();
    assert_eq!(r.status, "success");
    assert_eq!(r.message, "Updated 0 tag(s)");
}

#[test]
fn edit_fails_when_exiv2_fails_without_naming_a_key() {
    let p = processor("/tmp/photo.jpg");
    let data = vec![("Exif.Image.Make".to_string(), ExifValue::Plain("NIKON".to_string()))];
    let e = p
        .edit(
            &data,
            false,
            Ok(()),
            Ok(()),
            done(1, "", "a.jpg: Failed to open the data source: No such file or directory (errno = 2)\n"),
        )
        .unwrap_err();
    assert_eq!(
        e,
        "Failed to edit EXIF data: a.jpg: Failed to open the data source: No such file or directory (errno = 2)"
    );
}

#[test]
fn edit_reports_success_when_exiv2_exits_non_zero_silently() {
    let p = processor("/tmp/photo.jpg");
    let data = vec![("Exif.Image.Make".to_string(), ExifValue::Plain("NIKON".to_string()))];
    let r = p.edit(&data, false, Ok(()), Ok(()), done(1, "", "")).unwrap();
    assert_eq!(r.status, "success");
    assert_eq!(r.applied, vec!["Exif.Image.Make"]);
    assert!(r.failed.is_empty());
    assert_eq!(r.message, "Updated 1 tag(s)");
    let r = p.edit(&data, false, Ok(()), Ok(()), done(1, "", "  \n")).unwrap();
    assert_eq!(r.status, "success");
}

#[test]
fn edit_reports_failed_steps_in_order() {
    let p = processor("/tmp/photo.jpg");
    let data = vec![("K".to_string(), ExifValue::Plain("v".to_string()))];
    let e = p
        .edit(&data, true, Err("copy failed".to_string()), Err("write failed".to_string()), done(0, "", ""))
        .unwrap_err();
    assert_eq!(e, "Failed to edit EXIF data: copy failed");
    let r = p.edit(&data, false, Err("ignored".to_string()), Ok(()), done(0, "", "")).unwrap();
    assert_eq!(r.status, "success");
    let e = p.edit(&data, false, Ok(()), Err("write failed".to_string()), done(0, "", "")).unwrap_err();
    assert_eq!(e, "Failed to edit EXIF data: write failed");
    let e = p.edit(&data, false, Ok(()), Ok(()), Err("spawn failed".to_string())).unwrap_err();
    assert_eq!(e, "Failed to edit EXIF data: spawn failed");
}

#[test]
fn delete_outcomes() {
    let p = processor("/tmp/photo.jpg");
    let r = p.delete(false, Ok(()), done(0, "", "")).unwrap();
    assert_eq!(r.status, "success");
    assert_eq!(r.message, "EXIF data deleted successfully");
    let e = p.delete(true, Err("disk full".to_string()), done(0, "", "")).unwrap_err();
    assert_eq!(e, "Failed to delete EXIF data: disk full");
    let e = p.delete(false, Ok(()), done(2, "", "oops\n")).unwrap_err();
    assert_eq!(e, "Failed to delete EXIF data: exiv2 exited with code 2: oops");
}

#[test]
fn processor_arguments() {
    let p = processor("/tmp/a b.jpg");
    assert_eq!(p.print_args(false), vec!["-pe", "/tmp/a b.jpg"]);
    assert_eq!(p.print_args(true), vec!["-pt", "/tmp/a b.jpg"]);
    assert_eq!(p.modify_args("/tmp/c.cmds"), vec!["-m", "/tmp/c.cmds", "/tmp/a b.jpg"]);
    assert_eq!(p.delete_args(), vec!["-d", "a", "rm", "/tmp/a b.jpg"]);
    assert_eq!(p.backup_path(), "/tmp/a b.jpg.backup");
    assert_eq!(p.exiv2_bin(), "/usr/bin/exiv2");
    assert_eq!(p.image_path, "/tmp/a b.jpg");
}

#[test]
fn processor_needs_a_binary() {
    assert!(EXIFProcessor::new("x.jpg".to_string(), None).is_err());
    let msg = Exiv2NotFoundError.message();
    assert!(msg.starts_with("exiv2 binary not found on PATH."));
    assert!(msg.ends_with("and ensure it's on PATH."));
}

#[test]
fn run_error_checks_exit_code() {
    assert_eq!(EXIFProcessor::run_error(&done(0, "", "x"), true), None);
    assert_eq!(EXIFProcessor::run_error(&done(3, "", "x"), false), None);
    assert_eq!(
        EXIFProcessor::run_error(&done(3, "", " x "), true),
        Some("exiv2 exited with code 3: x".to_string())
    );
}

#[test]
fn count_display() {
    assert_eq!(ExifCount::Int(0).to_display(), "0");
    assert_eq!(ExifCount::Int(1234567).to_display(), "1234567");
    assert_eq!(ExifCount::Str("n/a".to_string()).to_display(), "n/a");
}

#[test]
fn printed_counts_read_back() {
    for n in [0usize, 7, 10, 4096, usize::MAX] {
        let line = format!("Exif.Image.Tag Short {} v", ExifCount::Int(n).to_display());
        let m = EXIFProcessor::parse_print_output(&line);
        assert_eq!(m.get("Exif.Image.Tag").unwrap().count, ExifCount::Int(n));
    }
}

#[test]
fn command_file_reads_back_as_its_commands() {
    let data = vec![
        ("Exif.Image.Make".to_string(), ExifValue::Plain("NIKON D90".to_string())),
        ("Exif.Image.Model".to_string(), ExifValue::Plain(String::new())),
        ("Exif.Photo.FNumber".to_string(), ExifValue::Typed("Rational".to_string(), "28/10".to_string())),
    ];
    let text = EXIFProcessor::command_file(&data);
    let lines: Vec<&str> = text.lines().collect();
    assert_eq!(
        lines,
        vec!["set Exif.Image.Make NIKON D90", "set Exif.Image.Model ", "set Exif.Photo.FNumber Rational 28/10"]
    );
}

#[test]
fn edit_keys_must_be_distinct() {
    let data = vec![
        ("Exif.Image.Make".to_string(), ExifValue::Plain("NIKON".to_string())),
        ("Exif.Image.Model".to_string(), ExifValue::Plain("D90".to_string())),
    ];
    assert!(EXIFProcessor::has_distinct_keys(&data));
    assert!(EXIFProcessor::has_distinct_keys(&Vec::new()));
    let twice = vec![
        ("Exif.Image.Make".to_string(), ExifValue::Plain("NIKON".to_string())),
        ("Exif.Image.Model".to_string(), ExifValue::Plain("D90".to_string())),
        ("Exif.Image.Make".to_string(), ExifValue::Plain("Canon".to_string())),
    ];
    assert!(!EXIFProcessor::has_distinct_keys(&twice));
}

#[test]
fn split_whitespace_max_is_the_whitespace_split_cut_short() {
    let s = "  a bb\tccc  dddd \n e  ";
    let w: Vec<&str> = s.split_whitespace().collect();
    for k in 0..8 {
        let r = split_whitespace_max(s, k);
        if w.len() <= k {
            assert_eq!(r, w);
        } else {
            assert_eq!(r.len(), k + 1);
            assert_eq!(&r[..k], &w[..k]);
            let last = &r[k];
            assert!(s.ends_with(last.as_str()));
            let rest: Vec<&str> = last.split_whitespace().collect();
            assert_eq!(rest, &w[k..]);
        }
    }
    assert_eq!(split_whitespace_max(s, 2), vec!["a", "bb", "ccc  dddd \n e  "]);
}
