use strix::git::diff::{diff_lines, file_diff, is_binary, FileDiff, LineKind};
use strix::git::history::{commit_files, parse_name_status, parse_numstat, ChangeKind};
use strix::git::review::{parse_range, RangeError, RangeForm};
use strix::git::status::{parse, parse_input_checked, Change};
use strix::text::{lossy_string, push_decimal};

const STATUS: &[u8] = b"# branch.oid 0123456789abcdef0123456789abcdef01234567\0# branch.head main\01 M. N... 100644 100644 100644 aaaa bbbb src/a file.rs\01 .M N... 100644 100644 100644 aaaa bbbb b.rs\02 R. N... 100644 100644 100644 aaaa bbbb R100 new.rs\0old.rs\0u UU N... 100644 100644 100644 100644 aaaa bbbb cccc conflict.rs\0? notes.txt\0";

#[test]
fn status_parses_branch_and_entries() {
    assert!(parse_input_checked(STATUS));
    let status = parse(STATUS);
    assert_eq!(status.branch.as_deref(), Some("main"));
    assert!(!status.detached);
    assert_eq!(status.head_oid.as_deref(), Some("0123456789abcdef0123456789abcdef01234567"));
    assert_eq!(status.staged.len(), 2);
    assert_eq!(status.staged[0].path, "src/a file.rs");
    assert_eq!(status.staged[0].change, Change::Modified);
    assert_eq!(status.staged[1].path, "new.rs");
    assert_eq!(status.staged[1].orig_path.as_deref(), Some("old.rs"));
    assert_eq!(status.staged[1].change, Change::Renamed);
    assert_eq!(status.unstaged.len(), 3);
    assert_eq!(status.unstaged[0].path, "b.rs");
    assert_eq!(status.unstaged[1].path, "conflict.rs");
    assert_eq!(status.unstaged[1].change, Change::Conflicted);
    assert_eq!(status.unstaged[2].path, "notes.txt");
    assert_eq!(status.unstaged[2].change, Change::Untracked);
    assert!(!status.is_clean());
    assert_eq!(status.total(), 5);
    assert_eq!(status.head_label().as_deref(), Some("main"));
    assert_eq!(status.staged[1].display_path(), "old.rs → new.rs");
    assert_eq!(Change::Untracked.marker(), '?');
}

#[test]
fn status_detached_head_label() {
    let bytes = b"# branch.oid 0123456789abcdef\0# branch.head (detached)\0";
    let status = parse(bytes);
    assert!(status.detached);
    assert!(status.branch.is_none());
    assert!(status.is_clean());
    assert_eq!(status.head_label().as_deref(), Some("detached @ 01234567"));
}

#[test]
fn status_input_check_rejects_short_untracked_record() {
    assert!(!parse_input_checked(b"?\0"));
    assert!(parse_input_checked(b""));
    assert_eq!(parse(b"").total(), 0);
}

#[test]
fn commit_files_join_name_status_with_numstat() {
    let ns = b"M\0src/a.rs\0R087\0old.rs\0new.rs\0A\0logo.png\0";
    let num = b"3\t1\tsrc/a.rs\x005\t2\t\0old.rs\0new.rs\0-\t-\tlogo.png\0";
    let files = commit_files(ns, num);
    assert_eq!(files.len(), 3);
    assert_eq!(files[0].path, "src/a.rs");
    assert_eq!(files[0].change, ChangeKind::Modified);
    assert_eq!((files[0].stat.added, files[0].stat.deleted, files[0].stat.binary), (3, 1, false));
    assert_eq!(files[1].path, "new.rs");
    assert_eq!(files[1].orig_path.as_deref(), Some("old.rs"));
    assert_eq!(files[1].change, ChangeKind::Renamed);
    assert_eq!((files[1].stat.added, files[1].stat.deleted), (5, 2));
    assert_eq!(files[1].display_path(), "old.rs → new.rs");
    assert!(files[2].stat.binary);
    assert_eq!(files[2].change.marker(), 'A');
    assert_eq!(parse_name_status(ns).len(), 3);
    assert_eq!(parse_numstat(num).len(), 3);
}

#[test]
fn commit_files_without_numstat_have_zero_counts() {
    let files = commit_files(b"D\0gone.rs\0", b"");
    assert_eq!(files.len(), 1);
    assert_eq!(files[0].change, ChangeKind::Deleted);
    assert_eq!((files[0].stat.added, files[0].stat.deleted, files[0].stat.binary), (0, 0, false));
}

#[test]
fn range_forms_parse() {
    match parse_range("main...feature") {
        Ok(RangeForm::ThreeDot { a, b }) => {
            assert_eq!(a, "main");
            assert_eq!(b, "feature");
        }
        _ => panic!("expected a three-dot range"),
    }
    match parse_range("main..") {
        Ok(RangeForm::TwoDot { a, b }) => {
            assert_eq!(a, "main");
            assert_eq!(b, "HEAD");
        }
        _ => panic!("expected a two-dot range"),
    }
    match parse_range("  main  ") {
        Ok(RangeForm::Single { rev }) => assert_eq!(rev, "main"),
        _ => panic!("expected a single rev"),
    }
    assert!(matches!(parse_range("   "), Err(RangeError::Empty)));
}

#[test]
fn binary_detection_scans_for_nul() {
    assert!(is_binary(b"abc\0def"));
    assert!(!is_binary(b"plain text"));
    let mut late = vec![b'a'; 8000];
    late.push(0);
    assert!(!is_binary(&late));
}

#[test]
fn line_diff_rows_and_hunk_header() {
    let rows = diff_lines("a\nb\nc\n", "a\nB\nc\nd\n");
    let kinds: Vec<LineKind> = rows.iter().map(|r| r.kind).collect();
    assert_eq!(
        kinds,
        vec![
            LineKind::Hunk,
            LineKind::Context,
            LineKind::Deletion,
            LineKind::Addition,
            LineKind::Context,
            LineKind::Addition
        ]
    );
    assert_eq!(rows[0].text, "@@ -1,3 +1,4 @@");
    assert_eq!((rows[1].old_no, rows[1].new_no), (Some(1), Some(1)));
    assert_eq!(rows[2].text, "b");
    assert_eq!((rows[2].old_no, rows[2].new_no), (Some(2), None));
    assert_eq!(rows[3].text, "B");
    assert_eq!((rows[3].old_no, rows[3].new_no), (None, Some(2)));
    assert_eq!(rows[5].text, "d");
    assert_eq!(rows[5].new_no, Some(4));
}

#[test]
fn line_diff_of_equal_texts_is_empty() {
    assert!(diff_lines("same\n", "same\n").is_empty());
    let rows = diff_lines("x\r\n", "");
    assert_eq!(rows.len(), 2);
    assert_eq!(rows[1].text, "x");
}

#[test]
fn lossy_decoding_and_decimals() {
    assert_eq!(lossy_string(b"caf\xc3\xa9"), "café");
    assert_eq!(lossy_string(b"a\xffb"), "a\u{fffd}b");
    let mut s = String::from("n=");
    push_decimal(&mut s, 40213);
    assert_eq!(s, "n=40213");
    let mut z = String::new();
    push_decimal(&mut z, 0);
    assert_eq!(z, "0");
}

#[test]
fn merge_base_forms_are_the_bare_and_three_dot_ones() {
    assert!(parse_range("main...feature").unwrap().uses_merge_base());
    assert!(parse_range("main").unwrap().uses_merge_base());
    assert!(!parse_range("main..feature").unwrap().uses_merge_base());
}

#[test]
fn file_diffs_are_binary_or_decoded_line_diffs() {
    assert_eq!(file_diff(b"a\0b", b"text\n"), FileDiff::Binary);
    assert_eq!(file_diff(b"text\n", b"\0"), FileDiff::Binary);
    match file_diff(b"one\ntwo\n", b"one\n2\n") {
        FileDiff::Text(lines) => {
            let texts: Vec<&str> = lines.iter().map(|l| l.text.as_str()).collect();
            assert_eq!(texts, vec!["@@ -1,2 +1,2 @@", "one", "two", "2"]);
            assert_eq!(lines[2].kind, LineKind::Deletion);
            assert_eq!(lines[3].kind, LineKind::Addition);
        }
        FileDiff::Binary => panic!("text content is not binary"),
    }
}
