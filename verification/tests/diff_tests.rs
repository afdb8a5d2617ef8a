use snippet_telemetry::diff::{get_add_del_from_texts, unchanged_percentage, ChangeKind, DiffChange};
use snippet_telemetry::heuristic::{classify_changes, if_head_tail_equal_return_added_text};
use snippet_telemetry::approx::unchanged_percentage_approx;
use snippet_telemetry::text::extract_extension_or_filename;

fn change(kind: ChangeKind, s: &str) -> DiffChange {
    DiffChange { kind, text: s.chars().collect() }
}

#[test]
fn single_attributable_block_round_trip() {
    // the line diff replaces "foo\n" with "foobar\n": the deleted line
    // carries a line terminator, so one trailing terminator is stripped
    // from the collected text
    let before = "foo\n".to_string();
    let after = "foobar\n".to_string();
    let grey = "bar\n".to_string();
    let (ok, added) = if_head_tail_equal_return_added_text(&before, &after, &grey);
    assert!(ok);
    assert_eq!(added, "bar");
}

#[test]
fn disjoint_edit_rejection() {
    let before = "line1\nline2\n".to_string();
    let after = "LINE1\nline2modified\n".to_string();
    let grey = "x".to_string();
    let (ok, added) = if_head_tail_equal_return_added_text(&before, &after, &grey);
    assert!(!ok);
    assert_eq!(added, "");
}

#[test]
fn pure_insertion_is_attributable() {
    let before = "alpha\n".to_string();
    let after = "alpha\nbeta\n".to_string();
    let grey = "beta\n".to_string();
    let (ok, added) = if_head_tail_equal_return_added_text(&before, &after, &grey);
    assert!(ok);
    assert_eq!(added, "beta\n");
}

#[test]
fn classify_rejects_second_insertion_after_close() {
    let changes = vec![
        change(ChangeKind::Insert, "one\n"),
        change(ChangeKind::Equal, "keep\n"),
        change(ChangeKind::Insert, "two\n"),
    ];
    let (ok, added) = classify_changes(&changes, true);
    assert!(!ok);
    assert!(added.is_empty());
}

#[test]
fn classify_accepts_single_insertion() {
    let changes = vec![
        change(ChangeKind::Equal, "head\n"),
        change(ChangeKind::Insert, "body\n"),
        change(ChangeKind::Equal, "tail\n"),
    ];
    let (ok, added) = classify_changes(&changes, false);
    assert!(ok);
    let s: String = added.iter().collect();
    assert_eq!(s, "body\n");
}

#[test]
fn classify_rejects_second_nonwhitespace_deletion() {
    let changes = vec![
        change(ChangeKind::Delete, "one\n"),
        change(ChangeKind::Delete, "two\n"),
    ];
    let (ok, _) = classify_changes(&changes, false);
    assert!(!ok);
}

#[test]
fn classify_insert_must_extend_deleted_prefix() {
    let changes = vec![
        change(ChangeKind::Delete, "foo\n"),
        change(ChangeKind::Insert, "unrelated\n"),
    ];
    let (ok, _) = classify_changes(&changes, false);
    assert!(!ok);
}

#[test]
fn classify_strips_carriage_returns() {
    let changes = vec![change(ChangeKind::Insert, "a\r\nb\r\n")];
    let (ok, added) = classify_changes(&changes, true);
    assert!(ok);
    let s: String = added.iter().collect();
    assert_eq!(s, "a\nb\n");
}

#[test]
fn similarity_bounds_hold() {
    let a = "abc".to_string();
    let b = "axc".to_string();
    let r = unchanged_percentage(&a, &b);
    assert!(r.numerator <= r.denominator);
    assert_eq!(r.denominator, 3);
    assert_eq!(r.numerator, 2);
}

#[test]
fn similarity_of_equal_nonempty_is_one() {
    let a = "hello world".to_string();
    let r = unchanged_percentage(&a, &a);
    assert_eq!(r.numerator, r.denominator);
    assert!(r.denominator > 0);
}

#[test]
fn similarity_of_two_empty_is_zero() {
    let a = "".to_string();
    let r = unchanged_percentage(&a, &a);
    assert_eq!(r.numerator, 0);
    assert_eq!(r.denominator, 0);
}

#[test]
fn similarity_of_disjoint_texts() {
    let a = "aaa".to_string();
    let b = "bbb".to_string();
    let r = unchanged_percentage(&a, &b);
    assert_eq!(r.numerator, 0);
    assert_eq!(r.denominator, 3);
}

#[test]
fn add_del_reports_both_sides() {
    let a = "one\ntwo\nthree\n".to_string();
    let b = "one\nTWO\nthree\n".to_string();
    let (added, removed) = get_add_del_from_texts(&a, &b);
    assert_eq!(added, "TWO\n");
    assert_eq!(removed, "two\n");
}

#[test]
fn add_del_strips_carriage_returns() {
    let a = "one\n".to_string();
    let b = "one\nnew\r\n".to_string();
    let (added, removed) = get_add_del_from_texts(&a, &b);
    assert_eq!(added, "new\n");
    assert_eq!(removed, "");
}

#[test]
fn approx_similarity_exact_match() {
    let a = "".to_string();
    let b = "hello\n".to_string();
    let grey = "hello\n".to_string();
    let r = unchanged_percentage_approx(&a, &b, &grey);
    assert_eq!(r.numerator, 5);
    assert_eq!(r.denominator, 5);
}

#[test]
fn approx_similarity_no_added_text_is_zero() {
    let a = "same\n".to_string();
    let b = "same\n".to_string();
    let grey = "anything\n".to_string();
    let r = unchanged_percentage_approx(&a, &b, &grey);
    assert_eq!(r.numerator, 0);
}

#[test]
fn approx_similarity_partial_line_match() {
    let a = "".to_string();
    let b = "helXo\n".to_string();
    let grey = "hello\n".to_string();
    let r = unchanged_percentage_approx(&a, &b, &grey);
    assert_eq!(r.numerator, 4);
    assert_eq!(r.denominator, 5);
}

#[test]
fn extension_extracted_from_uri() {
    assert_eq!(
        extract_extension_or_filename("https://example.com/path/to/file.txt"),
        ".txt"
    );
}

#[test]
fn filename_without_extension_is_kept_whole() {
    assert_eq!(
        extract_extension_or_filename("https://example.com/path/to/file_without_extension"),
        "file_without_extension"
    );
}

#[test]
fn extension_of_bare_name() {
    assert_eq!(extract_extension_or_filename("archive.tar.gz"), ".gz");
    assert_eq!(extract_extension_or_filename(""), "");
}
