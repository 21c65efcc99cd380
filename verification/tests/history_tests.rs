use dactylo::history::{decimal_string, history_warning, records_after, should_record};
use dactylo::jsonl::{content_lines, keep_parsed};

#[test]
fn missing_home_warns_only_when_saving() {
    let completed = history_warning(false, false, 0, None);
    assert!(completed.is_some());
    let cancelled = history_warning(false, true, 0, None);
    assert!(cancelled.is_none());
}

#[test]
fn corrupt_lines_are_reported_even_for_cancelled_runs() {
    let w = history_warning(true, true, 1, None).unwrap();
    assert!(w.contains("corrupt"));
    assert_eq!(w, "1 corrupt history line(s) ignored");
}

#[test]
fn save_errors_and_corrupt_lines_are_joined() {
    assert_eq!(
        history_warning(true, false, 12, Some("disk full")).unwrap(),
        "result not saved: disk full · 12 corrupt history line(s) ignored"
    );
    assert_eq!(
        history_warning(true, false, 0, Some("denied")).unwrap(),
        "result not saved: denied"
    );
    assert!(history_warning(true, false, 0, None).is_none());
    assert_eq!(
        history_warning(false, false, 3, None).unwrap(),
        "result not saved: could not locate home directory"
    );
}

#[test]
fn decimals() {
    assert_eq!(decimal_string(0), "0");
    assert_eq!(decimal_string(7), "7");
    assert_eq!(decimal_string(10), "10");
    assert_eq!(decimal_string(1234567), "1234567");
    assert_eq!(decimal_string(u64::MAX), "18446744073709551615");
}

#[test]
fn content_lines_skip_blank_lines() {
    assert_eq!(
        content_lines("{\"a\":1}\n\n   \n{\"a\":2}\r\nnot json\n"),
        vec!["{\"a\":1}", "{\"a\":2}", "not json"]
    );
    assert_eq!(content_lines("last\r"), vec!["last\r"]);
    assert!(content_lines("").is_empty());
    assert!(content_lines("\n\n").is_empty());
}

#[test]
fn parsed_lines_are_kept_in_order_and_failures_counted() {
    let (records, skipped) = keep_parsed(vec![Some(1), None, Some(2), None, None]);
    assert_eq!(records, vec![1, 2]);
    assert_eq!(skipped, 3);
    let (records, skipped) = keep_parsed::<u8>(Vec::new());
    assert!(records.is_empty());
    assert_eq!(skipped, 0);
}

#[test]
fn cancelled_runs_are_not_recorded() {
    assert!(should_record(true, false));
    assert!(!should_record(true, true));
    assert!(!should_record(false, false));
    assert!(!should_record(false, true));
}

#[test]
fn saved_record_is_shown_after_the_loaded_ones() {
    assert_eq!(records_after(vec![1, 2], 3, true), vec![1, 2, 3]);
    assert_eq!(records_after(vec![1, 2], 3, false), vec![1, 2]);
    assert_eq!(records_after(Vec::new(), 7, true), vec![7]);
}
