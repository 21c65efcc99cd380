use dactylo::ui::chrome::{content_width, rule_str};

#[test]
fn rule_repeats_to_width() {
    assert_eq!(rule_str(5), "┄┄┄┄┄");
    assert_eq!(rule_str(0), "");
}

#[test]
fn content_width_subtracts_both_margins() {
    assert_eq!(content_width(80), 76);
    assert_eq!(content_width(4), 0);
    assert_eq!(content_width(3), 0);
}
