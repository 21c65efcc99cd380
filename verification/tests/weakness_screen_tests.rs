use dactylo::mistakes::{Sort, Weakness, WeaknessProfile};
use dactylo::ui::weaknesses::{label_text, sessions_note, tally_text, WeaknessAction, WeaknessScreen};
use dactylo::ui::Key;

fn weakness(label: &str, total: u32, bad: u32) -> Weakness {
    Weakness {
        label: label.to_string(),
        total,
        bad,
    }
}

fn populated() -> WeaknessProfile {
    WeaknessProfile {
        keys: vec![weakness("b", 39, 12), weakness("p", 79, 15)],
        combos: Vec::new(),
        words: vec![weakness("because", 8, 5)],
        sessions: 12,
    }
}

#[test]
fn enter_launches_practice() {
    let mut s = WeaknessScreen::new(populated(), 3);
    assert!(matches!(
        s.handle_key(Key::Enter),
        Some(WeaknessAction::Practice)
    ));
}

#[test]
fn esc_and_w_go_back() {
    let mut s = WeaknessScreen::new(populated(), 3);
    assert!(matches!(s.handle_key(Key::Esc), Some(WeaknessAction::Back)));
    assert!(matches!(
        s.handle_key(Key::Char('w')),
        Some(WeaknessAction::Back)
    ));
}

#[test]
fn arrows_toggle_sort_order() {
    // 'a' has more misses but lower rate than 'b': Rate -> b first; Count -> a first.
    let profile = WeaknessProfile {
        keys: vec![weakness("a", 100, 9), weakness("b", 12, 6)],
        combos: Vec::new(),
        words: Vec::new(),
        sessions: 3,
    };
    let mut s = WeaknessScreen::new(profile, 3);
    assert_eq!(s.profile().keys[0].label, "b"); // default Rate
    s.handle_key(Key::Right);
    assert_eq!(s.profile().keys[0].label, "a"); // Count
    assert_eq!(s.sort(), Sort::Count);
    s.handle_key(Key::Left);
    assert_eq!(s.profile().keys[0].label, "b");
    assert_eq!(s.sort(), Sort::Rate);
}

#[test]
fn level_is_clamped_and_q_quits() {
    let mut s = WeaknessScreen::new(populated(), 7);
    assert_eq!(s.level(), 5);
    assert!(matches!(
        s.handle_key(Key::Char('q')),
        Some(WeaknessAction::Quit)
    ));
    assert!(s.handle_key(Key::Char('x')).is_none());
    assert_eq!(WeaknessScreen::new(populated(), 0).level(), 1);
}

#[test]
fn long_word_label_is_truncated() {
    assert_eq!(label_text("international", true), "internati…");
    assert_eq!(label_text("because", true), "because   ");
    assert_eq!(label_text("b", false), "b   ");
    assert_eq!(label_text("io", false), "io  ");
}

#[test]
fn counts_and_note_text() {
    assert_eq!(tally_text(5, 8), " (5/8)");
    assert_eq!(sessions_note(12), "based on your last 12 sessions");
}
