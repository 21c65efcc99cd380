use dactylo::config::Settings;
use dactylo::ui::results::{level_count_text, tab_label, ResultsAction, ResultsScreen};
use dactylo::ui::Key;

fn screen(level: u8) -> ResultsScreen {
    ResultsScreen::new(
        Settings {
            duration_secs: 60,
            level,
        },
        false,
    )
}

#[test]
fn starts_on_summary_view() {
    assert!(!screen(3).in_history());
}

#[test]
fn initial_selected_level_is_played_level() {
    assert_eq!(screen(4).selected_level(), 4);
}

#[test]
fn summary_enter_restarts() {
    assert!(matches!(
        screen(3).handle_key(Key::Enter),
        Some(ResultsAction::Restart)
    ));
}

#[test]
fn summary_s_opens_settings() {
    assert!(matches!(
        screen(3).handle_key(Key::Char('s')),
        Some(ResultsAction::ChangeSettings)
    ));
    assert!(matches!(
        screen(3).handle_key(Key::Char('S')),
        Some(ResultsAction::ChangeSettings)
    ));
}

#[test]
fn summary_q_and_esc_quit() {
    assert!(matches!(
        screen(3).handle_key(Key::Char('q')),
        Some(ResultsAction::Quit)
    ));
    assert!(matches!(
        screen(3).handle_key(Key::Esc),
        Some(ResultsAction::Quit)
    ));
}

#[test]
fn summary_arrows_and_unbound_keys_ignored() {
    let mut s = screen(3);
    assert!(s.handle_key(Key::Left).is_none());
    assert!(s.handle_key(Key::Right).is_none());
    assert!(s.handle_key(Key::Char('x')).is_none());
    assert_eq!(s.selected_level(), 3); // arrows do nothing on the summary
    assert!(!s.in_history());
}

#[test]
fn h_opens_history_and_esc_or_h_returns() {
    let mut s = screen(3);
    assert!(s.handle_key(Key::Char('h')).is_none());
    assert!(s.in_history());
    assert!(s.handle_key(Key::Esc).is_none());
    assert!(!s.in_history());
    // `h` toggles back to history again
    s.handle_key(Key::Char('h'));
    assert!(s.in_history());
    // ...and `h` from history returns to the summary
    s.handle_key(Key::Char('h'));
    assert!(!s.in_history());
}

#[test]
fn history_left_right_change_and_clamp_level() {
    let mut s = screen(3);
    s.handle_key(Key::Char('h')); // enter history
    assert!(s.handle_key(Key::Right).is_none());
    assert_eq!(s.selected_level(), 4);
    s.handle_key(Key::Right);
    s.handle_key(Key::Right); // clamp at 5
    assert_eq!(s.selected_level(), 5);
    for _ in 0..6 {
        s.handle_key(Key::Left);
    }
    assert_eq!(s.selected_level(), 1); // clamp at 1
}

#[test]
fn history_q_quits_but_esc_goes_back() {
    let mut s = screen(3);
    s.handle_key(Key::Char('h'));
    assert!(matches!(
        s.handle_key(Key::Char('q')),
        Some(ResultsAction::Quit)
    ));
    assert!(s.in_history()); // q returns Quit without changing the view
    assert!(s.handle_key(Key::Esc).is_none());
    assert!(!s.in_history());
}

#[test]
fn summary_w_opens_weaknesses() {
    assert!(matches!(
        screen(3).handle_key(Key::Char('w')),
        Some(ResultsAction::Weaknesses)
    ));
}

#[test]
fn out_of_range_level_is_clamped_for_the_tabs() {
    assert_eq!(screen(0).selected_level(), 1);
    assert_eq!(screen(9).selected_level(), 5);
}

#[test]
fn titles_and_labels() {
    let s = screen(3);
    assert_eq!(s.title(), " results — level 3 · 60s ");
    let c = ResultsScreen::new(
        Settings {
            duration_secs: 15,
            level: 2,
        },
        true,
    );
    assert_eq!(c.title(), " results — level 2 · 15s · cancelled ");
    let mut h = screen(3);
    h.handle_key(Key::Char('h'));
    assert_eq!(h.title(), " history ");
    assert_eq!(level_count_text(4, Some(12)), "  level 4 · 12 session(s)");
    assert_eq!(level_count_text(2, None), "  level 2 · no sessions yet");
    assert_eq!(tab_label(3, 3), " 3* ");
    assert_eq!(tab_label(1, 3), " 1 ");
}

#[test]
fn practice_results_are_marked() {
    let p = ResultsScreen::new_practice(
        Settings {
            duration_secs: 30,
            level: 2,
        },
        false,
    );
    assert!(p.is_practice());
    assert!(!screen(2).is_practice());
}
