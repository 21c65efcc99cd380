use dactylo::session::{CharState, Session, NANOS_PER_SEC};
use dactylo::ui::Key;
use dactylo::words::WordPool;

const WORDS: &str = "the\nof\nand\nto\nin\nis\nyou\nthat\nit\nhe\nwas\nfor\non\nare\nas\nwith\nhis\nthey\nat\nbe\n";

const T0: u64 = 1_000 * NANOS_PER_SEC;

fn secs(n: u64) -> u64 {
    n * NANOS_PER_SEC
}

fn new_session() -> Session<WordPool> {
    Session::new(WORDS, 1, secs(30)).expect("the system supplies a seed")
}

#[test]
fn target_is_pregenerated_with_lookahead() {
    let s = new_session();
    assert!(s.target().len() >= 120);
    assert!(s
        .target()
        .iter()
        .all(|c| c.is_ascii_lowercase() || *c == ' '));
}

#[test]
fn correct_keystrokes_mark_correct_and_advance() {
    let mut s = new_session();
    let t0 = T0;
    let first: Vec<char> = s.target()[..3].to_vec();
    for &c in &first {
        s.keystroke(c, t0);
    }
    assert_eq!(s.cursor(), 3);
    assert!(s.states()[..3].iter().all(|st| *st == CharState::Correct));
    assert_eq!(s.correct_chars(), 3);
}

#[test]
fn wrong_keystroke_marks_wrong_and_counts_error() {
    let mut s = new_session();
    let t0 = T0;
    s.keystroke('@', t0); // '@' never appears in targets
    assert_eq!(s.states()[0], CharState::Wrong);
    assert_eq!(s.cursor(), 1);
    assert_eq!(s.errors(), 1);
    assert_eq!(s.correct_chars(), 0);
}

#[test]
fn backspace_allows_correction_but_error_count_stays() {
    let mut s = new_session();
    let t0 = T0;
    let expected = s.target()[0];
    s.keystroke('@', t0);
    s.backspace();
    assert_eq!(s.cursor(), 0);
    assert_eq!(s.states()[0], CharState::Untyped);
    s.keystroke(expected, t0);
    assert_eq!(s.states()[0], CharState::Correct);
    assert_eq!(s.correct_chars(), 1);
    assert_eq!(s.errors(), 1); // error is not forgiven
    assert_eq!(s.keystrokes(), 2); // both keystrokes counted
}

#[test]
fn backspace_at_start_is_noop() {
    let mut s = new_session();
    s.backspace();
    assert_eq!(s.cursor(), 0);
}

#[test]
fn timer_starts_on_first_keystroke() {
    let mut s = new_session();
    let t0 = T0;
    // No keystroke yet: never finished, no elapsed time.
    assert!(!s.is_finished(t0 + secs(999)));
    assert_eq!(s.elapsed(t0 + secs(999)), 0);
    let c = s.target()[0];
    s.keystroke(c, t0);
    assert!(!s.is_finished(t0 + secs(29)));
    assert!(s.is_finished(t0 + secs(30)));
}

#[test]
fn elapsed_is_clamped_to_duration() {
    let mut s = new_session();
    let t0 = T0;
    let c = s.target()[0];
    s.keystroke(c, t0);
    assert_eq!(s.elapsed(t0 + secs(999)), secs(30));
    assert_eq!(s.remaining(t0 + secs(999)), 0);
}

#[test]
fn tick_collects_one_wpm_sample_per_second() {
    let mut s = new_session();
    let t0 = T0;
    let c = s.target()[0];
    s.keystroke(c, t0);
    s.tick(t0 + NANOS_PER_SEC / 2);
    assert_eq!(s.wpm_samples().len(), 0);
    s.tick(t0 + secs(3));
    assert_eq!(s.wpm_samples().len(), 3);
    s.tick(t0 + secs(3)); // same second: no new sample
    assert_eq!(s.wpm_samples().len(), 3);
}

#[test]
fn target_extends_as_user_types() {
    let mut s = new_session();
    let t0 = T0;
    for _ in 0..500 {
        let c = s.target()[s.cursor()];
        s.keystroke(c, t0);
    }
    assert_eq!(s.cursor(), 500);
    assert!(s.target().len() >= s.cursor() + 100);
}

#[test]
fn keystroke_after_finish_is_ignored() {
    let mut s = new_session();
    let t0 = T0;
    let c = s.target()[0];
    s.keystroke(c, t0);
    let late = t0 + secs(31);
    s.keystroke('@', late);
    assert_eq!(s.cursor(), 1);
    assert_eq!(s.errors(), 0);
    assert_eq!(s.keystrokes(), 1);
}

#[test]
fn tally_counts_key_occurrences_and_wrong() {
    let mut s = new_session();
    let t0 = T0;
    let c0 = s.target()[0]; // a real expected char (never a space at pos 0)
    s.keystroke(c0, t0); // correct
    // retype position 1 wrong then correct (keystroke-based: 2 occurrences)
    let c1 = s.target()[1];
    s.keystroke('@', t0); // wrong at pos 1
    s.backspace();
    s.keystroke(c1, t0); // correct at pos 1
    let tally = s.tally();
    if c0 == c1 {
        // Same letter twice: 3 occurrences, 1 wrong.
        assert_eq!(tally.keys.get(&c0), Some(&(3, 1)));
    } else {
        // c0: 1 occurrence, 0 wrong
        assert_eq!(tally.keys.get(&c0), Some(&(1, 0)));
        // c1: 2 occurrences (wrong then correct), 1 wrong
        assert_eq!(tally.keys.get(&c1), Some(&(2, 1)));
    }
}

#[test]
fn tally_skips_spaces_as_keys() {
    let mut s = new_session();
    let t0 = T0;
    // Type through the first word and its trailing space.
    for _ in 0..10 {
        let c = s.target()[s.cursor()];
        s.keystroke(c, t0);
    }
    assert!(!s.tally().keys.contains_key(&' '));
}

#[test]
fn tally_marks_a_word_fumbled_on_any_wrong_keystroke() {
    let mut s = new_session();
    let t0 = T0;
    // The first word spans target[0..first_space].
    let first_space = s.target().iter().position(|&c| c == ' ').unwrap();
    let word: String = s.target()[..first_space].iter().collect();
    // Fumble the very first character, correct it, then type the rest right.
    s.keystroke('@', t0);
    s.backspace();
    for i in 0..first_space {
        let c = s.target()[i];
        s.keystroke(c, t0);
    }
    // Advance past the space into the next word so the first word is "seen".
    let sp = s.target()[first_space];
    s.keystroke(sp, t0);
    let tally = s.tally();
    assert_eq!(tally.words.get(&word), Some(&(1, 1))); // seen once, fumbled
}

#[test]
fn samples_hold_the_correct_count_at_each_second() {
    let mut s = new_session();
    let t0 = T0;
    for _ in 0..4 {
        let c = s.target()[s.cursor()];
        s.keystroke(c, t0);
    }
    s.keystroke('@', t0);
    s.tick(t0 + secs(2));
    assert_eq!(s.wpm_samples(), &[4, 4]);
}

#[test]
fn untouched_session_samples_nothing_and_has_an_empty_tally() {
    let mut s = new_session();
    s.tick(T0 + secs(10));
    assert!(s.wpm_samples().is_empty());
    assert!(s.tally().is_empty());
    assert_eq!(s.remaining(T0), secs(30));
}

#[test]
fn keys_drive_the_session() {
    let mut s = new_session();
    let c = s.target()[0];
    assert!(!s.handle_key(Key::Char(c), T0));
    assert!(!s.handle_key(Key::Backspace, T0));
    assert_eq!(s.cursor(), 0);
    assert!(!s.handle_key(Key::Tab, T0));
    assert!(s.handle_key(Key::Esc, T0));
    assert_eq!(s.keystrokes(), 1);
    assert!(!s.pass(T0 + secs(5)));
    assert!(s.pass(T0 + secs(30)));
    assert_eq!(s.wpm_samples().len(), 30);
}

#[test]
fn target_is_pool_words_joined_by_single_spaces() {
    let s = new_session();
    let text: String = s.target().iter().collect();
    let words: Vec<&str> = text.split(' ').collect();
    let pool: Vec<&str> = WORDS.lines().collect();
    assert!(words.iter().all(|w| pool.contains(w)));
    for pair in words.windows(2) {
        assert_ne!(pair[0], pair[1]);
    }
    // Generation stops at the first word that reaches the lookahead.
    let last = words.last().unwrap();
    assert!(text.len() >= 256);
    assert!(text.len() - last.len() - 1 < 256);
}

#[test]
fn typing_ahead_extends_the_target_by_whole_words() {
    let mut s = new_session();
    let before: String = s.target().iter().collect();
    let mut t = T0;
    for _ in 0..40 {
        let c = s.target()[s.cursor()];
        s.keystroke(c, t);
        t += 1;
    }
    let after: String = s.target().iter().collect();
    assert!(after.starts_with(&before));
    assert!(after.len() >= s.cursor() + 256);
    let pool: Vec<&str> = WORDS.lines().collect();
    assert!(after.split(' ').all(|w| pool.contains(&w)));
}

#[test]
fn a_fresh_session_can_take_a_keystroke() {
    let mut s = new_session();
    assert!(s.can_strike());
    let c = s.target()[0];
    s.keystroke(c, T0);
    assert!(s.can_strike());
}
