use dactylo::ui::typing::{clock_text, layout_lines, visible_window};

#[test]
fn breaks_at_spaces_within_width() {
    let chars: Vec<char> = "the quick brown fox".chars().collect();
    let lines = layout_lines(&chars, 10);
    let rendered: Vec<String> = lines
        .iter()
        .map(|&(s, e)| chars[s..e].iter().collect())
        .collect();
    assert_eq!(rendered, vec!["the quick ", "brown fox"]);
}

#[test]
fn hard_breaks_words_longer_than_width() {
    let chars: Vec<char> = "abcdefghijxyz".chars().collect();
    let lines = layout_lines(&chars, 5);
    assert_eq!(lines, vec![(0, 5), (5, 10), (10, 13)]);
}

#[test]
fn lines_tile_the_target_exactly() {
    let chars: Vec<char> = "one two three four five six".chars().collect();
    let lines = layout_lines(&chars, 8);
    assert_eq!(lines.first().unwrap().0, 0);
    assert_eq!(lines.last().unwrap().1, chars.len());
    for w in lines.windows(2) {
        assert_eq!(w[0].1, w[1].0);
    }
    for &(s, e) in &lines {
        assert!(e - s <= 8);
        assert!(e > s);
    }
}

#[test]
fn empty_target_yields_no_lines() {
    assert!(layout_lines(&[], 10).is_empty());
}

#[test]
fn zero_width_yields_no_lines() {
    let chars: Vec<char> = "abc".chars().collect();
    assert!(layout_lines(&chars, 0).is_empty());
}

#[test]
fn window_starts_on_top_then_keeps_cursor_in_the_middle() {
    let lines = vec![(0, 10), (10, 20), (20, 30), (30, 40), (40, 45)];
    assert_eq!(visible_window(&lines, 3), (0, 3));
    assert_eq!(visible_window(&lines, 15), (0, 3));
    assert_eq!(visible_window(&lines, 25), (1, 4));
    assert_eq!(visible_window(&lines, 42), (3, 5));
    // A cursor past the last line falls back to the first line.
    assert_eq!(visible_window(&lines, 99), (0, 3));
    assert_eq!(visible_window(&[], 0), (0, 0));
}

#[test]
fn clock_pads_seconds() {
    assert_eq!(clock_text(0), "0:00");
    assert_eq!(clock_text(59), "0:59");
    assert_eq!(clock_text(60), "1:00");
    assert_eq!(clock_text(125), "2:05");
    assert_eq!(clock_text(600), "10:00");
}
