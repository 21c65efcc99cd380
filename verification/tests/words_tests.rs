use dactylo::words::{all_words, WordPool, WordStream};

/// A word-list text of `n` distinct lowercase words, frequency order being
/// list order, with short words interleaved and some lines to be skipped.
fn word_list(n: usize) -> String {
    let mut out = String::from("a\nHello\n  \nx-ray\n");
    for i in 0..n {
        // base-26 spelling, at least two letters
        let mut w = String::new();
        let mut k = i + 26;
        while k > 0 {
            w.insert(0, (b'a' + (k % 26) as u8) as char);
            k /= 26;
        }
        if i % 3 == 0 {
            out.push_str(&format!("  {w}\r\n"));
        } else {
            out.push_str(&format!("{w}xyz\n"));
        }
    }
    out
}

#[test]
fn pool_sizes_match_levels() {
    let text = word_list(8000);
    assert_eq!(WordPool::for_level(&text, 1).unwrap().len(), 200);
    assert_eq!(WordPool::for_level(&text, 2).unwrap().len(), 1000);
    assert_eq!(WordPool::for_level(&text, 3).unwrap().len(), 3000);
    assert_eq!(WordPool::for_level(&text, 4).unwrap().len(), 7000);
    assert!(WordPool::for_level(&text, 5).unwrap().len() > 7000);
}

#[test]
fn all_words_are_lowercase_ascii() {
    let text = word_list(8000);
    for level in 1..=5 {
        for w in WordPool::for_level(&text, level).unwrap().words() {
            assert!(
                !w.is_empty() && w.chars().all(|c| c.is_ascii_lowercase()),
                "bad word at level {level}: {w:?}"
            );
        }
    }
}

#[test]
fn excludes_single_letter_words() {
    let text = word_list(8000);
    for level in 1..=5 {
        for w in WordPool::for_level(&text, level).unwrap().words() {
            assert!(w.len() >= 2, "single-letter word at level {level}: {w:?}");
        }
    }
}

#[test]
fn level_one_words_are_short() {
    let text = word_list(8000);
    for w in WordPool::for_level(&text, 1).unwrap().words() {
        assert!(w.len() <= 5, "too long for level 1: {w}");
    }
}

#[test]
fn no_immediate_repetition() {
    let text = word_list(300);
    let mut pool = WordPool::seeded(&text, 1, 42);
    let mut prev = pool.next_word(None);
    for _ in 0..1000 {
        let next = pool.next_word(Some(&prev));
        assert_ne!(next, prev);
        prev = next;
    }
}

#[test]
fn seeded_pool_is_deterministic() {
    let text = word_list(2000);
    let mut a = WordPool::seeded(&text, 2, 7);
    let mut b = WordPool::seeded(&text, 2, 7);
    for _ in 0..20 {
        assert_eq!(a.next_word(None), b.next_word(None));
    }
}

#[test]
fn lines_are_trimmed_and_filtered() {
    let text = "  the \r\nA\nof\n\nit's\nx\nand";
    assert_eq!(all_words(text), vec!["the", "of", "and"]);
    assert!(all_words("").is_empty());
}

#[test]
fn a_single_word_pool_repeats_it() {
    let mut pool = WordPool::seeded("solo\n", 3, 1);
    assert_eq!(pool.next_word(Some("solo")), "solo");
}

#[test]
fn a_pool_of_one_distinct_word_never_hangs() {
    let mut pool = WordPool::seeded("echo\necho\n", 3, 5);
    assert_eq!(pool.next_word(Some("echo")), "echo");
    let mut pool = WordPool::seeded("echo\necho\nbell\n", 3, 5);
    for _ in 0..50 {
        assert_eq!(pool.next_word(Some("echo")), "bell");
    }
}

#[test]
fn others_than_lists_the_differing_indices() {
    let pool = WordPool::seeded("echo\nbell\necho\nmoss\n", 3, 1);
    assert_eq!(pool.others_than("echo"), vec![1, 3]);
    assert_eq!(pool.others_than("zz"), vec![0, 1, 2, 3]);
}

#[test]
fn pick_keeps_a_first_draw_that_does_not_repeat() {
    let pool = WordPool::seeded("echo\nbell\necho\nmoss\n", 3, 1);
    assert_eq!(pool.pick(None, 0, 7), "echo");
    assert_eq!(pool.pick(Some("bell"), 2, 7), "echo");
}

#[test]
fn pick_replaces_a_repeat_by_an_other_word() {
    let pool = WordPool::seeded("echo\nbell\necho\nmoss\n", 3, 1);
    assert_eq!(pool.pick(Some("echo"), 0, 0), "bell");
    assert_eq!(pool.pick(Some("echo"), 2, 1), "moss");
    assert_eq!(pool.pick(Some("echo"), 2, 3), "moss");
    let single = WordPool::seeded("echo\necho\n", 3, 1);
    assert_eq!(single.pick(Some("echo"), 1, 4), "echo");
}

#[test]
fn drawn_words_come_from_the_pool() {
    let mut pool = WordPool::seeded("echo\nbell\nmoss\n", 3, 9);
    let mut prev = pool.next_word(None);
    for _ in 0..200 {
        let w = pool.next_word(Some(&prev));
        assert!(["echo", "bell", "moss"].contains(&w.as_str()));
        assert_ne!(w, prev);
        prev = w;
    }
}
