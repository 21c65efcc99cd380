use dactylo::mistakes::{sort_weaknesses, MistakeTally, Sort, Weakness, WeaknessProfile};

#[test]
fn default_tally_is_empty() {
    assert!(MistakeTally::default().is_empty());
}

#[test]
fn non_empty_when_a_key_is_recorded() {
    let mut t = MistakeTally::default();
    t.keys.insert('b', (3, 1));
    assert!(!t.is_empty());
}

#[test]
fn non_empty_when_a_word_is_recorded() {
    let mut t = MistakeTally::default();
    t.words.insert("because".to_string(), (3, 2));
    assert!(!t.is_empty());
}

#[test]
fn non_empty_when_a_combo_is_recorded() {
    let mut t = MistakeTally::default();
    t.combos.insert("io".to_string(), (10, 4));
    assert!(!t.is_empty());
}

fn weakness(label: &str, total: u32, bad: u32) -> Weakness {
    Weakness {
        label: label.to_string(),
        total,
        bad,
    }
}

#[test]
fn sort_by_rate_puts_highest_miss_rate_first() {
    let mut v = vec![weakness("a", 100, 9), weakness("b", 12, 6), weakness("c", 10, 3)];
    sort_weaknesses(&mut v, Sort::Rate);
    let labels: Vec<&str> = v.iter().map(|w| w.label.as_str()).collect();
    assert_eq!(labels, vec!["b", "c", "a"]);
}

#[test]
fn sort_by_count_puts_most_misses_first() {
    let mut v = vec![weakness("b", 12, 6), weakness("a", 100, 9), weakness("c", 10, 3)];
    sort_weaknesses(&mut v, Sort::Count);
    let labels: Vec<&str> = v.iter().map(|w| w.label.as_str()).collect();
    assert_eq!(labels, vec!["a", "b", "c"]);
}

#[test]
fn sort_keeps_every_entry() {
    let mut v = vec![weakness("x", 5, 1), weakness("y", 5, 1), weakness("z", 0, 0)];
    sort_weaknesses(&mut v, Sort::Rate);
    assert_eq!(v.len(), 3);
    let mut labels: Vec<String> = v.iter().map(|w| w.label.clone()).collect();
    labels.sort();
    assert_eq!(labels, vec!["x", "y", "z"]);
}

#[test]
fn default_profile_is_empty() {
    assert!(WeaknessProfile::default().is_empty());
    let p = WeaknessProfile {
        keys: Vec::new(),
        combos: Vec::new(),
        words: vec![weakness("because", 8, 5)],
        sessions: 1,
    };
    assert!(!p.is_empty());
}

#[test]
fn profile_from_tally_lists_every_entry() {
    let mut t = MistakeTally::default();
    t.keys.insert('e', (12, 3));
    t.keys.insert('a', (5, 0));
    t.words.insert("because".to_string(), (2, 1));
    t.combos.insert("io".to_string(), (10, 4));
    let p = WeaknessProfile::from_tally(&t);
    assert_eq!(p.sessions, 1);
    let mut keys: Vec<(String, u32, u32)> =
        p.keys.iter().map(|w| (w.label.clone(), w.total, w.bad)).collect();
    keys.sort();
    assert_eq!(
        keys,
        vec![("a".to_string(), 5, 0), ("e".to_string(), 12, 3)]
    );
    assert_eq!(p.words.len(), 1);
    assert_eq!(p.words[0].label, "because");
    assert_eq!((p.words[0].total, p.words[0].bad), (2, 1));
    assert_eq!(p.combos.len(), 1);
    assert_eq!(p.combos[0].label, "io");
    assert_eq!((p.combos[0].total, p.combos[0].bad), (10, 4));
}

#[test]
fn profile_from_empty_tally_is_empty() {
    let p = WeaknessProfile::from_tally(&MistakeTally::default());
    assert!(p.is_empty());
    assert_eq!(p.sessions, 1);
}
