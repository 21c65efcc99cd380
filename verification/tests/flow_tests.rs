use dactylo::config::Settings;
use dactylo::flow::{start, Event, Flow, Screen, TypingEnd};
use dactylo::mistakes::{Weakness, WeaknessProfile};
use dactylo::ui::config::ConfigAction;
use dactylo::ui::results::{ResultsAction, ResultsScreen};
use dactylo::ui::weaknesses::WeaknessAction;
use dactylo::ui::Key;

fn settings(level: u8, duration_secs: u64) -> Settings {
    Settings {
        duration_secs,
        level,
    }
}

/// The flow after a finished normal run at `s`, with `tag` as the data kept
/// for its results.
fn after_run(s: Settings, tag: u32) -> Flow<u32> {
    let f: Flow<u32> = Flow {
        screen: Screen::Typing(s),
        return_to: None,
    };
    f.step(Event::Typed(TypingEnd::Completed(tag))).unwrap()
}

fn stats(f: &Flow<u32>) -> (&ResultsScreen, u32) {
    match &f.screen {
        Screen::Stats(v, d) => (v, *d),
        _ => panic!("expected the results screen"),
    }
}

#[test]
fn known_settings_start_a_session() {
    let f: Flow<u32> = start(Some(settings(5, 120)), Some(settings(1, 15)));
    assert!(matches!(f.screen, Screen::Typing(s) if s == settings(5, 120)));
    let f: Flow<u32> = start(None, Some(settings(1, 15)));
    assert!(matches!(f.screen, Screen::Typing(s) if s == settings(1, 15)));
    let f: Flow<u32> = start(None, None);
    assert!(matches!(f.screen, Screen::Setup(s) if s == Settings::default()));
    assert!(f.return_to.is_none());
}

#[test]
fn finished_and_cancelled_runs_show_results() {
    let f = after_run(settings(2, 30), 7);
    let (v, d) = stats(&f);
    assert_eq!(d, 7);
    assert_eq!(v.settings(), settings(2, 30));
    assert!(!v.is_cancelled());
    assert!(!v.is_practice());
    let f: Flow<u32> = Flow {
        screen: Screen::Practice(settings(4, 60)),
        return_to: None,
    };
    let g = f.step(Event::Typed(TypingEnd::Cancelled(1))).unwrap();
    let (v, _) = stats(&g);
    assert!(v.is_cancelled());
    assert!(v.is_practice());
}

#[test]
fn ctrl_c_during_a_run_exits() {
    let f: Flow<u32> = Flow {
        screen: Screen::Typing(settings(3, 60)),
        return_to: None,
    };
    assert!(f.step(Event::Typed(TypingEnd::Quit)).is_none());
}

#[test]
fn settings_then_esc_returns_to_the_same_results() {
    let mut f = after_run(settings(3, 60), 9);
    if let Screen::Stats(v, _) = &mut f.screen {
        v.handle_key(Key::Char('h'));
        v.handle_key(Key::Right);
    }
    let f = f.step(Event::Stats(ResultsAction::ChangeSettings)).unwrap();
    assert!(matches!(f.screen, Screen::Setup(s) if s == settings(3, 60)));
    assert!(f.return_to.is_some());
    let back = f.step(Event::Setup(ConfigAction::Back)).unwrap();
    assert!(back.return_to.is_none());
    let (v, d) = stats(&back);
    assert_eq!(d, 9);
    assert!(v.in_history());
    assert_eq!(v.selected_level(), 4);
}

#[test]
fn first_run_setup_esc_exits_and_confirm_starts() {
    let f: Flow<u32> = start(None, None);
    assert!(f.step(Event::Setup(ConfigAction::Back)).is_none());
    let f: Flow<u32> = start(None, None);
    let g = f
        .step(Event::Setup(ConfigAction::Confirm(settings(1, 15))))
        .unwrap();
    assert!(matches!(g.screen, Screen::Typing(s) if s == settings(1, 15)));
    let f: Flow<u32> = start(None, None);
    assert!(f.step(Event::Setup(ConfigAction::Quit)).is_none());
}

#[test]
fn restart_replays_the_same_kind_of_run() {
    let f = after_run(settings(2, 15), 3)
        .step(Event::Stats(ResultsAction::Restart))
        .unwrap();
    assert!(matches!(f.screen, Screen::Typing(s) if s == settings(2, 15)));
    let p: Flow<u32> = Flow {
        screen: Screen::Practice(settings(4, 30)),
        return_to: None,
    };
    let f = p
        .step(Event::Typed(TypingEnd::Completed(5)))
        .unwrap()
        .step(Event::Stats(ResultsAction::Restart))
        .unwrap();
    assert!(matches!(f.screen, Screen::Practice(s) if s == settings(4, 30)));
}

#[test]
fn quit_from_results_exits() {
    assert!(after_run(settings(2, 15), 3)
        .step(Event::Stats(ResultsAction::Quit))
        .is_none());
}

#[test]
fn explorer_practice_uses_the_remembered_duration() {
    let profile = WeaknessProfile {
        keys: vec![Weakness {
            label: "b".to_string(),
            total: 10,
            bad: 4,
        }],
        combos: Vec::new(),
        words: Vec::new(),
        sessions: 2,
    };
    let f = after_run(settings(3, 120), 1)
        .step(Event::Explore(profile))
        .unwrap();
    match &f.screen {
        Screen::Weaknesses(w) => {
            assert_eq!(w.level(), 3);
            assert_eq!(w.profile().keys.len(), 1);
        }
        _ => panic!("expected the explorer"),
    }
    let g = f.step(Event::Weaknesses(WeaknessAction::Practice)).unwrap();
    assert!(g.return_to.is_none());
    assert!(matches!(g.screen, Screen::Practice(s) if s == settings(3, 120)));
}

#[test]
fn explorer_without_results_practises_for_the_default_duration() {
    let f: Flow<u32> = Flow {
        screen: Screen::Weaknesses(dactylo::ui::weaknesses::WeaknessScreen::new(
            WeaknessProfile::default(),
            2,
        )),
        return_to: None,
    };
    let g = f.step(Event::Weaknesses(WeaknessAction::Practice)).unwrap();
    assert!(matches!(g.screen, Screen::Practice(s) if s == settings(2, 60)));
}

#[test]
fn explorer_esc_returns_and_q_quits() {
    let f = after_run(settings(2, 30), 4)
        .step(Event::Explore(WeaknessProfile::default()))
        .unwrap();
    let back = f.step(Event::Weaknesses(WeaknessAction::Back)).unwrap();
    let (_, d) = stats(&back);
    assert_eq!(d, 4);
    let f = after_run(settings(2, 30), 4)
        .step(Event::Explore(WeaknessProfile::default()))
        .unwrap();
    assert!(f.step(Event::Weaknesses(WeaknessAction::Quit)).is_none());
    let lone: Flow<u32> = Flow {
        screen: Screen::Weaknesses(dactylo::ui::weaknesses::WeaknessScreen::new(
            WeaknessProfile::default(),
            2,
        )),
        return_to: None,
    };
    assert!(lone.step(Event::Weaknesses(WeaknessAction::Back)).is_none());
}
