use dactylo::config::Settings;
use dactylo::ui::config::{ConfigAction, ConfigScreen};
use dactylo::ui::Key;

#[test]
fn defaults_are_60s_level_3() {
    let mut s = ConfigScreen::default();
    match s.handle_key(Key::Enter) {
        Some(ConfigAction::Confirm(set)) => {
            assert_eq!(
                set,
                Settings {
                    duration_secs: 60,
                    level: 3
                }
            )
        }
        _ => panic!("expected confirm"),
    }
}

#[test]
fn arrows_change_values_and_clamp() {
    let mut s = ConfigScreen::default();
    s.handle_key(Key::Right); // duration 60 -> 120
    s.handle_key(Key::Right); // clamps at 120
    s.handle_key(Key::Tab); // focus level
    s.handle_key(Key::Left); // level 3 -> 2
    s.handle_key(Key::Left); // 2 -> 1
    s.handle_key(Key::Left); // clamps at 1
    match s.handle_key(Key::Enter) {
        Some(ConfigAction::Confirm(set)) => {
            assert_eq!(
                set,
                Settings {
                    duration_secs: 120,
                    level: 1
                }
            )
        }
        _ => panic!("expected confirm"),
    }
}

#[test]
fn q_quits_and_esc_goes_back() {
    let mut s = ConfigScreen::default();
    assert!(matches!(
        s.handle_key(Key::Char('q')),
        Some(ConfigAction::Quit)
    ));
    assert!(matches!(s.handle_key(Key::Esc), Some(ConfigAction::Back)));
}

#[test]
fn navigation_keys_return_none() {
    let mut s = ConfigScreen::default();
    assert!(s.handle_key(Key::Tab).is_none());
    assert!(s.handle_key(Key::Left).is_none());
    assert!(s.handle_key(Key::Right).is_none());
    assert!(s.handle_key(Key::Up).is_none());
    assert!(s.handle_key(Key::Down).is_none());
}

#[test]
fn from_settings_maps_duration_and_level() {
    let mut s = ConfigScreen::from_settings(Settings {
        duration_secs: 15,
        level: 4,
    });
    match s.handle_key(Key::Enter) {
        Some(ConfigAction::Confirm(set)) => assert_eq!(
            set,
            Settings {
                duration_secs: 15,
                level: 4
            }
        ),
        _ => panic!("expected confirm"),
    }
}

#[test]
fn from_settings_unknown_duration_falls_back_to_60() {
    let mut s = ConfigScreen::from_settings(Settings {
        duration_secs: 45,
        level: 3,
    });
    match s.handle_key(Key::Enter) {
        Some(ConfigAction::Confirm(set)) => assert_eq!(set.duration_secs, 60),
        _ => panic!("expected confirm"),
    }
}

#[test]
fn from_settings_clamps_level() {
    let mut s = ConfigScreen::from_settings(Settings {
        duration_secs: 60,
        level: 9,
    });
    match s.handle_key(Key::Enter) {
        Some(ConfigAction::Confirm(set)) => assert_eq!(set.level, 5),
        _ => panic!("expected confirm"),
    }
}

#[test]
fn left_on_duration_clamps_at_shortest_and_level_zero_clamps_up() {
    let mut s = ConfigScreen::from_settings(Settings {
        duration_secs: 30,
        level: 0,
    });
    s.handle_key(Key::Left); // 30 -> 15
    s.handle_key(Key::Left); // clamps at 15
    s.handle_key(Key::Down); // focus level
    s.handle_key(Key::Right); // 1 -> 2
    s.handle_key(Key::Up); // focus duration
    s.handle_key(Key::Char('x')); // ignored
    assert_eq!(
        s.selected(),
        Settings {
            duration_secs: 15,
            level: 2
        }
    );
}
