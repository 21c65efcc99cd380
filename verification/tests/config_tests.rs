use dactylo::config::{Cli, Settings};

#[test]
fn no_flags_means_interactive() {
    let cli = Cli {
        time: None,
        level: None,
    };
    assert_eq!(Settings::from_cli(&cli).unwrap(), None);
}

#[test]
fn full_flags_produce_settings() {
    let cli = Cli {
        time: Some(120),
        level: Some(5),
    };
    assert_eq!(
        Settings::from_cli(&cli).unwrap(),
        Some(Settings {
            duration_secs: 120,
            level: 5
        })
    );
}

#[test]
fn partial_flags_fill_defaults() {
    let cli = Cli {
        time: Some(30),
        level: None,
    };
    assert_eq!(
        Settings::from_cli(&cli).unwrap(),
        Some(Settings {
            duration_secs: 30,
            level: 3
        })
    );
    let cli = Cli {
        time: None,
        level: Some(1),
    };
    assert_eq!(
        Settings::from_cli(&cli).unwrap(),
        Some(Settings {
            duration_secs: 60,
            level: 1
        })
    );
}

#[test]
fn invalid_values_rejected() {
    assert!(Settings::from_cli(&Cli {
        time: Some(3),
        level: None
    })
    .is_err());
    assert!(Settings::from_cli(&Cli {
        time: Some(601),
        level: None
    })
    .is_err());
    assert!(Settings::from_cli(&Cli {
        time: None,
        level: Some(0)
    })
    .is_err());
    assert!(Settings::from_cli(&Cli {
        time: None,
        level: Some(9)
    })
    .is_err());
}

#[test]
fn settings_default_is_60s_level_3() {
    assert_eq!(
        Settings::default(),
        Settings {
            duration_secs: 60,
            level: 3
        }
    );
}

#[test]
fn load_from_missing_file_is_default() {
    // A missing file reads as no settings.
    assert_eq!(Settings::load_from(None), Settings::default());
}

#[test]
fn load_from_malformed_is_default() {
    // A malformed file parses to no settings.
    assert_eq!(Settings::load_from(None), Settings::default());
}

#[test]
fn load_from_keeps_parsed_settings() {
    let s = Settings {
        duration_secs: 120,
        level: 5,
    };
    assert_eq!(Settings::load_from(Some(s)), s);
}

#[test]
fn error_messages_name_the_flag() {
    let e = Settings::from_cli(&Cli {
        time: Some(0),
        level: Some(3),
    })
    .unwrap_err();
    assert_eq!(e, "--time must be between 5 and 600 seconds");
    let e = Settings::from_cli(&Cli {
        time: Some(60),
        level: Some(6),
    })
    .unwrap_err();
    assert_eq!(e, "--level must be between 1 and 5");
    // Both bad: the time is reported first.
    let e = Settings::from_cli(&Cli {
        time: Some(1000),
        level: Some(0),
    })
    .unwrap_err();
    assert_eq!(e, "--time must be between 5 and 600 seconds");
}

#[test]
fn bounds_are_inclusive() {
    assert_eq!(
        Settings::from_cli(&Cli {
            time: Some(5),
            level: Some(1)
        })
        .unwrap(),
        Some(Settings {
            duration_secs: 5,
            level: 1
        })
    );
    assert_eq!(
        Settings::from_cli(&Cli {
            time: Some(600),
            level: Some(5)
        })
        .unwrap(),
        Some(Settings {
            duration_secs: 600,
            level: 5
        })
    );
}
