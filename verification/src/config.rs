use vstd::prelude::*;

verus! {

/// Durations offered by the interactive config screen, in seconds.
pub const DURATIONS: [u64; 4] = [15, 30, 60, 120];

/// The duration used when none is given.
pub const DEFAULT_DURATION_SECS: u64 = 60;

/// The level used when none is given.
pub const DEFAULT_LEVEL: u8 = 3;

/// Command-line flags as parsed from the arguments.
pub struct Cli {
    /// Session duration in seconds (5-600)
    pub time: Option<u64>,
    /// Difficulty level (1-5)
    pub level: Option<u8>,
}

/// The settings a session is played with.
#[derive(Clone, Copy, Debug, PartialEq, Eq, Structural)]
pub struct Settings {
    pub duration_secs: u64,
    pub level: u8,
}

/// The default settings: 60 seconds at level 3.
pub open spec fn default_settings() -> Settings {
    Settings { duration_secs: DEFAULT_DURATION_SECS, level: DEFAULT_LEVEL }
}

/// Whether a duration is accepted on the command line.
pub open spec fn valid_cli_duration(d: u64) -> bool {
    5 <= d <= 600
}

/// Whether a level is accepted on the command line.
pub open spec fn valid_level(l: u8) -> bool {
    1 <= l <= 5
}

pub open spec fn time_error_text() -> Seq<char> {
    "--time must be between 5 and 600 seconds"@
}

pub open spec fn level_error_text() -> Seq<char> {
    "--level must be between 1 and 5"@
}

impl Settings {
    /// Validate command-line flags. `Ok(None)` means no flags were given: show
    /// the interactive config screen. A missing flag takes its default.
    pub fn from_cli(cli: &Cli) -> (r: Result<Option<Settings>, String>)
        ensures
            (cli.time is None && cli.level is None) ==> r == Ok::<Option<Settings>, String>(None),
            !(cli.time is None && cli.level is None) ==> {
                let d = match cli.time { Some(t) => t, None => DEFAULT_DURATION_SECS };
                let l = match cli.level { Some(v) => v, None => DEFAULT_LEVEL };
                &&& !valid_cli_duration(d) ==> (r is Err && r->Err_0@ == time_error_text())
                &&& (valid_cli_duration(d) && !valid_level(l)) ==> (r is Err && r->Err_0@
                    == level_error_text())
                &&& (valid_cli_duration(d) && valid_level(l)) ==> r == Ok::<Option<Settings>, String>(
                    Some(Settings { duration_secs: d, level: l }),
                )
            },
    {
        if cli.time.is_none() && cli.level.is_none() {
            return Ok(None);
        }
        let duration_secs: u64 = match cli.time {
            Some(t) => t,
            None => DEFAULT_DURATION_SECS,
        };
        let level: u8 = match cli.level {
            Some(v) => v,
            None => DEFAULT_LEVEL,
        };
        if !(5 <= duration_secs && duration_secs <= 600) {
            return Err(String::from_str("--time must be between 5 and 600 seconds"));
        }
        if !(1 <= level && level <= 5) {
            return Err(String::from_str("--level must be between 1 and 5"));
        }
        Ok(Some(Settings { duration_secs, level }))
    }

    /// The settings to use when a saved file was missing or unreadable:
    /// `loaded` when it holds settings, the defaults otherwise.
    pub fn load_from(loaded: Option<Settings>) -> (s: Settings)
        ensures
            s == match loaded {
                Some(v) => v,
                None => default_settings(),
            },
    {
        match loaded {
            Some(v) => v,
            None => Settings::default(),
        }
    }
}

impl Default for Settings {
    fn default() -> (s: Self)
        ensures
            s == default_settings(),
    {
        Settings { duration_secs: DEFAULT_DURATION_SECS, level: DEFAULT_LEVEL }
    }
}

} // verus!
