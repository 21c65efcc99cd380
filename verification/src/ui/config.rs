use vstd::prelude::*;

use super::Key;
use crate::config::{Settings, DURATIONS};

verus! {

/// What the setup screen asks for.
#[derive(Clone, Copy, PartialEq, Eq, Debug, Structural)]
pub enum ConfigAction {
    Confirm(Settings),
    /// Esc — go back (to the stats screen if there is one, else quit).
    Back,
    /// `q` — quit the app.
    Quit,
}

/// The setup screen's focused row.
#[derive(Clone, Copy, PartialEq, Eq, Debug, Structural)]
pub enum Focus {
    Duration,
    Level,
}

/// The interactive setup screen: a duration slot, a level and the focus.
pub struct ConfigScreen {
    duration_idx: usize,
    level: u8,
    focus: Focus,
}

/// The abstract state of the setup screen.
pub struct ConfigModel {
    pub duration_idx: int,
    pub level: u8,
    pub focus: Focus,
}

/// The index of `d` in `DURATIONS`, or the 60 s slot (2) when it is not there.
pub open spec fn duration_slot(d: u64) -> int {
    if d == 15 {
        0
    } else if d == 30 {
        1
    } else if d == 60 {
        2
    } else if d == 120 {
        3
    } else {
        2
    }
}

/// The duration offered at slot `i`.
pub open spec fn slot_duration(i: int) -> u64 {
    if i == 0 {
        15
    } else if i == 1 {
        30
    } else if i == 2 {
        60
    } else {
        120
    }
}

/// A duration that the setup screen offers is found again in its slot: the
/// slot pre-filled for an offered duration is the one holding it, and that
/// slot selects it back.
pub proof fn law_offered_duration_kept(d: u64)
    requires
        exists|i: int| 0 <= i < 4 && DURATIONS[i] == d,
    ensures
        0 <= duration_slot(d) < 4,
        DURATIONS[duration_slot(d)] == d,
        slot_duration(duration_slot(d)) == d,
{
}

/// `v` clamped to `lo..=hi`.
pub open spec fn clamp_u8(v: u8, lo: u8, hi: u8) -> u8 {
    if v < lo {
        lo
    } else if v > hi {
        hi
    } else {
        v
    }
}

impl ConfigScreen {
    pub closed spec fn model(&self) -> ConfigModel {
        ConfigModel { duration_idx: self.duration_idx as int, level: self.level, focus: self.focus }
    }

    #[verifier::type_invariant]
    closed spec fn well_formed(&self) -> bool {
        self.duration_idx < 4 && 1 <= self.level <= 5
    }

    /// Build the setup screen pre-filled from `settings`. A `duration_secs`
    /// not in `DURATIONS` falls back to the 60s slot; `level` is clamped to 1..=5.
    pub fn from_settings(settings: Settings) -> (s: Self)
        ensures
            s.model().duration_idx == duration_slot(settings.duration_secs),
            forall|i: int|
                0 <= i < 4 && DURATIONS[i] == settings.duration_secs ==> s.model().duration_idx == i,
            (forall|i: int| 0 <= i < 4 ==> DURATIONS[i] != settings.duration_secs)
                ==> s.model().duration_idx == 2,
            s.model().level == clamp_u8(settings.level, 1, 5),
            s.model().focus == Focus::Duration,
    {
        let mut duration_idx: usize = 2;
        let mut i: usize = 0;
        let mut found = false;
        while i < 4 && !found
            invariant
                i <= 4,
                found ==> i < 4 && duration_idx == i && DURATIONS[i as int] == settings.duration_secs
                    && forall|j: int| 0 <= j < i ==> DURATIONS[j] != settings.duration_secs,
                !found ==> duration_idx == 2 && forall|j: int|
                    0 <= j < i ==> DURATIONS[j] != settings.duration_secs,
            decreases 4 - i + if found {
                0int
            } else {
                1int
            },
        {
            if DURATIONS[i] == settings.duration_secs {
                duration_idx = i;
                found = true;
            } else {
                i = i + 1;
            }
        }
        let level = if settings.level < 1 {
            1
        } else if settings.level > 5 {
            5
        } else {
            settings.level
        };
        ConfigScreen { duration_idx, level, focus: Focus::Duration }
    }

    /// The selected duration slot (an index into `DURATIONS`).
    pub fn duration_idx(&self) -> (r: usize)
        ensures
            r == self.model().duration_idx,
            r < 4,
    {
        proof {
            use_type_invariant(self);
        }
        self.duration_idx
    }

    /// The selected level.
    pub fn level(&self) -> (r: u8)
        ensures
            r == self.model().level,
            1 <= r <= 5,
    {
        proof {
            use_type_invariant(self);
        }
        self.level
    }

    /// The focused row.
    pub fn focus(&self) -> (r: Focus)
        ensures
            r == self.model().focus,
    {
        self.focus
    }

    /// The settings that Enter would confirm.
    pub fn selected(&self) -> (s: Settings)
        ensures
            s == (Settings {
                duration_secs: slot_duration(self.model().duration_idx),
                level: self.model().level,
            }),
            s.duration_secs == DURATIONS[self.model().duration_idx],
    {
        proof {
            use_type_invariant(self);
        }
        Settings { duration_secs: DURATIONS[self.duration_idx], level: self.level }
    }

    /// Map a keypress to an action, mutating focus/selection for navigation
    /// keys. Returns `None` for keys that only change state (or do nothing).
    pub fn handle_key(&mut self, code: Key) -> (r: Option<ConfigAction>)
        ensures
            0 <= final(self).model().duration_idx < 4,
            1 <= final(self).model().level <= 5,
            r matches Some(ConfigAction::Confirm(s)) ==> 1 <= s.level <= 5 && (s.duration_secs == 15
                || s.duration_secs == 30 || s.duration_secs == 60 || s.duration_secs == 120),
            ({
                let o = old(self).model();
                let f = final(self).model();
                match code {
                    Key::Esc => r == Some(ConfigAction::Back) && f == o,
                    Key::Char('q') => r == Some(ConfigAction::Quit) && f == o,
                    Key::Enter => r == Some(
                        ConfigAction::Confirm(
                            Settings { duration_secs: slot_duration(o.duration_idx), level: o.level },
                        ),
                    ) && f == o,
                    Key::Tab => r is None && f == (ConfigModel {
                        focus: if o.focus == Focus::Duration {
                            Focus::Level
                        } else {
                            Focus::Duration
                        },
                        ..o
                    }),
                    Key::Up | Key::BackTab => r is None && f == (ConfigModel { focus: Focus::Duration, ..o }),
                    Key::Down => r is None && f == (ConfigModel { focus: Focus::Level, ..o }),
                    Key::Left => r is None && f == (if o.focus == Focus::Duration {
                        ConfigModel {
                            duration_idx: if o.duration_idx > 0 {
                                o.duration_idx - 1
                            } else {
                                0
                            },
                            ..o
                        }
                    } else {
                        ConfigModel {
                            level: if o.level > 1 {
                                (o.level - 1) as u8
                            } else {
                                1
                            },
                            ..o
                        }
                    }),
                    Key::Right => r is None && f == (if o.focus == Focus::Duration {
                        ConfigModel {
                            duration_idx: if o.duration_idx < 3 {
                                o.duration_idx + 1
                            } else {
                                3
                            },
                            ..o
                        }
                    } else {
                        ConfigModel {
                            level: if o.level < 5 {
                                (o.level + 1) as u8
                            } else {
                                5
                            },
                            ..o
                        }
                    }),
                    _ => r is None && f == o,
                }
            }),
    {
        proof {
            use_type_invariant(&*self);
        }
        match code {
            Key::Esc => Some(ConfigAction::Back),
            Key::Char('q') => Some(ConfigAction::Quit),
            Key::Enter => Some(ConfigAction::Confirm(self.selected())),
            Key::Tab => {
                self.focus = match self.focus {
                    Focus::Duration => Focus::Level,
                    Focus::Level => Focus::Duration,
                };
                None
            },
            Key::Up | Key::BackTab => {
                self.focus = Focus::Duration;
                None
            },
            Key::Down => {
                self.focus = Focus::Level;
                None
            },
            Key::Left => {
                match self.focus {
                    Focus::Duration => {
                        if self.duration_idx > 0 {
                            self.duration_idx = self.duration_idx - 1;
                        }
                    },
                    Focus::Level => {
                        if self.level > 1 {
                            self.level = self.level - 1;
                        }
                    },
                }
                None
            },
            Key::Right => {
                match self.focus {
                    Focus::Duration => {
                        if self.duration_idx < 3 {
                            self.duration_idx = self.duration_idx + 1;
                        }
                    },
                    Focus::Level => {
                        if self.level < 5 {
                            self.level = self.level + 1;
                        }
                    },
                }
                None
            },
            _ => None,
        }
    }
}

impl Default for ConfigScreen {
    fn default() -> (s: Self)
        ensures
            s.model().duration_idx == 2,
            s.model().level == 3,
            s.model().focus == Focus::Duration,
    {
        Self::from_settings(Settings::default())
    }
}

} // verus!
