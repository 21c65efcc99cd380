use vstd::prelude::*;

use super::Key;
use crate::config::Settings;
use crate::history::{decimal, decimal_string};
use crate::ui::config::clamp_u8;
use crate::words::string_push;

verus! {

/// What the results screen asks for.
#[derive(Clone, Copy, PartialEq, Eq, Debug, Structural)]
pub enum ResultsAction {
    Restart,
    ChangeSettings,
    Weaknesses,
    Quit,
}

/// Which view the results screen is showing.
#[derive(Clone, Copy, PartialEq, Eq, Debug, Structural)]
pub enum Pane {
    /// The just-played session's detailed stats and vs-previous comparison.
    Summary,
    /// The per-level history dashboard (level tabs).
    History,
}

/// The post-session screen's navigation state. It lands on the summary of
/// the run just played; `h` opens the per-level history with level tabs.
pub struct ResultsScreen {
    settings: Settings,
    cancelled: bool,
    practice: bool,
    pane: Pane,
    selected_level: u8,
}

/// The abstract state of the results screen.
pub struct ResultsModel {
    pub settings: Settings,
    pub cancelled: bool,
    pub practice: bool,
    pub pane: Pane,
    pub selected_level: u8,
}

impl ResultsScreen {
    pub closed spec fn model(&self) -> ResultsModel {
        ResultsModel {
            settings: self.settings,
            cancelled: self.cancelled,
            practice: self.practice,
            pane: self.pane,
            selected_level: self.selected_level,
        }
    }

    #[verifier::type_invariant]
    closed spec fn well_formed(&self) -> bool {
        1 <= self.selected_level <= 5
    }

    /// The results screen for a normal run: on the summary, with the played
    /// level (clamped to 1..=5) selected.
    pub fn new(settings: Settings, cancelled: bool) -> (s: Self)
        ensures
            s.model() == (ResultsModel {
                settings,
                cancelled,
                practice: false,
                pane: Pane::Summary,
                selected_level: clamp_u8(settings.level, 1, 5),
            }),
    {
        Self::build(settings, cancelled, false)
    }

    /// The results screen for a practice run.
    pub fn new_practice(settings: Settings, cancelled: bool) -> (s: Self)
        ensures
            s.model() == (ResultsModel {
                settings,
                cancelled,
                practice: true,
                pane: Pane::Summary,
                selected_level: clamp_u8(settings.level, 1, 5),
            }),
    {
        Self::build(settings, cancelled, true)
    }

    fn build(settings: Settings, cancelled: bool, practice: bool) -> (s: Self)
        ensures
            s.model() == (ResultsModel {
                settings,
                cancelled,
                practice,
                pane: Pane::Summary,
                selected_level: clamp_u8(settings.level, 1, 5),
            }),
    {
        let selected_level = if settings.level < 1 {
            1
        } else if settings.level > 5 {
            5
        } else {
            settings.level
        };
        ResultsScreen { settings, cancelled, practice, pane: Pane::Summary, selected_level }
    }

    /// The just-played settings (level + duration), for restart/change-settings.
    pub fn settings(&self) -> (s: Settings)
        ensures
            s == self.model().settings,
    {
        self.settings
    }

    /// Whether the run was cancelled before time ran out.
    pub fn is_cancelled(&self) -> (r: bool)
        ensures
            r == self.model().cancelled,
    {
        self.cancelled
    }

    /// Whether the run was a practice drill.
    pub fn is_practice(&self) -> (r: bool)
        ensures
            r == self.model().practice,
    {
        self.practice
    }

    /// The level tab selected in the history view.
    pub fn selected_level(&self) -> (r: u8)
        ensures
            r == self.model().selected_level,
            1 <= r <= 5,
    {
        proof {
            use_type_invariant(self);
        }
        self.selected_level
    }

    /// Whether the history view is showing.
    pub fn in_history(&self) -> (r: bool)
        ensures
            r == (self.model().pane == Pane::History),
    {
        self.pane == Pane::History
    }

    /// Map a keypress to an action. On the summary: Enter restarts, `s`
    /// changes settings, `w` opens the weaknesses, `h` opens the history,
    /// `q`/Esc quit. In the history: ←/→ move the level tab within 1..=5,
    /// Esc/`h` return to the summary, `q` quits.
    pub fn handle_key(&mut self, code: Key) -> (r: Option<ResultsAction>)
        ensures
            1 <= final(self).model().selected_level <= 5,
            ({
                let o = old(self).model();
                let f = final(self).model();
                if o.pane == Pane::Summary {
                    match code {
                        Key::Enter => r == Some(ResultsAction::Restart) && f == o,
                        Key::Char('s') | Key::Char('S') => r == Some(ResultsAction::ChangeSettings)
                            && f == o,
                        Key::Char('w') | Key::Char('W') => r == Some(ResultsAction::Weaknesses)
                            && f == o,
                        Key::Char('h') | Key::Char('H') => r is None && f == (ResultsModel {
                            pane: Pane::History,
                            ..o
                        }),
                        Key::Char('q') | Key::Char('Q') | Key::Esc => r == Some(ResultsAction::Quit)
                            && f == o,
                        _ => r is None && f == o,
                    }
                } else {
                    match code {
                        Key::Left => r is None && f == (ResultsModel {
                            selected_level: if o.selected_level > 1 {
                                (o.selected_level - 1) as u8
                            } else {
                                1
                            },
                            ..o
                        }),
                        Key::Right => r is None && f == (ResultsModel {
                            selected_level: if o.selected_level < 5 {
                                (o.selected_level + 1) as u8
                            } else {
                                5
                            },
                            ..o
                        }),
                        Key::Esc | Key::Char('h') | Key::Char('H') => r is None && f == (
                        ResultsModel { pane: Pane::Summary, ..o }),
                        Key::Char('q') | Key::Char('Q') => r == Some(ResultsAction::Quit) && f == o,
                        _ => r is None && f == o,
                    }
                }
            }),
    {
        proof {
            use_type_invariant(&*self);
        }
        match self.pane {
            Pane::Summary => match code {
                Key::Enter => Some(ResultsAction::Restart),
                Key::Char('s') | Key::Char('S') => Some(ResultsAction::ChangeSettings),
                Key::Char('w') | Key::Char('W') => Some(ResultsAction::Weaknesses),
                Key::Char('h') | Key::Char('H') => {
                    self.pane = Pane::History;
                    None
                },
                Key::Char('q') | Key::Char('Q') | Key::Esc => Some(ResultsAction::Quit),
                _ => None,
            },
            Pane::History => match code {
                Key::Left => {
                    if self.selected_level > 1 {
                        self.selected_level = self.selected_level - 1;
                    }
                    None
                },
                Key::Right => {
                    if self.selected_level < 5 {
                        self.selected_level = self.selected_level + 1;
                    }
                    None
                },
                Key::Esc | Key::Char('h') | Key::Char('H') => {
                    self.pane = Pane::Summary;
                    None
                },
                Key::Char('q') | Key::Char('Q') => Some(ResultsAction::Quit),
                _ => None,
            },
        }
    }
}

/// The results screen's border title.
pub open spec fn title_of(m: ResultsModel) -> Seq<char> {
    if m.pane == Pane::History {
        " history "@
    } else {
        let head = " results — level "@ + decimal(m.settings.level as nat) + " · "@ + decimal(
            m.settings.duration_secs as nat,
        ) + "s"@;
        if m.cancelled {
            head + " · cancelled "@
        } else {
            head + " "@
        }
    }
}

/// The line above the history charts: how many sessions a level has.
pub open spec fn level_count_of(level: u8, count: Option<usize>) -> Seq<char> {
    let head = "  level "@ + decimal(level as nat) + " · "@;
    match count {
        Some(n) => head + decimal(n as nat) + " session(s)"@,
        None => head + "no sessions yet"@,
    }
}

/// A level tab's label; the played level is marked with `*`.
pub open spec fn tab_label_of(level: u8, played: u8) -> Seq<char> {
    if level == played {
        seq![' '] + decimal(level as nat) + seq!['*', ' ']
    } else {
        seq![' '] + decimal(level as nat) + seq![' ']
    }
}

impl ResultsScreen {
    /// The border title: level and duration on the summary (noting a
    /// cancelled run), "history" on the history view.
    pub fn title(&self) -> (r: String)
        ensures
            r@ == title_of(self.model()),
    {
        if self.pane == Pane::History {
            return String::from_str(" history ");
        }
        let mut t = String::from_str(" results — level ");
        let lv = decimal_string(self.settings.level as u64);
        t.append(lv.as_str());
        t.append(" · ");
        let d = decimal_string(self.settings.duration_secs);
        t.append(d.as_str());
        t.append("s");
        if self.cancelled {
            t.append(" · cancelled ");
        } else {
            t.append(" ");
        }
        t
    }
}

/// `  level N · M session(s)`, or `… · no sessions yet` when there are none.
pub fn level_count_text(level: u8, count: Option<usize>) -> (r: String)
    ensures
        r@ == level_count_of(level, count),
{
    let mut t = String::from_str("  level ");
    let lv = decimal_string(level as u64);
    t.append(lv.as_str());
    t.append(" · ");
    match count {
        Some(n) => {
            let c = decimal_string(n as u64);
            t.append(c.as_str());
            t.append(" session(s)");
        },
        None => {
            t.append("no sessions yet");
        },
    }
    t
}

/// The label of the tab for `level`, marked when it is the `played` level.
pub fn tab_label(level: u8, played: u8) -> (r: String)
    ensures
        r@ == tab_label_of(level, played),
{
    let mut t = String::new();
    string_push(&mut t, ' ');
    let lv = decimal_string(level as u64);
    t.append(lv.as_str());
    if level == played {
        string_push(&mut t, '*');
    }
    string_push(&mut t, ' ');
    proof {
        assert(t@ =~= tab_label_of(level, played));
    }
    t
}

} // verus!
