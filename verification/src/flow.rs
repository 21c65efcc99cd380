//! The screen-to-screen flow of the app: which screen comes next, given how
//! the current one ended.

use vstd::prelude::*;

use crate::config::{default_settings, Settings, DEFAULT_DURATION_SECS};
use crate::mistakes::{Sort, WeaknessProfile};
use crate::ui::config::{clamp_u8, ConfigAction};
use crate::ui::results::{Pane, ResultsAction, ResultsModel, ResultsScreen};
use crate::ui::weaknesses::{profile_reranked, WeaknessAction, WeaknessScreen};

verus! {

/// How a typing or practice run ended. `P` is whatever the caller keeps for
/// the results of a run that reached the results screen.
pub enum TypingEnd<P> {
    /// Time ran out.
    Completed(P),
    /// Esc was pressed before time ran out.
    Cancelled(P),
    /// Ctrl-C.
    Quit,
}

/// The screen being shown. `P` is what the caller keeps alongside a results
/// screen (its charts and numbers).
pub enum Screen<P> {
    /// Setup, pre-filled with these settings.
    Setup(Settings),
    Typing(Settings),
    Practice(Settings),
    Stats(ResultsScreen, P),
    Weaknesses(WeaknessScreen),
}

/// How the current screen ended.
pub enum Event<P> {
    /// The setup screen returned an action.
    Setup(ConfigAction),
    /// A typing or practice run ended.
    Typed(TypingEnd<P>),
    /// The results screen returned an action other than opening the
    /// weaknesses.
    Stats(ResultsAction),
    /// The results screen asked for the weaknesses, which are
    /// `WeaknessProfile`.
    Explore(WeaknessProfile),
    /// The weakness explorer returned an action.
    Weaknesses(WeaknessAction),
}

/// The app's state: the current screen and the results screen that Esc in
/// setup or the explorer returns to.
pub struct Flow<P> {
    pub screen: Screen<P>,
    pub return_to: Option<(ResultsScreen, P)>,
}

/// Whether `event` is one that the screen `screen` can end with.
pub open spec fn ends<P>(screen: Screen<P>, event: Event<P>) -> bool {
    match screen {
        Screen::Setup(_) => event is Setup,
        Screen::Typing(_) | Screen::Practice(_) => event is Typed,
        Screen::Stats(_, _) => (event is Stats && event->Stats_0 != ResultsAction::Weaknesses)
            || event is Explore,
        Screen::Weaknesses(_) => event is Weaknesses,
    }
}

/// Whether `r` shows the results of a run played with `settings` (a practice
/// run or not, cancelled or not) with `data` kept alongside, and remembers
/// `return_to`.
pub open spec fn shows_results<P>(
    r: Option<Flow<P>>,
    return_to: Option<(ResultsScreen, P)>,
    settings: Settings,
    practice: bool,
    cancelled: bool,
    data: P,
) -> bool {
    match r {
        Some(f) => f.return_to == return_to && match f.screen {
            Screen::Stats(v, e) => e == data && v.model() == (ResultsModel {
                settings,
                cancelled,
                practice,
                pane: Pane::Summary,
                selected_level: clamp_u8(settings.level, 1, 5),
            }),
            _ => false,
        },
        None => false,
    }
}

/// Whether `r` shows the explorer over `profile` (ranked by miss rate) at the
/// level of the results screen `v`, remembering `v` with its `data`.
pub open spec fn shows_explorer<P>(
    r: Option<Flow<P>>,
    v: ResultsScreen,
    data: P,
    profile: WeaknessProfile,
) -> bool {
    match r {
        Some(f) => f.return_to == Some((v, data)) && match f.screen {
            Screen::Weaknesses(w) => profile_reranked(profile, w.shown(), Sort::Rate) && w.sorting()
                == Sort::Rate && w.practice_level() == clamp_u8(v.model().settings.level, 1, 5),
            _ => false,
        },
        None => false,
    }
}

/// The screen to start on: straight into a session when the settings are
/// known (from the command line, else from a saved file), otherwise setup
/// with the defaults.
pub fn start<P>(cli: Option<Settings>, saved: Option<Settings>) -> (f: Flow<P>)
    ensures
        f.return_to is None,
        cli matches Some(s) ==> f.screen == Screen::<P>::Typing(s),
        cli is None ==> match saved {
            Some(s) => f.screen == Screen::<P>::Typing(s),
            None => f.screen == Screen::<P>::Setup(default_settings()),
        },
{
    let screen = match cli {
        Some(s) => Screen::Typing(s),
        None => match saved {
            Some(s) => Screen::Typing(s),
            None => Screen::Setup(Settings::default()),
        },
    };
    Flow { screen, return_to: None }
}

/// The results screen for a run that ended with `end`.
fn results_for<P>(settings: Settings, practice: bool, cancelled: bool, data: P) -> (s: Screen<P>)
    ensures
        s matches Screen::Stats(r, d) && d == data && r.model() == (ResultsModel {
            settings,
            cancelled,
            practice,
            pane: Pane::Summary,
            selected_level: clamp_u8(settings.level, 1, 5),
        }),
{
    if practice {
        Screen::Stats(ResultsScreen::new_practice(settings, cancelled), data)
    } else {
        Screen::Stats(ResultsScreen::new(settings, cancelled), data)
    }
}

/// How the flow moves: `r` is the next state after `from`'s screen ended
/// with `event` (`None`: the app exits). See `Flow::step`.
pub open spec fn steps_to<P>(from: Flow<P>, event: Event<P>, r: Option<Flow<P>>) -> bool {
    match (from.screen, event) {
        (Screen::Setup(_), Event::Setup(ConfigAction::Confirm(s))) => r == Some(
            Flow { screen: Screen::<P>::Typing(s), return_to: None },
        ),
        (Screen::Setup(_), Event::Setup(ConfigAction::Back)) => match from.return_to {
            Some((v, d)) => r == Some(Flow { screen: Screen::Stats(v, d), return_to: None }),
            None => r is None,
        },
        (Screen::Setup(_), Event::Setup(ConfigAction::Quit)) => r is None,
        (Screen::Typing(s), Event::Typed(TypingEnd::Completed(d))) => shows_results(
            r,
            from.return_to,
            s,
            false,
            false,
            d,
        ),
        (Screen::Typing(s), Event::Typed(TypingEnd::Cancelled(d))) => shows_results(
            r,
            from.return_to,
            s,
            false,
            true,
            d,
        ),
        (Screen::Practice(s), Event::Typed(TypingEnd::Completed(d))) => shows_results(
            r,
            from.return_to,
            s,
            true,
            false,
            d,
        ),
        (Screen::Practice(s), Event::Typed(TypingEnd::Cancelled(d))) => shows_results(
            r,
            from.return_to,
            s,
            true,
            true,
            d,
        ),
        (_, Event::Typed(TypingEnd::Quit)) => r is None,
        (Screen::Stats(v, d), Event::Stats(ResultsAction::Restart)) => r == Some(
            Flow {
                screen: if v.model().practice {
                    Screen::<P>::Practice(v.model().settings)
                } else {
                    Screen::<P>::Typing(v.model().settings)
                },
                return_to: from.return_to,
            },
        ),
        (Screen::Stats(v, d), Event::Stats(ResultsAction::ChangeSettings)) => r
            == Some(
            Flow { screen: Screen::<P>::Setup(v.model().settings), return_to: Some((v, d)) },
        ),
        (Screen::Stats(_, _), Event::Stats(ResultsAction::Quit)) => r is None,
        (Screen::Stats(v, d), Event::Explore(profile)) => shows_explorer(r, v, d, profile),
        (Screen::Weaknesses(_), Event::Weaknesses(WeaknessAction::Back)) => match from.return_to {
            Some((v, d)) => r == Some(Flow { screen: Screen::Stats(v, d), return_to: None }),
            None => r is None,
        },
        (Screen::Weaknesses(w), Event::Weaknesses(WeaknessAction::Practice)) => r == Some(
            Flow {
                screen: Screen::<P>::Practice(
                    Settings {
                        level: w.practice_level(),
                        duration_secs: match from.return_to {
                            Some((v, _)) => v.model().settings.duration_secs,
                            None => DEFAULT_DURATION_SECS,
                        },
                    },
                ),
                return_to: None,
            },
        ),
        (Screen::Weaknesses(_), Event::Weaknesses(WeaknessAction::Quit)) => r is None,
        _ => true,
    }
}

impl<P> Flow<P> {
    /// The next state after the current screen ended with `event`, or `None`
    /// when the app exits.
    ///
    /// - Setup: confirming starts a session (forgetting the screen to return
    ///   to); Esc returns to the results screen setup was opened from, or
    ///   exits when there is none; `q` exits.
    /// - Typing / practice: a finished or cancelled run shows its results
    ///   (marked as practice for a practice run); Ctrl-C exits.
    /// - Results: Enter plays again (a practice drill again after practice);
    ///   `s` opens setup pre-filled with the played settings and `w` the
    ///   explorer, both remembering this results screen; `q` exits.
    /// - Explorer: Esc returns to the remembered results screen (or exits);
    ///   Enter starts practice at the explorer's level for the remembered
    ///   duration (the default when none), leaving the results lineage; `q`
    ///   exits.
    pub fn step(self, event: Event<P>) -> (r: Option<Flow<P>>)
        requires
            ends(self.screen, event),
        ensures
            steps_to(self, event, r),
    {
        let Flow { screen, return_to } = self;
        match screen {
            Screen::Setup(_) => match event {
                Event::Setup(ConfigAction::Confirm(s)) => Some(
                    Flow { screen: Screen::Typing(s), return_to: None },
                ),
                Event::Setup(ConfigAction::Back) => match return_to {
                    Some((v, d)) => Some(Flow { screen: Screen::Stats(v, d), return_to: None }),
                    None => None,
                },
                _ => None,
            },
            Screen::Typing(s) => match event {
                Event::Typed(TypingEnd::Completed(d)) => Some(
                    Flow { screen: results_for(s, false, false, d), return_to },
                ),
                Event::Typed(TypingEnd::Cancelled(d)) => Some(
                    Flow { screen: results_for(s, false, true, d), return_to },
                ),
                _ => None,
            },
            Screen::Practice(s) => match event {
                Event::Typed(TypingEnd::Completed(d)) => Some(
                    Flow { screen: results_for(s, true, false, d), return_to },
                ),
                Event::Typed(TypingEnd::Cancelled(d)) => Some(
                    Flow { screen: results_for(s, true, true, d), return_to },
                ),
                _ => None,
            },
            Screen::Stats(v, d) => match event {
                Event::Stats(ResultsAction::Restart) => {
                    let s = v.settings();
                    if v.is_practice() {
                        Some(Flow { screen: Screen::Practice(s), return_to })
                    } else {
                        Some(Flow { screen: Screen::Typing(s), return_to })
                    }
                },
                Event::Stats(ResultsAction::ChangeSettings) => {
                    let seed = v.settings();
                    Some(Flow { screen: Screen::Setup(seed), return_to: Some((v, d)) })
                },
                Event::Explore(profile) => {
                    let level = v.settings().level;
                    let w = WeaknessScreen::new(profile, level);
                    Some(Flow { screen: Screen::Weaknesses(w), return_to: Some((v, d)) })
                },
                _ => None,
            },
            Screen::Weaknesses(w) => match event {
                Event::Weaknesses(WeaknessAction::Back) => match return_to {
                    Some((v, d)) => Some(Flow { screen: Screen::Stats(v, d), return_to: None }),
                    None => None,
                },
                Event::Weaknesses(WeaknessAction::Practice) => {
                    let duration_secs = match &return_to {
                        Some((v, _)) => v.settings().duration_secs,
                        None => DEFAULT_DURATION_SECS,
                    };
                    let level = w.level();
                    Some(
                        Flow {
                            screen: Screen::Practice(Settings { level, duration_secs }),
                            return_to: None,
                        },
                    )
                },
                _ => None,
            },
        }
    }
}

/// From setup opened with `s` on a results screen, Esc returns to that very
/// results screen, with its data, and forgets it as a place to return to.
pub proof fn law_setup_back_returns_to_results<P>(
    f0: Flow<P>,
    v: ResultsScreen,
    d: P,
    f1: Flow<P>,
    r: Option<Flow<P>>,
)
    requires
        f0.screen == Screen::Stats(v, d),
        steps_to(f0, Event::Stats(ResultsAction::ChangeSettings), Some(f1)),
        steps_to(f1, Event::Setup(ConfigAction::Back), r),
    ensures
        r == Some(Flow { screen: Screen::Stats(v, d), return_to: None }),
{
}

/// From the explorer opened with `w` on a results screen, Esc returns to that
/// very results screen, with its data.
pub proof fn law_explorer_back_returns_to_results<P>(
    f0: Flow<P>,
    v: ResultsScreen,
    d: P,
    profile: WeaknessProfile,
    f1: Flow<P>,
    r: Option<Flow<P>>,
)
    requires
        f0.screen == Screen::Stats(v, d),
        steps_to(f0, Event::Explore(profile), Some(f1)),
        steps_to(f1, Event::Weaknesses(WeaknessAction::Back), r),
    ensures
        r == Some(Flow { screen: Screen::Stats(v, d), return_to: None }),
{
}

/// Starting a session from setup forgets any results screen to return to,
/// and a quit from any screen exits.
pub proof fn law_start_and_quit<P>(f0: Flow<P>, s: Settings, r: Option<Flow<P>>, q: Option<Flow<P>>)
    requires
        f0.screen is Setup,
        steps_to(f0, Event::Setup(ConfigAction::Confirm(s)), r),
        steps_to(f0, Event::Setup(ConfigAction::Quit), q),
    ensures
        r == Some(Flow { screen: Screen::<P>::Typing(s), return_to: None }),
        q is None,
{
}

/// The settings a typing or practice screen plays at.
pub open spec fn played<P>(screen: Screen<P>) -> Settings {
    match screen {
        Screen::Typing(s) => s,
        Screen::Practice(s) => s,
        _ => default_settings(),
    }
}

/// A run's results screen says how the run ended: a normal or practice run
/// ended with Esc shows results marked cancelled, and one that ran out of
/// time shows results not marked cancelled; either way for the settings it
/// was played at, marked as practice exactly for a practice run, with the
/// run's data kept alongside.
pub proof fn law_results_show_how_the_run_ended<P>(f: Flow<P>, end: TypingEnd<P>, r: Option<Flow<P>>)
    requires
        f.screen is Typing || f.screen is Practice,
        !(end is Quit),
        steps_to(f, Event::Typed(end), r),
    ensures
        match r {
            Some(g) => match g.screen {
                Screen::Stats(v, d) => {
                    &&& v.model().cancelled == (end is Cancelled)
                    &&& v.model().practice == (f.screen is Practice)
                    &&& v.model().settings == played(f.screen)
                    &&& (match end {
                        TypingEnd::Completed(e) => d == e,
                        TypingEnd::Cancelled(e) => d == e,
                        TypingEnd::Quit => true,
                    })
                },
                _ => false,
            },
            None => false,
        },
{
}

} // verus!
