use vstd::prelude::*;

use super::Key;
use crate::mistakes::{ranked, sort_weaknesses, Sort, Weakness, WeaknessProfile};
use crate::history::{decimal, decimal_string};
use crate::ui::config::clamp_u8;
use crate::words::string_push;

verus! {

/// What the weakness explorer asks for.
#[derive(Clone, Copy, PartialEq, Eq, Debug, Structural)]
pub enum WeaknessAction {
    /// Return to the results screen.
    Back,
    /// Launch a practice session on these weaknesses.
    Practice,
    /// Quit the app.
    Quit,
}

/// Whether `after` holds the entries of `before`, ranked under `sort`.
pub open spec fn reranked(before: Seq<Weakness>, after: Seq<Weakness>, sort: Sort) -> bool {
    after.to_multiset() == before.to_multiset() && ranked(after, sort)
}

/// Whether `after` is `before` with its three lists re-ranked under `sort`.
pub open spec fn profile_reranked(before: WeaknessProfile, after: WeaknessProfile, sort: Sort) -> bool {
    &&& reranked(before.keys@, after.keys@, sort)
    &&& reranked(before.combos@, after.combos@, sort)
    &&& reranked(before.words@, after.words@, sort)
    &&& after.sessions == before.sessions
}

/// The weakness explorer: ranked weak keys / combos / fumbled words, with a
/// sort toggle.
pub struct WeaknessScreen {
    profile: WeaknessProfile,
    sort: Sort,
    /// Level to practice at (the run the user came from).
    level: u8,
}

impl WeaknessScreen {
    /// The profile shown.
    pub closed spec fn shown(&self) -> WeaknessProfile {
        self.profile
    }

    /// The current ranking.
    pub closed spec fn sorting(&self) -> Sort {
        self.sort
    }

    /// The practice level.
    pub closed spec fn practice_level(&self) -> u8 {
        self.level
    }

    /// The explorer for `profile`, ranked by miss rate, practising at `level`
    /// clamped to 1..=5.
    pub fn new(profile: WeaknessProfile, level: u8) -> (s: Self)
        ensures
            profile_reranked(profile, s.shown(), Sort::Rate),
            s.sorting() == Sort::Rate,
            s.practice_level() == clamp_u8(level, 1, 5),
    {
        let level = if level < 1 {
            1
        } else if level > 5 {
            5
        } else {
            level
        };
        let mut screen = WeaknessScreen { profile, sort: Sort::Rate, level };
        sort_weaknesses(&mut screen.profile.keys, Sort::Rate);
        sort_weaknesses(&mut screen.profile.combos, Sort::Rate);
        sort_weaknesses(&mut screen.profile.words, Sort::Rate);
        screen
    }

    /// The level to practice at.
    pub fn level(&self) -> (r: u8)
        ensures
            r == self.practice_level(),
    {
        self.level
    }

    /// The profile as currently ranked.
    pub fn profile(&self) -> (r: &WeaknessProfile)
        ensures
            *r == self.shown(),
    {
        &self.profile
    }

    /// The current ranking.
    pub fn sort(&self) -> (r: Sort)
        ensures
            r == self.sorting(),
    {
        self.sort
    }

    /// Map a keypress to an action. Enter practises; ←/→ toggle the ranking
    /// between miss rate and miss count and re-rank; Esc/`w` go back; `q`
    /// quits.
    pub fn handle_key(&mut self, code: Key) -> (r: Option<WeaknessAction>)
        ensures
            final(self).practice_level() == old(self).practice_level(),
            match code {
                Key::Enter => r == Some(WeaknessAction::Practice) && final(self).shown() == old(self).shown() && final(self).sorting() == old(self).sorting(),
                Key::Left | Key::Right => {
                    let ns = if old(self).sorting() == Sort::Rate {
                        Sort::Count
                    } else {
                        Sort::Rate
                    };
                    &&& r is None
                    &&& final(self).sorting() == ns
                    &&& profile_reranked(old(self).shown(), final(self).shown(), ns)
                },
                Key::Esc | Key::Char('w') | Key::Char('W') => r == Some(WeaknessAction::Back)
                    && final(self).shown() == old(self).shown() && final(self).sorting() == old(self).sorting(),
                Key::Char('q') | Key::Char('Q') => r == Some(WeaknessAction::Quit) && final(self).shown() == old(self).shown() && final(self).sorting() == old(self).sorting(),
                _ => r is None && final(self).shown() == old(self).shown() && final(self).sorting()
                    == old(self).sorting(),
            },
    {
        match code {
            Key::Enter => Some(WeaknessAction::Practice),
            Key::Left | Key::Right => {
                self.sort = match self.sort {
                    Sort::Rate => Sort::Count,
                    Sort::Count => Sort::Rate,
                };
                sort_weaknesses(&mut self.profile.keys, self.sort);
                sort_weaknesses(&mut self.profile.combos, self.sort);
                sort_weaknesses(&mut self.profile.words, self.sort);
                None
            },
            Key::Esc | Key::Char('w') | Key::Char('W') => Some(WeaknessAction::Back),
            Key::Char('q') | Key::Char('Q') => Some(WeaknessAction::Quit),
            _ => None,
        }
    }
}

/// `s` padded with spaces to at least `width` chars.
pub open spec fn pad_to(s: Seq<char>, width: nat) -> Seq<char> {
    if s.len() >= width {
        s
    } else {
        s + Seq::new((width - s.len()) as nat, |_i: int| ' ')
    }
}

/// A weakness's label as listed: a word longer than ten chars shows its
/// first nine and an ellipsis, a shorter word is padded to ten; a key or
/// combo is padded to four.
pub open spec fn label_of(label: Seq<char>, word: bool) -> Seq<char> {
    if word {
        if label.len() > 10 {
            label.take(9).push('…')
        } else {
            pad_to(label, 10)
        }
    } else {
        pad_to(label, 4)
    }
}

/// A weakness's label as listed; see `label_of`.
pub fn label_text(label: &str, word: bool) -> (r: String)
    ensures
        r@ == label_of(label@, word),
{
    let n = label.unicode_len();
    let mut t = String::new();
    if word && n > 10 {
        let mut i: usize = 0;
        while i < 9
            invariant
                i <= 9,
                n == label@.len(),
                n > 10,
                t@ == label@.take(i as int),
            decreases 9 - i,
        {
            string_push(&mut t, label.get_char(i));
            i = i + 1;
            proof {
                assert(t@ =~= label@.take(i as int));
            }
        }
        string_push(&mut t, '…');
        return t;
    }
    let width: usize = if word {
        10
    } else {
        4
    };
    t.append(label);
    let mut k: usize = n;
    while k < width
        invariant
            k <= (if n > width {
                n
            } else {
                width
            }),
            n == label@.len(),
            k >= n,
            t@ == label@ + Seq::new((k - n) as nat, |_i: int| ' '),
        decreases width - k,
    {
        string_push(&mut t, ' ');
        k = k + 1;
        proof {
            assert(t@ =~= label@ + Seq::new((k - n) as nat, |_i: int| ' '));
        }
    }
    proof {
        if n >= width {
            assert(t@ =~= label@);
        }
        assert(t@ =~= label_of(label@, word));
    }
    t
}

/// ` (bad/total)` after a weakness's rate.
pub open spec fn tally_of(bad: u32, total: u32) -> Seq<char> {
    " ("@ + decimal(bad as nat) + "/"@ + decimal(total as nat) + ")"@
}

/// ` (bad/total)` after a weakness's rate.
pub fn tally_text(bad: u32, total: u32) -> (r: String)
    ensures
        r@ == tally_of(bad, total),
{
    let mut t = String::from_str(" (");
    let b = decimal_string(bad as u64);
    t.append(b.as_str());
    t.append("/");
    let n = decimal_string(total as u64);
    t.append(n.as_str());
    t.append(")");
    t
}

/// The note under the columns: how many sessions the profile covers.
pub open spec fn sessions_note_of(sessions: u32) -> Seq<char> {
    "based on your last "@ + decimal(sessions as nat) + " sessions"@
}

/// The note under the columns; see `sessions_note_of`.
pub fn sessions_note(sessions: u32) -> (r: String)
    ensures
        r@ == sessions_note_of(sessions),
{
    let mut t = String::from_str("based on your last ");
    let n = decimal_string(sessions as u64);
    t.append(n.as_str());
    t.append(" sessions");
    t
}

} // verus!
