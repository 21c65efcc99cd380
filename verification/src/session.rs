use std::collections::BTreeMap;
use vstd::prelude::*;

use crate::mistakes::{by_text, text_map_get, text_map_insert, MistakeTally};
use crate::ui::Key;
use crate::words::{
    is_ascii_lower, is_word, lemma_pool_words_are_words, pool_of, word_list, WordPool, WordStream,
};

verus! {

/// How one character of the target text currently stands.
#[derive(Clone, Copy, PartialEq, Eq, Debug, Structural)]
pub enum CharState {
    Untyped,
    Correct,
    Wrong,
}

/// Minimum number of target chars kept ahead of the cursor. Sized so the typing
/// screen always has enough text to fill three lines at the default column width.
pub const LOOKAHEAD: usize = 256;

/// Nanoseconds per second: session times are counted in nanoseconds.
pub const NANOS_PER_SEC: u64 = 1_000_000_000;

/// One generated word of the target: where it starts and ends, and its text.
pub struct WordSpan {
    pub start: usize,
    pub end: usize,
    pub text: String,
}

/// The abstract state of a session.
pub struct SessionModel {
    pub target: Seq<char>,
    pub states: Seq<CharState>,
    /// Set at a position when any wrong keystroke lands there; never cleared.
    pub ever_wrong: Seq<bool>,
    /// (start, end, text) of every generated word, in target order.
    pub spans: Seq<(int, int, Seq<char>)>,
    /// Every counted keystroke: the expected char and whether it was wrong.
    pub log: Seq<(char, bool)>,
    /// expected char -> (occurrences, wrong); spaces excluded.
    pub keys: Map<char, (u32, u32)>,
    pub cursor: int,
    pub errors: int,
    pub keystrokes: int,
    pub duration: int,
    pub started_at: Option<int>,
    /// The number of correct chars at the end of each whole elapsed second.
    pub samples: Seq<usize>,
    /// The words the session's source hands out.
    pub vocabulary: Set<Seq<char>>,
    /// Every call made to the source so far: the `prev` handed to it and the
    /// word it returned.
    pub calls: Seq<(Option<Seq<char>>, Seq<char>)>,
}

/// The calls that hand out the words `ws` in order: the first is handed
/// `prev0`, each later one the word before it.
pub open spec fn calls_for(prev0: Option<Seq<char>>, ws: Seq<Seq<char>>) -> Seq<
    (Option<Seq<char>>, Seq<char>),
> {
    Seq::new(
        ws.len(),
        |j: int|
            (
                if j == 0 {
                    prev0
                } else {
                    Some(ws[j - 1])
                },
                ws[j],
            ),
    )
}

/// The text of the last of `spans`, if there is one.
pub open spec fn last_text(spans: Seq<(int, int, Seq<char>)>) -> Option<Seq<char>> {
    if spans.len() > 0 {
        Some(spans.last().2)
    } else {
        None
    }
}

/// The source was asked for exactly the words the target gained from `o`
/// to `f`, in order, each call handed the word before it.
pub open spec fn asked_for(
    o_calls: Seq<(Option<Seq<char>>, Seq<char>)>,
    o_spans: Seq<(int, int, Seq<char>)>,
    f_calls: Seq<(Option<Seq<char>>, Seq<char>)>,
    f_spans: Seq<(int, int, Seq<char>)>,
) -> bool {
    f_calls == o_calls + calls_for(last_text(o_spans), span_texts(f_spans).skip(o_spans.len() as int))
}

/// The texts of `spans`, in order.
pub open spec fn span_texts(spans: Seq<(int, int, Seq<char>)>) -> Seq<Seq<char>> {
    spans.map_values(|x: (int, int, Seq<char>)| x.2)
}

/// The words `ws` joined by single spaces.
pub open spec fn joined(ws: Seq<Seq<char>>) -> Seq<char>
    decreases ws.len(),
{
    if ws.len() == 0 {
        Seq::empty()
    } else if ws.len() == 1 {
        ws[0]
    } else {
        joined(ws.drop_last()) + seq![' '] + ws.last()
    }
}

/// The length the target had before its last word (and the space before it)
/// was added.
pub open spec fn before_last(spans: Seq<(int, int, Seq<char>)>) -> int {
    if spans.len() > 1 {
        spans[spans.len() - 2].1
    } else {
        0
    }
}

/// How the target grows to keep `LOOKAHEAD` chars ahead of `cursor`: it stays
/// as it was when it already does, and otherwise gains whole words up to the
/// first length that does.
pub open spec fn grown(
    o_target: Seq<char>,
    o_spans: Seq<(int, int, Seq<char>)>,
    f_target: Seq<char>,
    f_spans: Seq<(int, int, Seq<char>)>,
    cursor: int,
) -> bool {
    if o_target.len() >= cursor + LOOKAHEAD {
        f_target == o_target && f_spans == o_spans
    } else {
        f_spans.len() > o_spans.len() && before_last(f_spans) < cursor + LOOKAHEAD
    }
}

/// The number of keystrokes in `log` whose expected char is `c`.
pub open spec fn key_total(log: Seq<(char, bool)>, c: char) -> nat
    decreases log.len(),
{
    if log.len() == 0 {
        0
    } else {
        key_total(log.drop_last(), c) + if log.last().0 == c {
            1nat
        } else {
            0nat
        }
    }
}

/// The number of wrong keystrokes in `log` whose expected char is `c`.
pub open spec fn key_wrong(log: Seq<(char, bool)>, c: char) -> nat
    decreases log.len(),
{
    if log.len() == 0 {
        0
    } else {
        key_wrong(log.drop_last(), c) + if log.last().0 == c && log.last().1 {
            1nat
        } else {
            0nat
        }
    }
}

/// The number of wrong keystrokes in `log`.
pub open spec fn wrong_total(log: Seq<(char, bool)>) -> nat
    decreases log.len(),
{
    if log.len() == 0 {
        0
    } else {
        wrong_total(log.drop_last()) + if log.last().1 {
            1nat
        } else {
            0nat
        }
    }
}

/// The per-key tally of a keystroke log: every non-space expected char that
/// was struck maps to (occurrences, wrong).
pub open spec fn key_tally_of(log: Seq<(char, bool)>) -> Map<char, (u32, u32)> {
    Map::new(
        |c: char| c != ' ' && key_total(log, c) > 0,
        |c: char| (key_total(log, c) as u32, key_wrong(log, c) as u32),
    )
}

/// The number of `Correct` entries in `s`.
pub open spec fn count_correct(s: Seq<CharState>) -> nat
    decreases s.len(),
{
    if s.len() == 0 {
        0
    } else {
        count_correct(s.drop_last()) + if s.last() == CharState::Correct {
            1nat
        } else {
            0nat
        }
    }
}

/// The words of `spans` tile `target`: consecutive non-empty words separated by
/// single spaces, starting at 0 and ending at the end of the target.
pub open spec fn spans_tile(target: Seq<char>, spans: Seq<(int, int, Seq<char>)>) -> bool {
    &&& (spans.len() == 0 <==> target.len() == 0)
    &&& spans.len() > 0 ==> spans[0].0 == 0 && spans.last().1 == target.len()
    &&& forall|k: int|
        #![trigger spans[k]]
        0 <= k < spans.len() ==> {
            &&& 0 <= spans[k].0 < spans[k].1 <= target.len()
            &&& target.subrange(spans[k].0, spans[k].1) == spans[k].2
        }
    &&& forall|k: int|
        #![trigger spans[k + 1]]
        0 <= k < spans.len() - 1 ==> spans[k + 1].0 == spans[k].1 + 1 && target[spans[k].1]
            == ' '
}

/// Time elapsed at `now` in a session started at `started_at`, clamped to
/// `duration`; zero before the first keystroke.
pub open spec fn elapsed_at(started_at: Option<int>, duration: int, now: int) -> int {
    match started_at {
        None => 0,
        Some(s) => {
            let d = if now >= s {
                now - s
            } else {
                0
            };
            if d < duration {
                d
            } else {
                duration
            }
        },
    }
}

/// Whether any wrong keystroke ever landed inside the typed part of `span`.
pub open spec fn span_fumbled(span: (int, int, Seq<char>), cursor: int, ever_wrong: Seq<bool>) -> bool {
    exists|p: int| span.0 <= p < span.1 && p < cursor && #[trigger] ever_wrong[p]
}

/// How many words of `spans` with text `s` the cursor has reached.
pub open spec fn word_seen(spans: Seq<(int, int, Seq<char>)>, cursor: int, s: Seq<char>) -> nat
    decreases spans.len(),
{
    if spans.len() == 0 {
        0
    } else {
        word_seen(spans.drop_last(), cursor, s) + if spans.last().0 < cursor && spans.last().2 == s {
            1nat
        } else {
            0nat
        }
    }
}

/// How many reached words of `spans` with text `s` were fumbled.
pub open spec fn word_fumbled(
    spans: Seq<(int, int, Seq<char>)>,
    cursor: int,
    ever_wrong: Seq<bool>,
    s: Seq<char>,
) -> nat
    decreases spans.len(),
{
    if spans.len() == 0 {
        0
    } else {
        word_fumbled(spans.drop_last(), cursor, ever_wrong, s) + if spans.last().0 < cursor
            && spans.last().2 == s && span_fumbled(spans.last(), cursor, ever_wrong) {
            1nat
        } else {
            0nat
        }
    }
}

/// The per-word tally: every reached word's text maps to (seen, fumbled).
pub open spec fn word_tally_of(
    spans: Seq<(int, int, Seq<char>)>,
    cursor: int,
    ever_wrong: Seq<bool>,
) -> Map<Seq<char>, (u32, u32)> {
    Map::new(
        |s: Seq<char>| word_seen(spans, cursor, s) > 0,
        |s: Seq<char>|
            (word_seen(spans, cursor, s) as u32, word_fumbled(spans, cursor, ever_wrong, s) as u32),
    )
}

impl SessionModel {
    /// The target is made of the source's words: they are joined by single
    /// spaces, each is a word of the vocabulary, and no word repeats the one
    /// before it when the vocabulary holds another word.
    pub open spec fn made_of_words(self) -> bool {
        &&& self.target == joined(span_texts(self.spans))
        &&& forall|k: int|
            #![trigger self.spans[k]]
            0 <= k < self.spans.len() ==> self.vocabulary.contains(self.spans[k].2)
        &&& forall|k: int|
            #![trigger self.spans[k + 1]]
            0 <= k < self.spans.len() - 1 ==> ((exists|x: Seq<char>|
                #[trigger] self.vocabulary.contains(x) && x != self.spans[k].2) ==> self.spans[k
                + 1].2 != self.spans[k].2)
    }

    /// The session's internal consistency.
    pub open spec fn wf(self) -> bool {
        &&& self.made_of_words()
        &&& self.states.len() == self.target.len()
        &&& self.ever_wrong.len() == self.target.len()
        &&& 0 <= self.cursor
        &&& self.cursor + LOOKAHEAD <= self.target.len()
        &&& forall|i: int|
            #![trigger self.states[i]]
            self.cursor <= i < self.states.len() ==> self.states[i] == CharState::Untyped
        &&& forall|i: int|
            #![trigger self.states[i]]
            0 <= i < self.states.len() && self.states[i] == CharState::Wrong
                ==> self.ever_wrong[i]
        &&& spans_tile(self.target, self.spans)
        &&& self.keystrokes == self.log.len()
        &&& self.errors == wrong_total(self.log)
        &&& self.keys == key_tally_of(self.log)
        &&& self.cursor <= self.keystrokes
        &&& self.cursor <= u32::MAX
        &&& forall|c: char| c != ' ' ==> #[trigger] key_total(self.log, c) <= u32::MAX
        &&& (self.started_at is None ==> self.keystrokes == 0 && self.samples.len() == 0)
        &&& 0 <= self.duration <= u64::MAX
        &&& (self.started_at matches Some(s) ==> 0 <= s <= u64::MAX)
    }

    /// Whether one more keystroke fits the counters: the keystroke count
    /// below `usize::MAX`, the cursor below `u32::MAX`, and the strikes of
    /// the expected key (counted in a `u32`) below `u32::MAX`.
    pub open spec fn can_strike(self) -> bool {
        &&& self.keystrokes < usize::MAX
        &&& self.cursor < u32::MAX
        &&& (self.keys.contains_key(self.target[self.cursor]) ==> self.keys[self.target[self.cursor]].0
            < u32::MAX)
    }

    /// Time elapsed at `now`.
    pub open spec fn elapsed(self, now: int) -> int {
        elapsed_at(self.started_at, self.duration, now)
    }

    /// Whether the session has run out of time at `now`.
    pub open spec fn finished(self, now: int) -> bool {
        self.started_at is Some && self.elapsed(now) >= self.duration
    }

    /// Positions correct at this moment (after corrections).
    pub open spec fn correct(self) -> nat {
        count_correct(self.states.take(self.cursor))
    }
}

/// The fresh state of a session lasting `duration`: nothing typed, the clock
/// not started, the target pre-generated and untyped.
pub open spec fn fresh(m: SessionModel, duration: int) -> bool {
    &&& m.cursor == 0
    &&& m.keystrokes == 0
    &&& m.errors == 0
    &&& m.log.len() == 0
    &&& m.duration == duration
    &&& m.started_at is None
    &&& m.samples.len() == 0
    &&& m.target.len() >= LOOKAHEAD
    &&& grown(Seq::empty(), Seq::empty(), m.target, m.spans, 0)
    &&& forall|i: int| 0 <= i < m.states.len() ==> #[trigger] m.states[i] == CharState::Untyped
    &&& forall|i: int| 0 <= i < m.ever_wrong.len() ==> !#[trigger] m.ever_wrong[i]
}

impl SessionModel {
    /// The state after typing `c` at `now` (when `self` is not finished):
    /// the clock starts if it had not, the keystroke is counted and logged
    /// with the expected char, a wrong one is counted as an error and marks
    /// its position as ever wrong, the position is marked correct or wrong,
    /// the cursor advances, and the target may grow at its end.
    pub open spec fn struck(self, f: SessionModel, c: char, now: int) -> bool {
        let e = self.target[self.cursor];
        let w = c != e;
        &&& f.started_at == (if self.started_at is None {
            Some(now)
        } else {
            self.started_at
        })
        &&& f.keystrokes == self.keystrokes + 1
        &&& f.errors == self.errors + if w {
            1int
        } else {
            0int
        }
        &&& f.log == self.log.push((e, w))
        &&& f.cursor == self.cursor + 1
        &&& self.target.is_prefix_of(f.target)
        &&& self.spans.is_prefix_of(f.spans)
        &&& grown(self.target, self.spans, f.target, f.spans, f.cursor)
        &&& asked_for(self.calls, self.spans, f.calls, f.spans)
        &&& f.vocabulary == self.vocabulary
        &&& forall|i: int|
            self.ever_wrong.len() <= i < f.ever_wrong.len() ==> !#[trigger] f.ever_wrong[i]
        &&& f.states.take(self.states.len() as int) == self.states.update(
            self.cursor,
            if w {
                CharState::Wrong
            } else {
                CharState::Correct
            },
        )
        &&& f.states[self.cursor] == if w {
            CharState::Wrong
        } else {
            CharState::Correct
        }
        &&& forall|i: int|
            0 <= i < self.states.len() && i != self.cursor ==> #[trigger] f.states[i] == self.states[i]
        &&& f.ever_wrong[self.cursor] == (self.ever_wrong[self.cursor] || w)
        &&& f.ever_wrong.take(self.ever_wrong.len() as int) == self.ever_wrong.update(
            self.cursor,
            self.ever_wrong[self.cursor] || w,
        )
        &&& f.duration == self.duration
        &&& f.samples == self.samples
    }
}

/// A keystroke `c` at `now` takes `o` to `f`: ignored once the session has
/// finished, otherwise as `struck` says.
pub open spec fn after_keystroke(o: SessionModel, f: SessionModel, c: char, now: int) -> bool {
    if o.finished(now) {
        f == o
    } else {
        o.struck(f, c, now)
    }
}

/// The state after a backspace: the position before the cursor becomes
/// untyped and the cursor moves back onto it; nothing else changes. A no-op
/// at the start.
pub open spec fn after_backspace(o: SessionModel) -> SessionModel {
    if o.cursor > 0 {
        SessionModel {
            cursor: o.cursor - 1,
            states: o.states.update(o.cursor - 1, CharState::Untyped),
            ..o
        }
    } else {
        o
    }
}

/// The state after sampling at `now`: one sample, the current correct-char
/// count, per whole elapsed second not yet sampled; nothing before the clock
/// starts.
pub open spec fn ticked(o: SessionModel, now: int) -> SessionModel {
    if o.started_at is None {
        o
    } else {
        let secs = o.elapsed(now) / (NANOS_PER_SEC as int);
        let missing: int = if secs > o.samples.len() {
            secs - o.samples.len()
        } else {
            0
        };
        SessionModel {
            samples: o.samples + Seq::new(missing as nat, |_i: int| o.correct() as usize),
            ..o
        }
    }
}

/// A timed typing session over a stream of words.
pub struct Session<S> {
    source: S,
    target: Vec<char>,
    states: Vec<CharState>,
    ever_wrong: Vec<bool>,
    word_spans: Vec<WordSpan>,
    key_tally: BTreeMap<char, (u32, u32)>,
    log: Ghost<Seq<(char, bool)>>,
    cursor: usize,
    errors: usize,
    keystrokes: usize,
    duration: u64,
    started_at: Option<u64>,
    last_word: Option<String>,
    wpm_samples: Vec<usize>,
    sampled_secs: u64,
}

/// `BTreeMap::get` on a map keyed by `char`, copying the value out. The
/// standard library documents that `get` returns the value stored for a key
/// equal to the argument, or `None`; `char`'s ordering is total and agrees
/// with equality.
#[verifier::external_body]
fn char_map_get(m: &BTreeMap<char, (u32, u32)>, k: char) -> (r: Option<(u32, u32)>)
    ensures
        r == (if m@.contains_key(k) {
            Some(m@[k])
        } else {
            None
        }),
{
    m.get(&k).copied()
}

/// `BTreeMap::insert` on a map keyed by `char`: the standard library documents
/// that the key afterwards maps to `v` and every other entry is kept.
#[verifier::external_body]
fn char_map_insert(m: &mut BTreeMap<char, (u32, u32)>, k: char, v: (u32, u32))
    ensures
        final(m)@ == old(m)@.insert(k, v),
{
    m.insert(k, v);
}

proof fn lemma_key_tally_push(log: Seq<(char, bool)>, c: char, wrong: bool)
    ensures
        c == ' ' ==> key_tally_of(log.push((c, wrong))) == key_tally_of(log),
        c != ' ' ==> key_tally_of(log.push((c, wrong))) == key_tally_of(log).insert(
            c,
            (
                (key_total(log, c) + 1) as u32,
                (key_wrong(log, c) + if wrong {
                    1nat
                } else {
                    0nat
                }) as u32,
            ),
        ),
        wrong_total(log.push((c, wrong))) == wrong_total(log) + if wrong {
            1nat
        } else {
            0nat
        },
        forall|d: char| #[trigger] key_total(log.push((c, wrong)), d) == key_total(log, d) + if d == c {
            1nat
        } else {
            0nat
        },
{
    let l2 = log.push((c, wrong));
    assert(l2.drop_last() == log);
    assert forall|d: char| #[trigger] key_total(l2, d) == key_total(log, d) + if d == c {
        1nat
    } else {
        0nat
    } by {
        assert(l2.drop_last() == log);
    }
    assert forall|d: char| #[trigger] key_wrong(l2, d) == key_wrong(log, d) + if d == c && wrong {
        1nat
    } else {
        0nat
    } by {
        assert(l2.drop_last() == log);
    }
    if c == ' ' {
        assert(key_tally_of(l2) =~= key_tally_of(log));
    } else {
        assert(key_tally_of(l2) =~= key_tally_of(log).insert(
            c,
            (
                (key_total(log, c) + 1) as u32,
                (key_wrong(log, c) + if wrong {
                    1nat
                } else {
                    0nat
                }) as u32,
            ),
        ));
    }
}

proof fn lemma_key_counts_bounded(log: Seq<(char, bool)>, c: char)
    ensures
        key_wrong(log, c) <= key_total(log, c) <= log.len(),
        wrong_total(log) <= log.len(),
    decreases log.len(),
{
    if log.len() > 0 {
        lemma_key_counts_bounded(log.drop_last(), c);
    }
}

proof fn lemma_count_correct_push(s: Seq<CharState>, x: CharState)
    ensures
        count_correct(s.push(x)) == count_correct(s) + if x == CharState::Correct {
            1nat
        } else {
            0nat
        },
{
    assert(s.push(x).drop_last() == s);
}

proof fn lemma_count_correct_bounded(s: Seq<CharState>)
    ensures
        count_correct(s) <= s.len(),
    decreases s.len(),
{
    if s.len() > 0 {
        lemma_count_correct_bounded(s.drop_last());
    }
}

proof fn lemma_word_tally_push(
    spans: Seq<(int, int, Seq<char>)>,
    x: (int, int, Seq<char>),
    cursor: int,
    ever_wrong: Seq<bool>,
)
    ensures
        forall|s: Seq<char>| #[trigger] word_seen(spans.push(x), cursor, s) == word_seen(spans, cursor, s) + if x.0 < cursor && x.2 == s {
            1nat
        } else {
            0nat
        },
        forall|s: Seq<char>| #[trigger] word_fumbled(spans.push(x), cursor, ever_wrong, s) == word_fumbled(spans, cursor, ever_wrong, s)
            + if x.0 < cursor && x.2 == s && span_fumbled(x, cursor, ever_wrong) {
            1nat
        } else {
            0nat
        },
{
    assert(spans.push(x).drop_last() == spans);
}

proof fn lemma_word_counts_bounded(
    spans: Seq<(int, int, Seq<char>)>,
    cursor: int,
    ever_wrong: Seq<bool>,
    s: Seq<char>,
)
    ensures
        word_fumbled(spans, cursor, ever_wrong, s) <= word_seen(spans, cursor, s) <= spans.len(),
    decreases spans.len(),
{
    if spans.len() > 0 {
        lemma_word_counts_bounded(spans.drop_last(), cursor, ever_wrong, s);
    }
}

proof fn lemma_span_starts(target: Seq<char>, spans: Seq<(int, int, Seq<char>)>, j: int)
    requires
        spans_tile(target, spans),
        0 <= j < spans.len(),
    ensures
        spans[j].0 >= j,
    decreases j,
{
    if j > 0 {
        lemma_span_starts(target, spans, j - 1);
        assert(spans[(j - 1) + 1].0 == spans[j - 1].1 + 1);
    }
}

proof fn lemma_fumbled_positive(
    spans: Seq<(int, int, Seq<char>)>,
    cursor: int,
    ever_wrong: Seq<bool>,
    s: Seq<char>,
    k: int,
    p: int,
)
    requires
        0 <= k < spans.len(),
        spans[k].2 == s,
        spans[k].0 <= p < spans[k].1,
        p < cursor,
        ever_wrong[p],
    ensures
        word_fumbled(spans, cursor, ever_wrong, s) >= 1,
        word_seen(spans, cursor, s) >= 1,
    decreases spans.len(),
{
    let d = spans.drop_last();
    if k == spans.len() - 1 {
        assert(span_fumbled(spans.last(), cursor, ever_wrong));
    } else {
        assert(d[k] == spans[k]);
        lemma_fumbled_positive(d, cursor, ever_wrong, s, k, p);
    }
}

proof fn lemma_fumbled_zero(
    spans: Seq<(int, int, Seq<char>)>,
    cursor: int,
    ever_wrong: Seq<bool>,
    s: Seq<char>,
)
    requires
        forall|k: int, p: int|
            #![trigger spans[k], ever_wrong[p]]
            0 <= k < spans.len() && spans[k].2 == s && spans[k].0 <= p < spans[k].1 && p < cursor
                ==> !ever_wrong[p],
    ensures
        word_fumbled(spans, cursor, ever_wrong, s) == 0,
    decreases spans.len(),
{
    if spans.len() > 0 {
        let d = spans.drop_last();
        assert forall|k: int, p: int|
            #![trigger d[k], ever_wrong[p]]
            0 <= k < d.len() && d[k].2 == s && d[k].0 <= p < d[k].1 && p < cursor implies !ever_wrong[p] by {
            assert(d[k] == spans[k]);
        }
        lemma_fumbled_zero(d, cursor, ever_wrong, s);
        let x = spans.last();
        if x.2 == s && span_fumbled(x, cursor, ever_wrong) {
            let q = choose|q: int| x.0 <= q < x.1 && q < cursor && #[trigger] ever_wrong[q];
            assert(spans[spans.len() - 1] == x);
            assert(!ever_wrong[q]);
        }
    }
}

proof fn lemma_seen_below_cursor(spans: Seq<(int, int, Seq<char>)>, cursor: int, s: Seq<char>)
    requires
        forall|j: int| 0 <= j < spans.len() ==> #[trigger] spans[j].0 >= j,
        cursor >= 0,
    ensures
        word_seen(spans, cursor, s) <= cursor,
    decreases spans.len(),
{
    if spans.len() > 0 {
        let d = spans.drop_last();
        assert forall|j: int| 0 <= j < d.len() implies #[trigger] d[j].0 >= j by {
            assert(d[j] == spans[j]);
        }
        lemma_seen_below_cursor(d, cursor, s);
        lemma_word_counts_bounded(d, cursor, Seq::empty(), s);
        assert(spans[spans.len() - 1].0 >= spans.len() - 1);
    }
}

/// In a session, a reached word counts as fumbled when a wrong keystroke
/// ever landed at any position of its typed part, its first or any other,
/// backspacing notwithstanding; and a word none of whose reached instances
/// ever took a wrong keystroke in its typed part is never counted as fumbled.
pub proof fn law_fumbled_words(m: SessionModel, s: Seq<char>)
    requires
        m.wf(),
    ensures
        (exists|k: int, p: int|
            #![trigger m.spans[k], m.ever_wrong[p]]
            0 <= k < m.spans.len() && m.spans[k].2 == s && m.spans[k].0 <= p < m.spans[k].1 && p
                < m.cursor && m.ever_wrong[p]) ==> word_tally_of(m.spans, m.cursor, m.ever_wrong).contains_key(s)
            && word_tally_of(m.spans, m.cursor, m.ever_wrong)[s].1 >= 1,
        (forall|k: int, p: int|
            #![trigger m.spans[k], m.ever_wrong[p]]
            0 <= k < m.spans.len() && m.spans[k].2 == s && m.spans[k].0 <= p < m.spans[k].1 && p
                < m.cursor ==> !m.ever_wrong[p]) ==> (word_tally_of(m.spans, m.cursor, m.ever_wrong).contains_key(s)
            ==> word_tally_of(m.spans, m.cursor, m.ever_wrong)[s].1 == 0),
{
    let spans = m.spans;
    let cursor = m.cursor;
    let ever_wrong = m.ever_wrong;
    lemma_word_counts_bounded(spans, cursor, ever_wrong, s);
    assert forall|j: int| 0 <= j < spans.len() implies #[trigger] spans[j].0 >= j by {
        lemma_span_starts(m.target, spans, j);
    }
    lemma_seen_below_cursor(spans, cursor, s);
    if exists|k: int, p: int|
        #![trigger spans[k], ever_wrong[p]]
        0 <= k < spans.len() && spans[k].2 == s && spans[k].0 <= p < spans[k].1 && p < cursor
            && ever_wrong[p] {
        let (k, p) = choose|k: int, p: int|
            #![trigger spans[k], ever_wrong[p]]
            0 <= k < spans.len() && spans[k].2 == s && spans[k].0 <= p < spans[k].1 && p < cursor
                && ever_wrong[p];
        lemma_fumbled_positive(spans, cursor, ever_wrong, s, k, p);
    }
    if forall|k: int, p: int|
        #![trigger spans[k], ever_wrong[p]]
        0 <= k < spans.len() && spans[k].2 == s && spans[k].0 <= p < spans[k].1 && p < cursor
            ==> !ever_wrong[p] {
        lemma_fumbled_zero(spans, cursor, ever_wrong, s);
    }
}

/// Counts stay consistent: the correct positions never outnumber the typed
/// ones, typed positions never outnumber keystrokes, errors never outnumber
/// keystrokes (so accuracy lies between 0 and 100%), spaces are never
/// tallied as keys, and no key has more misses than strikes.
pub proof fn law_counts_consistent(m: SessionModel)
    requires
        m.wf(),
    ensures
        m.correct() <= m.cursor <= m.keystrokes,
        m.errors <= m.keystrokes,
        !m.keys.contains_key(' '),
        forall|c: char| #[trigger] m.keys.contains_key(c) ==> m.keys[c].1 <= m.keys[c].0,
{
    lemma_count_correct_bounded(m.states.take(m.cursor));
    lemma_key_counts_bounded(m.log, ' ');
    assert forall|c: char| #[trigger] m.keys.contains_key(c) implies m.keys[c].1 <= m.keys[c].0 by {
        lemma_key_counts_bounded(m.log, c);
    }
}

/// The clock starts on the first keystroke: before it no time elapses and
/// the session never finishes. Elapsed time stays within the duration, and
/// a finished session has used all of it.
pub proof fn law_clock(m: SessionModel, now: int)
    requires
        m.wf(),
    ensures
        0 <= m.elapsed(now) <= m.duration,
        m.started_at is None ==> m.elapsed(now) == 0 && !m.finished(now),
        m.finished(now) ==> m.elapsed(now) == m.duration,
{
}

/// Backspace corrects but does not forgive: a wrong keystroke, a backspace
/// and the right keystroke leave the position correct, one more error and
/// two more keystrokes, and the position remembered as fumbled. (In a
/// session of zero duration the first keystroke ends the run, so the
/// correction never lands; such sessions are left out.)
pub proof fn law_backspace_corrects_but_counts(
    o: SessionModel,
    m1: SessionModel,
    m2: SessionModel,
    m3: SessionModel,
    c: char,
    now: int,
)
    requires
        o.wf(),
        m1.wf(),
        m3.wf(),
        o.duration > 0,
        !o.finished(now),
        c != o.target[o.cursor],
        after_keystroke(o, m1, c, now),
        m2 == after_backspace(m1),
        after_keystroke(m2, m3, o.target[o.cursor], now),
    ensures
        m3.errors == o.errors + 1,
        m3.keystrokes == o.keystrokes + 2,
        m3.cursor == o.cursor + 1,
        m3.states[o.cursor] == CharState::Correct,
        m3.ever_wrong[o.cursor],
{
    assert(o.struck(m1, c, now));
    assert(m1.states.take(o.states.len() as int)[o.cursor] == m1.states[o.cursor]);
    assert(m1.ever_wrong.take(o.ever_wrong.len() as int)[o.cursor] == m1.ever_wrong[o.cursor]);
    assert(m1.target.subrange(0, o.target.len() as int)[o.cursor] == m1.target[o.cursor]);
    assert(!m2.finished(now));
    assert(m2.struck(m3, o.target[o.cursor], now));
    assert(m3.states.take(m2.states.len() as int)[o.cursor] == m3.states[o.cursor]);
    assert(m3.ever_wrong.take(m2.ever_wrong.len() as int)[o.cursor] == m3.ever_wrong[o.cursor]);
}

proof fn lemma_joined_chars(ws: Seq<Seq<char>>)
    requires
        forall|k: int| 0 <= k < ws.len() ==> is_word(#[trigger] ws[k]),
    ensures
        forall|i: int|
            0 <= i < joined(ws).len() ==> #[trigger] joined(ws)[i] == ' ' || is_ascii_lower(
                joined(ws)[i],
            ),
    decreases ws.len(),
{
    if ws.len() == 1 {
        assert(is_word(ws[0]));
    } else if ws.len() > 1 {
        let d = ws.drop_last();
        assert forall|k: int| 0 <= k < d.len() implies is_word(#[trigger] d[k]) by {
            assert(d[k] == ws[k]);
        }
        lemma_joined_chars(d);
        assert(is_word(ws[ws.len() - 1]));
        let a = joined(d) + seq![' '];
        assert forall|i: int| 0 <= i < joined(ws).len() implies #[trigger] joined(ws)[i] == ' '
            || is_ascii_lower(joined(ws)[i]) by {
            if i < joined(d).len() {
                assert(joined(ws)[i] == joined(d)[i]);
            } else if i == joined(d).len() {
                assert(joined(ws)[i] == ' ');
            } else {
                assert(joined(ws)[i] == ws.last()[i - a.len()]);
            }
        }
    }
}

/// The target is the vocabulary's words joined by single spaces: where every
/// word of the vocabulary is lowercase letters, every char of the target is a
/// lowercase letter or a space.
pub proof fn law_target_chars(m: SessionModel)
    requires
        m.wf(),
        forall|x: Seq<char>| #[trigger] m.vocabulary.contains(x) ==> is_word(x),
    ensures
        forall|i: int|
            0 <= i < m.target.len() ==> #[trigger] m.target[i] == ' ' || is_ascii_lower(m.target[i]),
{
    let ws = span_texts(m.spans);
    assert forall|k: int| 0 <= k < ws.len() implies is_word(#[trigger] ws[k]) by {
        assert(m.vocabulary.contains(m.spans[k].2));
    }
    lemma_joined_chars(ws);
}

impl<S: WordStream> Session<S> {
    /// The abstract state.
    pub closed spec fn model(&self) -> SessionModel {
        SessionModel {
            target: self.target@,
            states: self.states@,
            ever_wrong: self.ever_wrong@,
            spans: self.word_spans@.map_values(|w: WordSpan| (w.start as int, w.end as int, w.text@)),
            log: self.log@,
            keys: self.key_tally@,
            cursor: self.cursor as int,
            errors: self.errors as int,
            keystrokes: self.keystrokes as int,
            duration: self.duration as int,
            started_at: match self.started_at {
                Some(s) => Some(s as int),
                None => None,
            },
            samples: self.wpm_samples@,
            vocabulary: self.source.vocabulary(),
            calls: self.source.calls(),
        }
    }

    /// The last word handed out is the one passed as `prev` for the next.
    closed spec fn last_word_ok(&self) -> bool {
        match self.last_word {
            Some(w) => self.word_spans@.len() > 0 && w@ == self.model().spans.last().2,
            None => self.word_spans@.len() == 0,
        }
    }

    /// The internal consistency every session keeps.
    pub closed spec fn inv(&self) -> bool {
        &&& self.model().wf()
        &&& self.sampled_secs as int == self.wpm_samples@.len()
        &&& self.source.ready()
        &&& self.last_word_ok()
    }

    /// A session keeps its invariant, so its model is well formed.
    pub proof fn lemma_wf(&self)
        requires
            self.inv(),
        ensures
            self.model().wf(),
    {
    }

    /// Build a session over a word source, lasting `duration` nanoseconds from
    /// the first keystroke. The target text is pre-generated with `LOOKAHEAD`
    /// chars ahead of the cursor: the words the source hands out, in order,
    /// joined by single spaces, the first asked for with no previous word
    /// and each later one with the word before it.
    pub fn with_source(source: S, duration: u64) -> (s: Self)
        requires
            source.ready(),
        ensures
            s.inv(),
            s.model().wf(),
            fresh(s.model(), duration as int),
            s.model().vocabulary == source.vocabulary(),
            asked_for(source.calls(), Seq::empty(), s.model().calls, s.model().spans),
    {
        let mut session = Session {
            source,
            target: Vec::new(),
            states: Vec::new(),
            ever_wrong: Vec::new(),
            word_spans: Vec::new(),
            key_tally: BTreeMap::new(),
            log: Ghost(Seq::empty()),
            cursor: 0,
            errors: 0,
            keystrokes: 0,
            duration,
            started_at: None,
            last_word: None,
            wpm_samples: Vec::new(),
            sampled_secs: 0,
        };
        proof {
            assert(session.model().spans =~= Seq::empty());
            assert(key_tally_of(Seq::empty()) =~= Map::empty());
            assert(span_texts(session.model().spans) =~= Seq::empty());
        }
        session.extend_target();
        session
    }

    /// Append words (space-separated) until at least `LOOKAHEAD` chars lie
    /// ahead of the cursor. What was there stays; new positions are untyped.
    fn extend_target(&mut self)
        requires
            old(self).target@.len() == old(self).states@.len(),
            old(self).ever_wrong@.len() == old(self).target@.len(),
            old(self).cursor <= old(self).target@.len(),
            spans_tile(old(self).model().target, old(self).model().spans),
            old(self).model().made_of_words(),
            old(self).last_word_ok(),
            old(self).source.ready(),
        ensures
            final(self).source.ready(),
            final(self).source.vocabulary() == old(self).source.vocabulary(),
            asked_for(
                old(self).model().calls,
                old(self).model().spans,
                final(self).model().calls,
                final(self).model().spans,
            ),
            final(self).model().made_of_words(),
            final(self).last_word_ok(),
            grown(
                old(self).model().target,
                old(self).model().spans,
                final(self).model().target,
                final(self).model().spans,
                old(self).cursor as int,
            ),
            final(self).target@.len() >= final(self).cursor + LOOKAHEAD,
            old(self).target@.is_prefix_of(final(self).target@),
            old(self).model().spans.is_prefix_of(final(self).model().spans),
            final(self).states@.len() == final(self).target@.len(),
            final(self).ever_wrong@.len() == final(self).target@.len(),
            final(self).states@.subrange(0, old(self).states@.len() as int) == old(self).states@,
            final(self).ever_wrong@.subrange(0, old(self).ever_wrong@.len() as int) == old(self).ever_wrong@,
            forall|i: int|
                old(self).states@.len() <= i < final(self).states@.len() ==> #[trigger] final(self).states@[i] == CharState::Untyped,
            forall|i: int|
                old(self).ever_wrong@.len() <= i < final(self).ever_wrong@.len() ==> !#[trigger] final(self).ever_wrong@[i],
            spans_tile(final(self).model().target, final(self).model().spans),
            final(self).cursor == old(self).cursor,
            final(self).key_tally == old(self).key_tally,
            final(self).log == old(self).log,
            final(self).errors == old(self).errors,
            final(self).keystrokes == old(self).keystrokes,
            final(self).duration == old(self).duration,
            final(self).started_at == old(self).started_at,
            final(self).wpm_samples == old(self).wpm_samples,
            final(self).sampled_secs == old(self).sampled_secs,
    {
        let ghost t0 = self.target@;
        let ghost st0 = self.states@;
        let ghost ew0 = self.ever_wrong@;
        let ghost sp0 = self.model().spans;
        while self.target.len() - self.cursor < LOOKAHEAD
            invariant
                self.cursor <= self.target@.len(),
                self.target@.len() == self.states@.len(),
                self.ever_wrong@.len() == self.target@.len(),
                t0.is_prefix_of(self.target@),
                sp0.is_prefix_of(self.model().spans),
                self.states@.subrange(0, st0.len() as int) == st0,
                self.ever_wrong@.subrange(0, ew0.len() as int) == ew0,
                st0.len() == t0.len(),
                ew0.len() == t0.len(),
                forall|i: int|
                    st0.len() <= i < self.states@.len() ==> #[trigger] self.states@[i]
                        == CharState::Untyped,
                forall|i: int|
                    ew0.len() <= i < self.ever_wrong@.len() ==> !#[trigger] self.ever_wrong@[i],
                spans_tile(self.model().target, self.model().spans),
                self.source.ready(),
                self.source.vocabulary() == old(self).source.vocabulary(),
                asked_for(
                    old(self).model().calls,
                    sp0,
                    self.model().calls,
                    self.model().spans,
                ),
                self.model().made_of_words(),
                self.last_word_ok(),
                (self.target@ == t0 && self.model().spans == sp0) || (self.model().spans.len()
                    > sp0.len() && before_last(self.model().spans) < self.cursor + LOOKAHEAD),
                t0.len() >= self.cursor + LOOKAHEAD ==> (self.target@ == t0 && self.model().spans
                    == sp0),
                self.cursor == old(self).cursor,
                self.key_tally == old(self).key_tally,
                self.log == old(self).log,
                self.errors == old(self).errors,
                self.keystrokes == old(self).keystrokes,
                self.duration == old(self).duration,
                self.started_at == old(self).started_at,
                self.wpm_samples == old(self).wpm_samples,
                self.sampled_secs == old(self).sampled_secs,
            decreases (if self.target@.len() - self.cursor < LOOKAHEAD {
                LOOKAHEAD - (self.target@.len() - self.cursor)
            } else {
                0
            }),
        {
            let ghost tb = self.target@;
            let ghost spb = self.model().spans;
            let had_text = self.target.len() > 0;
            if had_text {
                self.target.push(' ');
                self.states.push(CharState::Untyped);
                self.ever_wrong.push(false);
            }
            assert(had_text ==> self.target@ == tb.push(' '));
            assert(!had_text ==> self.target@ == tb);
            let ghost calls_b = self.source.calls();
            let ghost prev_v: Option<Seq<char>> = match &self.last_word {
                Some(w) => Some(w@),
                None => None,
            };
            let word = match &self.last_word {
                Some(w) => self.source.next_word(Some(w.as_str())),
                None => self.source.next_word(None),
            };
            assert(self.source.calls() == calls_b.push((prev_v, word@)));
            let start = self.target.len();
            let ghost t_mid = self.target@;
            let ghost ws_b = self.word_spans@;
            let ghost src_b = self.source;
            let ghost lw_b = self.last_word;
            proof {
                assert(tb.is_prefix_of(t_mid));
            }
            let n = word.as_str().unicode_len();
            let mut i: usize = 0;
            while i < n
                invariant
                    i <= n,
                    n == word@.len(),
                    self.target@.len() == start + i,
                    self.target@.subrange(0, start as int) == t_mid,
                    self.target@.subrange(start as int, start + i) == word@.subrange(0, i as int),
                    self.target@.len() == self.states@.len(),
                    self.ever_wrong@.len() == self.target@.len(),
                    t_mid.len() == start,
                    t0.is_prefix_of(t_mid),
                    self.states@.subrange(0, st0.len() as int) == st0,
                    self.ever_wrong@.subrange(0, ew0.len() as int) == ew0,
                    st0.len() == t0.len(),
                    ew0.len() == t0.len(),
                    forall|j: int|
                        st0.len() <= j < self.states@.len() ==> #[trigger] self.states@[j]
                            == CharState::Untyped,
                    forall|j: int|
                        ew0.len() <= j < self.ever_wrong@.len() ==> !#[trigger] self.ever_wrong@[j],
                    self.word_spans@ == ws_b,
                    self.source == src_b,
                    self.last_word == lw_b,
                    self.source.ready(),
                    self.cursor == old(self).cursor,
                    self.key_tally == old(self).key_tally,
                    self.log == old(self).log,
                    self.errors == old(self).errors,
                    self.keystrokes == old(self).keystrokes,
                    self.duration == old(self).duration,
                    self.started_at == old(self).started_at,
                    self.wpm_samples == old(self).wpm_samples,
                    self.sampled_secs == old(self).sampled_secs,
                decreases n - i,
            {
                let c = word.as_str().get_char(i);
                self.target.push(c);
                self.states.push(CharState::Untyped);
                self.ever_wrong.push(false);
                i = i + 1;
                proof {
                    assert(self.target@.subrange(start as int, start + i) =~= word@.subrange(
                        0,
                        i as int,
                    ));
                    assert(self.target@.subrange(0, start as int) =~= t_mid);
                    assert(self.states@.subrange(0, st0.len() as int) =~= st0);
                    assert(self.ever_wrong@.subrange(0, ew0.len() as int) =~= ew0);
                }
            }
            let end = self.target.len();
            let text = word.clone();
            self.word_spans.push(WordSpan { start, end, text });
            self.last_word = Some(word);
            proof {
                let t = self.target@;
                let sp = self.model().spans;
                assert(word@.subrange(0, n as int) =~= word@);
                assert(sp =~= spb.push((start as int, end as int, word@)));
                assert(t.subrange(start as int, end as int) =~= word@);
                assert(t.subrange(0, start as int) == t_mid);
                assert(t.subrange(0, tb.len() as int) =~= tb);
                assert forall|k: int| 0 <= k < spb.len() implies t.subrange(spb[k].0, spb[k].1)
                    == spb[k].2 by {
                    assert(tb.subrange(spb[k].0, spb[k].1) == spb[k].2);
                    assert(t.subrange(spb[k].0, spb[k].1) =~= tb.subrange(spb[k].0, spb[k].1));
                }
                assert forall|k: int|
                    #![trigger sp[k]]
                    0 <= k < sp.len() implies {
                        &&& 0 <= sp[k].0 < sp[k].1 <= t.len()
                        &&& t.subrange(sp[k].0, sp[k].1) == sp[k].2
                    } by {
                    if k < spb.len() {
                        assert(sp[k] == spb[k]);
                    }
                }
                assert forall|k: int|
                    #![trigger sp[k + 1]]
                    0 <= k < sp.len() - 1 implies sp[k + 1].0 == sp[k].1 + 1 && t[sp[k].1]
                        == ' ' by {
                    if k + 1 < spb.len() {
                        assert(sp[k] == spb[k]);
                        assert(sp[k + 1] == spb[k + 1]);
                        assert(tb[spb[k].1] == ' ');
                    } else {
                        assert(sp[k] == spb.last());
                        assert(tb.len() > 0);
                        assert(t_mid == tb.push(' '));
                        assert(t[tb.len() as int] == t_mid[tb.len() as int]);
                    }
                }
                assert(spb.is_prefix_of(sp));
                assert(t0.is_prefix_of(t));
                assert(sp0.is_prefix_of(sp));
                let ghost vocab = self.source.vocabulary();
                assert(span_texts(sp) =~= span_texts(spb).push(word@));
                assert(span_texts(sp).drop_last() =~= span_texts(spb));
                if spb.len() == 0 {
                    assert(tb.len() == 0);
                    assert(t =~= word@);
                } else {
                    assert(tb.len() > 0);
                    assert(t_mid == tb.push(' '));
                    assert(t.subrange(start as int, t.len() as int) =~= word@);
                    assert(t =~= t.subrange(0, start as int) + t.subrange(start as int, t.len() as int));
                    assert(t =~= tb + seq![' '] + word@);
                }
                assert(t == joined(span_texts(sp)));
                assert forall|k: int| 0 <= k < sp.len() implies vocab.contains(#[trigger] sp[k].2) by {
                    if k < spb.len() {
                        assert(sp[k] == spb[k]);
                    }
                }
                assert forall|k: int|
                    #![trigger sp[k + 1]]
                    0 <= k < sp.len() - 1 implies ((exists|x: Seq<char>|
                        #[trigger] vocab.contains(x) && x != sp[k].2) ==> sp[k + 1].2 != sp[k].2) by {
                    if k + 1 < spb.len() {
                        assert(sp[k] == spb[k]);
                        assert(sp[k + 1] == spb[k + 1]);
                    } else {
                        assert(sp[k] == spb.last());
                    }
                }
                assert(self.model().made_of_words());
                let p0 = last_text(sp0);
                let ws0 = span_texts(spb).skip(sp0.len() as int);
                let ws1 = span_texts(sp).skip(sp0.len() as int);
                assert(ws1 =~= ws0.push(word@));
                assert(prev_v == last_text(spb));
                if ws0.len() == 0 {
                    assert(spb =~= sp0);
                } else {
                    assert(ws0.last() == span_texts(spb)[spb.len() - 1]);
                }
                assert(calls_for(p0, ws1) =~= calls_for(p0, ws0).push((prev_v, word@)));
                assert(self.model().calls =~= old(self).model().calls + calls_for(p0, ws1));
                if spb.len() > 0 {
                    assert(before_last(sp) == tb.len());
                }
            }
        }
    }

    /// Time elapsed at `now`: zero before the first keystroke, otherwise the
    /// time since it (zero if `now` is earlier), clamped to the duration.
    pub fn elapsed(&self, now: u64) -> (r: u64)
        ensures
            r == self.model().elapsed(now as int),
    {
        match self.started_at {
            None => 0,
            Some(s) => {
                let d = if now >= s {
                    now - s
                } else {
                    0
                };
                if d < self.duration {
                    d
                } else {
                    self.duration
                }
            },
        }
    }

    /// Time left at `now`.
    pub fn remaining(&self, now: u64) -> (r: u64)
        ensures
            r == self.model().duration - self.model().elapsed(now as int),
    {
        self.duration - self.elapsed(now)
    }

    /// Whether the session has run out of time at `now`; never before the
    /// first keystroke.
    pub fn is_finished(&self, now: u64) -> (r: bool)
        ensures
            r == self.model().finished(now as int),
    {
        self.started_at.is_some() && self.elapsed(now) >= self.duration
    }

    /// Positions correct at this moment (after corrections).
    pub fn correct_chars(&self) -> (r: usize)
        requires
            self.inv(),
        ensures
            r == self.model().correct(),
    {
        let mut n: usize = 0;
        let mut i: usize = 0;
        while i < self.cursor
            invariant
                i <= self.cursor,
                self.cursor <= self.states@.len(),
                n == count_correct(self.states@.take(i as int)),
                n <= i,
            decreases self.cursor - i,
        {
            proof {
                assert(self.states@.take(i + 1) == self.states@.take(i as int).push(self.states@[i as int]));
                lemma_count_correct_push(self.states@.take(i as int), self.states@[i as int]);
            }
            if self.states[i] == CharState::Correct {
                n = n + 1;
            }
            i = i + 1;
        }
        n
    }

    /// Type `c` at the cursor at time `now`. The first keystroke starts the
    /// clock; keystrokes after the session has finished are ignored. Every
    /// keystroke counts, right or wrong, and a wrong one is never forgiven.
    pub fn keystroke(&mut self, c: char, now: u64)
        requires
            old(self).inv(),
            !old(self).model().finished(now as int) ==> old(self).model().can_strike(),
        ensures
            final(self).inv(),
            final(self).model().wf(),
            after_keystroke(old(self).model(), final(self).model(), c, now as int),
    {
        if self.is_finished(now) {
            return;
        }
        if self.started_at.is_none() {
            self.started_at = Some(now);
        }
        let ghost o = old(self).model();
        let ghost st1 = self.states@;
        let ghost ew1 = self.ever_wrong@;
        self.keystrokes = self.keystrokes + 1;
        let expected = self.target[self.cursor];
        let wrong = c != expected;
        if wrong {
            self.states.set(self.cursor, CharState::Wrong);
            self.ever_wrong.set(self.cursor, true);
            proof {
                lemma_key_counts_bounded(self.log@, expected);
            }
            self.errors = self.errors + 1;
        } else {
            self.states.set(self.cursor, CharState::Correct);
        }
        proof {
            lemma_key_counts_bounded(self.log@, expected);
            lemma_key_tally_push(self.log@, expected, wrong);
        }
        if expected != ' ' {
            let cur = char_map_get(&self.key_tally, expected);
            let (n, b) = match cur {
                Some(v) => v,
                None => (0u32, 0u32),
            };
            let nb = if wrong {
                b + 1
            } else {
                b
            };
            char_map_insert(&mut self.key_tally, expected, (n + 1, nb));
        }
        self.log = Ghost(self.log@.push((expected, wrong)));
        self.cursor = self.cursor + 1;
        let ghost st2 = self.states@;
        let ghost ew2 = self.ever_wrong@;
        self.extend_target();
        proof {
            let f = self.model();
            assert(f.states.take(st2.len() as int) =~= st2);
            assert(f.ever_wrong.take(ew2.len() as int) =~= ew2);
            assert forall|i: int|
                #![trigger f.states[i]]
                0 <= i < f.states.len() && f.states[i] == CharState::Wrong implies f.ever_wrong[i] by {
                if i < st2.len() {
                    assert(f.states[i] == st2[i]);
                    assert(f.ever_wrong[i] == ew2[i]);
                }
            }
            assert forall|i: int|
                #![trigger f.states[i]]
                f.cursor <= i < f.states.len() implies f.states[i] == CharState::Untyped by {
                if i < st2.len() {
                    assert(f.states[i] == st2[i]);
                    assert(st2[i] == o.states[i]);
                }
            }
            let e = o.target[o.cursor];
            assert(e == expected);
            assert(st2 =~= o.states.update(
                o.cursor,
                if wrong {
                    CharState::Wrong
                } else {
                    CharState::Correct
                },
            ));
            assert(ew2 =~= o.ever_wrong.update(o.cursor, o.ever_wrong[o.cursor] || wrong));
            assert(f.states[o.cursor] == st2[o.cursor]);
            assert(f.ever_wrong[o.cursor] == ew2[o.cursor]);
            assert forall|i: int|
                0 <= i < o.states.len() && i != o.cursor implies #[trigger] f.states[i]
                == o.states[i] by {
                assert(f.states[i] == st2[i]);
            }
            assert(o.struck(f, c, now as int));
        }
    }

    /// Undo the position before the cursor: it becomes untyped again. The
    /// error and keystroke counts are kept. A no-op at the start.
    pub fn backspace(&mut self)
        requires
            old(self).inv(),
        ensures
            final(self).inv(),
            final(self).model().wf(),
            final(self).model() == after_backspace(old(self).model()),
    {
        if self.cursor > 0 {
            self.cursor = self.cursor - 1;
            self.states.set(self.cursor, CharState::Untyped);
        }
    }

    /// Record one sample (the correct-char count) per elapsed whole second not
    /// yet sampled. Call every event-loop pass.
    pub fn tick(&mut self, now: u64)
        requires
            old(self).inv(),
        ensures
            final(self).inv(),
            final(self).model().wf(),
            final(self).model() == ticked(old(self).model(), now as int),
    {
        if self.started_at.is_none() {
            return;
        }
        let secs = self.elapsed(now) / NANOS_PER_SEC;
        let correct = self.correct_chars();
        let ghost o = self.model();
        let ghost n0 = self.wpm_samples@.len();
        while self.sampled_secs < secs
            invariant
                self.sampled_secs as int == self.wpm_samples@.len(),
                n0 <= self.wpm_samples@.len(),
                self.wpm_samples@ == o.samples + Seq::new(
                    (self.wpm_samples@.len() - n0) as nat,
                    |_i: int| correct,
                ),
                self.model() == (SessionModel { samples: self.wpm_samples@, ..o }),
                o.samples.len() == n0,
                self.wpm_samples@.len() <= (if secs > n0 {
                    secs as int
                } else {
                    n0 as int
                }),
                correct == o.correct(),
                self.source.ready(),
                self.last_word_ok(),
            decreases secs - self.sampled_secs,
        {
            self.sampled_secs = self.sampled_secs + 1;
            self.wpm_samples.push(correct);
            proof {
                assert(self.wpm_samples@ =~= o.samples + Seq::new(
                    (self.wpm_samples@.len() - n0) as nat,
                    |_i: int| correct,
                ));
            }
        }
        proof {
            let missing: int = if secs > n0 {
                secs - n0
            } else {
                0
            };
            assert(self.wpm_samples@ =~= o.samples + Seq::new(missing as nat, |_i: int| o.correct() as usize));
        }
    }

    /// One pass of the event loop at `now`: take the samples due, then say
    /// whether time is up.
    pub fn pass(&mut self, now: u64) -> (done: bool)
        requires
            old(self).inv(),
        ensures
            final(self).inv(),
            final(self).model().wf(),
            final(self).model() == ticked(old(self).model(), now as int),
            done == final(self).model().finished(now as int),
    {
        self.tick(now);
        self.is_finished(now)
    }

    /// Apply a key pressed at `now`. Esc asks to cancel the run (and changes
    /// nothing); Backspace corrects; a char is typed; other keys do nothing.
    pub fn handle_key(&mut self, key: Key, now: u64) -> (cancel: bool)
        requires
            old(self).inv(),
            (key matches Key::Char(_)) && !old(self).model().finished(now as int)
                ==> old(self).model().can_strike(),
        ensures
            final(self).inv(),
            final(self).model().wf(),
            match key {
                Key::Esc => cancel && final(self).model() == old(self).model(),
                Key::Backspace => !cancel && final(self).model() == after_backspace(old(self).model()),
                Key::Char(c) => !cancel && after_keystroke(old(self).model(), final(self).model(), c, now as int),
                _ => !cancel && final(self).model() == old(self).model(),
            },
    {
        match key {
            Key::Esc => true,
            Key::Backspace => {
                self.backspace();
                false
            },
            Key::Char(c) => {
                self.keystroke(c, now);
                false
            },
            _ => false,
        }
    }

    /// Whether one more keystroke fits the counters (see
    /// `SessionModel::can_strike`); a keystroke on a session that has not
    /// finished needs it.
    pub fn can_strike(&self) -> (r: bool)
        requires
            self.inv(),
        ensures
            r == self.model().can_strike(),
    {
        if self.keystrokes == usize::MAX || (self.cursor as u64) >= (u32::MAX as u64) {
            return false;
        }
        match char_map_get(&self.key_tally, self.target[self.cursor]) {
            Some((n, _)) => n < u32::MAX,
            None => true,
        }
    }

    /// The target text generated so far.
    pub fn target(&self) -> (r: &[char])
        ensures
            r@ == self.model().target,
    {
        self.target.as_slice()
    }

    /// The state of every target position.
    pub fn states(&self) -> (r: &[CharState])
        ensures
            r@ == self.model().states,
    {
        self.states.as_slice()
    }

    /// The position of the next char to type.
    pub fn cursor(&self) -> (r: usize)
        ensures
            r == self.model().cursor,
    {
        self.cursor
    }

    /// Wrong keystrokes so far (never reduced by backspacing).
    pub fn errors(&self) -> (r: usize)
        ensures
            r == self.model().errors,
    {
        self.errors
    }

    /// Keystrokes so far, right or wrong.
    pub fn keystrokes(&self) -> (r: usize)
        ensures
            r == self.model().keystrokes,
    {
        self.keystrokes
    }

    /// The session length in nanoseconds.
    pub fn duration(&self) -> (r: u64)
        ensures
            r == self.model().duration,
    {
        self.duration
    }

    /// The correct-char count at the end of each whole elapsed second so far.
    pub fn wpm_samples(&self) -> (r: &[usize])
        ensures
            r@ == self.model().samples,
    {
        self.wpm_samples.as_slice()
    }

    /// Snapshot the mistakes recorded so far this run: per expected key, per
    /// reached word, and no combos.
    pub fn tally(&self) -> (t: MistakeTally)
        requires
            self.inv(),
        ensures
            t.keys@ == self.model().keys,
            by_text(t.words@) == word_tally_of(
                self.model().spans,
                self.model().cursor,
                self.model().ever_wrong,
            ),
            t.combos@ == Map::<String, (u32, u32)>::empty(),
    {
        let ghost m = self.model();
        let mut words: BTreeMap<String, (u32, u32)> = BTreeMap::new();
        proof {
            assert(by_text(words@) =~= word_tally_of(m.spans.take(0), m.cursor, m.ever_wrong));
        }
        let mut k: usize = 0;
        while k < self.word_spans.len()
            invariant
                k <= self.word_spans@.len(),
                self.inv(),
                m == self.model(),
                by_text(words@) == word_tally_of(m.spans.take(k as int), m.cursor, m.ever_wrong),
            decreases self.word_spans@.len() - k,
        {
            let ghost x = m.spans[k as int];
            proof {
                assert(m.spans.take(k + 1) == m.spans.take(k as int).push(x));
                lemma_word_tally_push(m.spans.take(k as int), x, m.cursor, m.ever_wrong);
            }
            let span = &self.word_spans[k];
            if span.start < self.cursor {
                let upto = if span.end < self.cursor {
                    span.end
                } else {
                    self.cursor
                };
                let mut fumbled = false;
                let mut p = span.start;
                while p < upto
                    invariant
                        span.start <= p <= upto,
                        upto <= self.cursor,
                        self.cursor <= self.ever_wrong@.len(),
                        fumbled == exists|q: int| span.start <= q < p && #[trigger] self.ever_wrong@[q],
                    decreases upto - p,
                {
                    if self.ever_wrong[p] {
                        fumbled = true;
                    }
                    p = p + 1;
                }
                proof {
                    lemma_word_counts_bounded(m.spans.take(k as int), m.cursor, m.ever_wrong, x.2);
                    lemma_span_starts(m.target, m.spans, k as int);
                    if fumbled {
                        let q = choose|q: int| span.start <= q < upto && #[trigger] self.ever_wrong@[q];
                        assert(span_fumbled(x, m.cursor, m.ever_wrong));
                    }
                    if span_fumbled(x, m.cursor, m.ever_wrong) {
                        let q = choose|q: int| x.0 <= q < x.1 && q < m.cursor && #[trigger] m.ever_wrong[q];
                        assert(self.ever_wrong@[q]);
                    }
                }
                let cur = text_map_get(&words, &span.text);
                let (n, b) = match cur {
                    Some(v) => v,
                    None => (0u32, 0u32),
                };
                let nb = if fumbled {
                    b + 1
                } else {
                    b
                };
                text_map_insert(&mut words, span.text.clone(), (n + 1, nb));
                proof {
                    assert(by_text(words@) =~= word_tally_of(m.spans.take(k + 1), m.cursor, m.ever_wrong));
                }
            } else {
                proof {
                    assert(word_tally_of(m.spans.take(k + 1), m.cursor, m.ever_wrong) =~= word_tally_of(
                        m.spans.take(k as int),
                        m.cursor,
                        m.ever_wrong,
                    ));
                }
            }
            k = k + 1;
        }
        proof {
            assert(m.spans.take(self.word_spans@.len() as int) =~= m.spans);
        }
        MistakeTally { keys: self.key_tally.clone(), words, combos: BTreeMap::new() }
    }

}

impl Session<WordPool> {
    /// A session at `level` over the words of a word-list text, lasting
    /// `duration` nanoseconds from the first keystroke; `None` when the
    /// system cannot seed the word pool's generator. The level's pool must
    /// hold a word. Its vocabulary is the level's pool, all of it words of
    /// two or more lowercase letters.
    pub fn new(words_text: &str, level: u8, duration: u64) -> (r: Option<Self>)
        requires
            pool_of(word_list(words_text@), level).len() > 0,
        ensures
            r matches Some(s) ==> {
                &&& s.inv()
                &&& s.model().wf()
                &&& fresh(s.model(), duration as int)
                &&& s.model().vocabulary == pool_of(word_list(words_text@), level).to_set()
                &&& asked_for(Seq::empty(), Seq::empty(), s.model().calls, s.model().spans)
                &&& forall|x: Seq<char>| #[trigger] s.model().vocabulary.contains(x) ==> is_word(x)
            },
    {
        match WordPool::for_level(words_text, level) {
            Some(pool) => {
                let s = Self::with_source(pool, duration);
                proof {
                    let ws = pool_of(word_list(words_text@), level);
                    lemma_pool_words_are_words(words_text@, level);
                    assert forall|x: Seq<char>| #[trigger] s.model().vocabulary.contains(x) implies is_word(x) by {
                        let i = choose|i: int| 0 <= i < ws.len() && ws[i] == x;
                        assert(is_word(ws[i]));
                    }
                }
                Some(s)
            },
            None => None,
        }
    }
}

} // verus!
