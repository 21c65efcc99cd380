use vstd::prelude::*;

use crate::random::Generator;

verus! {

/// A stream of words for a session. Every word handed out is non-empty, so a
/// session's text always grows when it asks for one.
pub trait WordStream {
    /// Whether the stream can hand out words.
    spec fn ready(&self) -> bool;

    /// The words the stream hands out.
    spec fn vocabulary(&self) -> Set<Seq<char>>;

    /// Every `next_word` call so far, in order: the `prev` it was handed and
    /// the word it returned.
    spec fn calls(&self) -> Seq<(Option<Seq<char>>, Seq<char>)>;

    /// The next word: a non-empty word of the vocabulary, which stays the
    /// same. It avoids immediately repeating `prev` when the vocabulary
    /// allows it, that is when it holds some other word.
    fn next_word(&mut self, prev: Option<&str>) -> (w: String)
        requires
            old(self).ready(),
        ensures
            final(self).ready(),
            final(self).vocabulary() == old(self).vocabulary(),
            final(self).calls() == old(self).calls().push((opt_view(prev), w@)),
            old(self).vocabulary().contains(w@),
            w@.len() > 0,
            prev matches Some(p) ==> ((exists|x: Seq<char>|
                #[trigger] old(self).vocabulary().contains(x) && x != p@) ==> w@ != p@),
    ;
}

/// The contents of each string of `s`.
pub open spec fn views(s: Seq<String>) -> Seq<Seq<char>> {
    s.map_values(|w: String| w@)
}

proof fn lemma_views_push(s: Seq<String>, x: String)
    ensures
        views(s.push(x)) == views(s).push(x@),
{
    assert(views(s.push(x)) =~= views(s).push(x@));
}

/// Whether `c` has the Unicode White_Space property.
pub open spec fn is_white_space(c: char) -> bool {
    let u = c as u32;
    ||| 0x09 <= u <= 0x0D
    ||| u == 0x20
    ||| u == 0x85
    ||| u == 0xA0
    ||| u == 0x1680
    ||| 0x2000 <= u <= 0x200A
    ||| u == 0x2028
    ||| u == 0x2029
    ||| u == 0x202F
    ||| u == 0x205F
    ||| u == 0x3000
}

/// Whether `c` is an ASCII lowercase letter.
pub open spec fn is_ascii_lower(c: char) -> bool {
    'a' <= c <= 'z'
}

/// `w` with leading white space removed.
pub open spec fn trim_start(w: Seq<char>) -> Seq<char>
    decreases w.len(),
{
    if w.len() > 0 && is_white_space(w[0]) {
        trim_start(w.drop_first())
    } else {
        w
    }
}

/// `w` with trailing white space removed.
pub open spec fn trim_end(w: Seq<char>) -> Seq<char>
    decreases w.len(),
{
    if w.len() > 0 && is_white_space(w.last()) {
        trim_end(w.drop_last())
    } else {
        w
    }
}

/// `w` with white space removed at both ends.
pub open spec fn trim(w: Seq<char>) -> Seq<char> {
    trim_end(trim_start(w))
}

/// A usable word: two or more lowercase ASCII letters.
pub open spec fn is_word(w: Seq<char>) -> bool {
    w.len() >= 2 && forall|i: int| 0 <= i < w.len() ==> is_ascii_lower(#[trigger] w[i])
}

/// The pieces of `s` between newline characters (one more than the number of
/// newlines; the last piece is the text after the final newline).
pub open spec fn pieces(s: Seq<char>) -> Seq<Seq<char>>
    decreases s.len(),
{
    if s.len() == 0 {
        seq![Seq::empty()]
    } else {
        let p = pieces(s.drop_last());
        if s.last() == '\n' {
            p.push(Seq::empty())
        } else {
            p.update(p.len() - 1, p.last().push(s.last()))
        }
    }
}

/// The trimmed pieces of `ps` that are usable words, in order.
pub open spec fn accepted(ps: Seq<Seq<char>>) -> Seq<Seq<char>>
    decreases ps.len(),
{
    if ps.len() == 0 {
        Seq::empty()
    } else {
        let r = accepted(ps.drop_last());
        if is_word(trim(ps.last())) {
            r.push(trim(ps.last()))
        } else {
            r
        }
    }
}

/// The words of a word-list text: each line, trimmed, kept when it is two or
/// more lowercase ASCII letters. (A line's `\r` before its `\n` is white space,
/// so trimming removes it.)
pub open spec fn word_list(text: Seq<char>) -> Seq<Seq<char>> {
    accepted(pieces(text))
}

/// The words of `ws` of at most five letters, in order.
pub open spec fn short_words(ws: Seq<Seq<char>>) -> Seq<Seq<char>>
    decreases ws.len(),
{
    if ws.len() == 0 {
        Seq::empty()
    } else {
        let r = short_words(ws.drop_last());
        if ws.last().len() <= 5 {
            r.push(ws.last())
        } else {
            r
        }
    }
}

/// The first `n` elements of `s`, or all of it when it is shorter.
pub open spec fn take_upto<T>(s: Seq<T>, n: int) -> Seq<T> {
    if s.len() <= n {
        s
    } else {
        s.take(n)
    }
}

/// The candidate words for a level: frequency-ranked slices of the full list.
/// Level 1 is the first 200 words of at most five letters; levels 2, 3 and 4
/// the first 1000, 3000 and 7000 words; any other level the whole list.
pub open spec fn pool_of(all: Seq<Seq<char>>, level: u8) -> Seq<Seq<char>> {
    if level == 1 {
        take_upto(short_words(all), 200)
    } else if level == 2 {
        take_upto(all, 1000)
    } else if level == 3 {
        take_upto(all, 3000)
    } else if level == 4 {
        take_upto(all, 7000)
    } else {
        all
    }
}

/// `String::push`: the standard library documents that the char is appended.
#[verifier::external_body]
pub(crate) fn string_push(s: &mut String, c: char)
    ensures
        final(s)@ == old(s)@.push(c),
{
    s.push(c);
}

/// Whether `c` has the Unicode White_Space property.
pub fn is_white_space_char(c: char) -> (r: bool)
    ensures
        r == is_white_space(c),
{
    let u = c as u32;
    (0x09 <= u && u <= 0x0D) || u == 0x20 || u == 0x85 || u == 0xA0 || u == 0x1680 || (0x2000 <= u
        && u <= 0x200A) || u == 0x2028 || u == 0x2029 || u == 0x202F || u == 0x205F || u == 0x3000
}

proof fn lemma_pieces_nonempty(s: Seq<char>)
    ensures
        pieces(s).len() >= 1,
    decreases s.len(),
{
    if s.len() > 0 {
        lemma_pieces_nonempty(s.drop_last());
    }
}

proof fn lemma_trim_start_skip(w: Seq<char>, i: int)
    requires
        0 <= i <= w.len(),
        forall|j: int| 0 <= j < i ==> is_white_space(#[trigger] w[j]),
    ensures
        trim_start(w) == trim_start(w.subrange(i, w.len() as int)),
    decreases i,
{
    if i > 0 {
        assert(w.drop_first().subrange(i - 1, w.drop_first().len() as int) =~= w.subrange(
            i,
            w.len() as int,
        ));
        lemma_trim_start_skip(w.drop_first(), i - 1);
    } else {
        assert(w.subrange(0, w.len() as int) =~= w);
    }
}

proof fn lemma_trim_end_skip(w: Seq<char>, k: int)
    requires
        0 <= k <= w.len(),
        forall|j: int| k <= j < w.len() ==> is_white_space(#[trigger] w[j]),
    ensures
        trim_end(w) == trim_end(w.subrange(0, k)),
    decreases w.len() - k,
{
    if k < w.len() {
        assert(w.drop_last().subrange(0, k) =~= w.subrange(0, k));
        lemma_trim_end_skip(w.drop_last(), k);
    } else {
        assert(w.subrange(0, k) =~= w);
    }
}

/// The trimmed text of `line`, or `None` when it is not a usable word.
fn word_of_line(line: &Vec<char>) -> (r: Option<String>)
    ensures
        r is Some <==> is_word(trim(line@)),
        r matches Some(w) ==> w@ == trim(line@),
{
    let n = line.len();
    let mut lo: usize = 0;
    while lo < n && is_white_space_char(line[lo])
        invariant
            lo <= n,
            n == line@.len(),
            forall|j: int| 0 <= j < lo ==> is_white_space(#[trigger] line@[j]),
        decreases n - lo,
    {
        lo = lo + 1;
    }
    proof {
        lemma_trim_start_skip(line@, lo as int);
        if lo < n {
            assert(trim_start(line@.subrange(lo as int, n as int)) == line@.subrange(
                lo as int,
                n as int,
            ));
        } else {
            assert(line@.subrange(lo as int, n as int) =~= Seq::<char>::empty());
        }
    }
    let ghost ts = line@.subrange(lo as int, n as int);
    let mut hi: usize = n;
    while hi > lo && is_white_space_char(line[hi - 1])
        invariant
            lo <= hi <= n,
            n == line@.len(),
            ts == line@.subrange(lo as int, n as int),
            forall|j: int| hi - lo <= j < ts.len() ==> is_white_space(#[trigger] ts[j]),
        decreases hi - lo,
    {
        hi = hi - 1;
    }
    let ghost tw = line@.subrange(lo as int, hi as int);
    proof {
        lemma_trim_end_skip(ts, hi - lo);
        assert(ts.subrange(0, hi - lo) =~= tw);
        if hi > lo {
            assert(tw.last() == line@[hi - 1]);
        }
        assert(trim(line@) == tw);
    }
    if hi - lo < 2 {
        return None;
    }
    let mut k: usize = lo;
    while k < hi
        invariant
            lo <= k <= hi,
            hi <= n,
            n == line@.len(),
            tw == line@.subrange(lo as int, hi as int),
            trim(line@) == tw,
            forall|j: int| 0 <= j < k - lo ==> is_ascii_lower(#[trigger] tw[j]),
        decreases hi - k,
    {
        let c = line[k];
        if !('a' <= c && c <= 'z') {
            assert(!is_ascii_lower(tw[k - lo]));
            return None;
        }
        k = k + 1;
    }
    let mut w = String::new();
    let mut k: usize = lo;
    while k < hi
        invariant
            lo <= k <= hi,
            hi <= n,
            n == line@.len(),
            tw == line@.subrange(lo as int, hi as int),
            trim(line@) == tw,
            is_word(tw),
            w@ == tw.subrange(0, k - lo),
        decreases hi - k,
    {
        string_push(&mut w, line[k]);
        k = k + 1;
        proof {
            assert(w@ =~= tw.subrange(0, k - lo));
        }
    }
    proof {
        assert(tw.subrange(0, hi - lo) =~= tw);
    }
    Some(w)
}

/// All usable words of a word-list text, in order: every line, trimmed,
/// that is two or more lowercase ASCII letters.
pub fn all_words(text: &str) -> (r: Vec<String>)
    ensures
        views(r@) == word_list(text@),
{
    let mut out: Vec<String> = Vec::new();
    let mut line: Vec<char> = Vec::new();
    let ghost mut seen: Seq<char> = Seq::empty();
    let n = text.unicode_len();
    let mut i: usize = 0;
    proof {
        assert(pieces(seen).drop_last() =~= Seq::<Seq<char>>::empty());
    }
    while i < n
        invariant
            i <= n,
            n == text@.len(),
            seen == text@.subrange(0, i as int),
            pieces(seen).len() >= 1,
            line@ == pieces(seen).last(),
            views(out@) == accepted(pieces(seen).drop_last()),
        decreases n - i,
    {
        let c = text.get_char(i);
        let ghost prev = seen;
        proof {
            seen = text@.subrange(0, i + 1);
            assert(seen.drop_last() =~= prev);
            assert(seen.last() == c);
            lemma_pieces_nonempty(prev);
        }
        if c == '\n' {
            let got = word_of_line(&line);
            let ghost out0 = out@;
            match got {
                Some(w) => {
                    out.push(w);
                    proof {
                        lemma_views_push(out0, w);
                    }
                },
                None => {},
            }
            proof {
                let pp = pieces(prev);
                assert(pieces(seen) == pp.push(Seq::empty()));
                assert(pieces(seen).drop_last() =~= pp);
                assert(pp.drop_last() == pp.subrange(0, pp.len() - 1));
                assert(accepted(pp) == if is_word(trim(pp.last())) {
                    accepted(pp.drop_last()).push(trim(pp.last()))
                } else {
                    accepted(pp.drop_last())
                });
                assert(views(out@) =~= accepted(pp));
            }
            line = Vec::new();
            proof {
                assert(line@ =~= pieces(seen).last());
            }
        } else {
            line.push(c);
            proof {
                let pp = pieces(prev);
                assert(pieces(seen) == pp.update(pp.len() - 1, pp.last().push(c)));
                assert(pieces(seen).drop_last() =~= pp.drop_last());
            }
        }
        i = i + 1;
    }
    let got = word_of_line(&line);
    let ghost out0 = out@;
    match got {
        Some(w) => {
            out.push(w);
            proof {
                lemma_views_push(out0, w);
            }
        },
        None => {},
    }
    proof {
        assert(seen =~= text@);
        let pp = pieces(seen);
        assert(views(out@) =~= accepted(pp));
    }
    out
}

/// The candidate words for a level, from a word-list text.
fn pool_words(text: &str, level: u8) -> (r: Vec<String>)
    ensures
        views(r@) == pool_of(word_list(text@), level),
{
    let all = all_words(text);
    let ghost aw = views(all@);
    if level == 1 {
        let mut out: Vec<String> = Vec::new();
        let mut i: usize = 0;
        while i < all.len() && out.len() < 200
            invariant
                i <= all@.len(),
                aw == views(all@),
                views(out@) == short_words(aw.take(i as int)),
                out@.len() <= 200,
            decreases all@.len() - i,
        {
            proof {
                assert(aw.take(i + 1).drop_last() =~= aw.take(i as int));
            }
            let ghost out0 = out@;
            if all[i].as_str().unicode_len() <= 5 {
                let w = all[i].clone();
                out.push(w);
                proof {
                    lemma_views_push(out0, w);
                }
            }
            i = i + 1;
            proof {
                assert(views(out@) =~= short_words(aw.take(i as int)));
            }
        }
        proof {
            lemma_short_words_take(aw, i as int, out@.len() as int);
        }
        out
    } else {
        let cap: usize = if level == 2 {
            1000
        } else if level == 3 {
            3000
        } else if level == 4 {
            7000
        } else {
            all.len()
        };
        let mut out: Vec<String> = Vec::new();
        let mut i: usize = 0;
        while i < all.len() && i < cap
            invariant
                i <= all@.len(),
                i <= cap,
                aw.len() == all@.len(),
                cap == (if level == 2 {
                    1000
                } else if level == 3 {
                    3000
                } else if level == 4 {
                    7000
                } else {
                    all@.len()
                }),
                aw == views(all@),
                views(out@) == aw.take(i as int),
            decreases all@.len() - i,
        {
            let ghost out0 = out@;
            let w = all[i].clone();
            out.push(w);
            proof {
                lemma_views_push(out0, w);
            }
            i = i + 1;
            proof {
                assert(views(out@) =~= aw.take(i as int));
            }
        }
        proof {
            if i == all@.len() {
                assert(aw.take(i as int) =~= aw);
            }
            assert(pool_of(aw, level) =~= aw.take(i as int));
        }
        out
    }
}

proof fn lemma_short_words_len(ws: Seq<Seq<char>>)
    ensures
        short_words(ws).len() <= ws.len(),
    decreases ws.len(),
{
    if ws.len() > 0 {
        lemma_short_words_len(ws.drop_last());
    }
}

proof fn lemma_short_words_prefix(ws: Seq<Seq<char>>, i: int)
    requires
        0 <= i <= ws.len(),
    ensures
        short_words(ws.take(i)).is_prefix_of(short_words(ws)),
    decreases ws.len() - i,
{
    if i < ws.len() {
        lemma_short_words_prefix(ws, i + 1);
        assert(ws.take(i + 1).drop_last() =~= ws.take(i));
    } else {
        assert(ws.take(i) =~= ws);
    }
}

/// Stopping the level-1 scan at index `i` with `count` short words found gives
/// the same pool as scanning the whole list.
proof fn lemma_short_words_take(ws: Seq<Seq<char>>, i: int, count: int)
    requires
        0 <= i <= ws.len(),
        count == short_words(ws.take(i)).len(),
        count <= 200,
        i < ws.len() ==> count >= 200,
    ensures
        short_words(ws.take(i)) == take_upto(short_words(ws), 200),
{
    lemma_short_words_prefix(ws, i);
    lemma_short_words_len(ws);
    if i == ws.len() {
        assert(ws.take(i) =~= ws);
    } else {
        assert(short_words(ws.take(i)) =~= short_words(ws).take(200));
    }
}

proof fn lemma_accepted_are_words(ps: Seq<Seq<char>>)
    ensures
        forall|i: int| 0 <= i < accepted(ps).len() ==> is_word(#[trigger] accepted(ps)[i]),
    decreases ps.len(),
{
    if ps.len() > 0 {
        lemma_accepted_are_words(ps.drop_last());
        let r = accepted(ps.drop_last());
        assert forall|i: int| 0 <= i < accepted(ps).len() implies is_word(#[trigger] accepted(ps)[i]) by {
            if i < r.len() {
                assert(accepted(ps)[i] == r[i]);
            }
        }
    }
}

proof fn lemma_short_words_keep(ws: Seq<Seq<char>>)
    requires
        forall|i: int| 0 <= i < ws.len() ==> is_word(#[trigger] ws[i]),
    ensures
        forall|i: int| 0 <= i < short_words(ws).len() ==> is_word(#[trigger] short_words(ws)[i]) && short_words(ws)[i].len() <= 5,
    decreases ws.len(),
{
    if ws.len() > 0 {
        assert forall|i: int| 0 <= i < ws.drop_last().len() implies is_word(#[trigger] ws.drop_last()[i]) by {
            assert(ws.drop_last()[i] == ws[i]);
        }
        lemma_short_words_keep(ws.drop_last());
        let r = short_words(ws.drop_last());
        assert forall|i: int| 0 <= i < short_words(ws).len() implies is_word(#[trigger] short_words(ws)[i]) && short_words(ws)[i].len() <= 5 by {
            if i < r.len() {
                assert(short_words(ws)[i] == r[i]);
            }
        }
    }
}

/// Every word a pool offers is two or more lowercase ASCII letters, and at
/// level 1 at most five letters.
pub proof fn lemma_pool_words_are_words(text: Seq<char>, level: u8)
    ensures
        forall|i: int|
            0 <= i < pool_of(word_list(text), level).len() ==> is_word(
                #[trigger] pool_of(word_list(text), level)[i],
            ),
        level == 1 ==> forall|i: int|
            0 <= i < pool_of(word_list(text), level).len() ==> #[trigger] pool_of(word_list(text), level)[i].len() <= 5,
{
    let all = word_list(text);
    lemma_accepted_are_words(pieces(text));
    if level == 1 {
        lemma_short_words_keep(all);
    }
    let p = pool_of(all, level);
    assert forall|i: int| 0 <= i < p.len() implies is_word(#[trigger] p[i]) by {
        if level == 1 {
            let sw = short_words(all);
            if sw.len() > 200 {
                assert(p[i] == sw[i]);
            }
        } else if level == 2 || level == 3 || level == 4 {
            assert(p[i] == all[i]);
        }
    }
    if level == 1 {
        assert forall|i: int| 0 <= i < p.len() implies #[trigger] p[i].len() <= 5 by {
            let sw = short_words(all);
            if sw.len() > 200 {
                assert(p[i] == sw[i]);
            }
        }
    }
}

/// Higher levels widen the pool: levels 2, 3 and 4 take ever longer prefixes
/// of the full list, level 5 takes all of it, and level 1 holds at most 200
/// words.
pub proof fn law_levels_widen(text: Seq<char>)
    ensures
        pool_of(word_list(text), 2).is_prefix_of(pool_of(word_list(text), 3)),
        pool_of(word_list(text), 3).is_prefix_of(pool_of(word_list(text), 4)),
        pool_of(word_list(text), 4).is_prefix_of(pool_of(word_list(text), 5)),
        pool_of(word_list(text), 5) == word_list(text),
        pool_of(word_list(text), 1).len() <= 200,
{
    let all = word_list(text);
    assert(pool_of(all, 2).is_prefix_of(pool_of(all, 3)));
    assert(pool_of(all, 3).is_prefix_of(pool_of(all, 4)));
    assert(pool_of(all, 4).is_prefix_of(pool_of(all, 5)));
}

/// Whether two strings have the same contents.
fn same_text(a: &str, b: &str) -> (r: bool)
    ensures
        r == (a@ == b@),
{
    let n = a.unicode_len();
    if n != b.unicode_len() {
        return false;
    }
    let mut i: usize = 0;
    while i < n
        invariant
            i <= n,
            n == a@.len(),
            n == b@.len(),
            a@.subrange(0, i as int) == b@.subrange(0, i as int),
        decreases n - i,
    {
        if a.get_char(i) != b.get_char(i) {
            return false;
        }
        i = i + 1;
        proof {
            assert(a@.subrange(0, i as int) =~= a@.subrange(0, i - 1).push(a@[i - 1]));
            assert(b@.subrange(0, i as int) =~= b@.subrange(0, i - 1).push(b@[i - 1]));
        }
    }
    proof {
        assert(a@ =~= a@.subrange(0, n as int));
        assert(b@ =~= b@.subrange(0, n as int));
    }
    true
}

/// A pool of candidate words with its own random generator.
pub struct WordPool {
    words: Vec<String>,
    rng: Generator,
    calls: Ghost<Seq<(Option<Seq<char>>, Seq<char>)>>,
}

impl WordPool {
    /// The words of the pool.
    pub closed spec fn pool(&self) -> Seq<Seq<char>> {
        views(self.words@)
    }

    /// The pool for `level` drawn from a word-list text, with a generator
    /// seeded from the operating system; `None` when the system cannot
    /// supply a seed. Levels 1-4 take frequency-ranked slices; any other
    /// value takes the whole list.
    pub fn for_level(text: &str, level: u8) -> (r: Option<WordPool>)
        ensures
            r matches Some(p) ==> p.pool() == pool_of(word_list(text@), level) && (p.pool().len()
                > 0 ==> p.ready()) && p.calls() == Seq::<(Option<Seq<char>>, Seq<char>)>::empty()
                && p.draws() == Seq::<(nat, nat)>::empty(),
    {
        proof {
            lemma_pool_words_are_words(text@, level);
        }
        match Generator::from_os() {
            Some(rng) => Some(
                WordPool {
                    words: pool_words(text, level),
                    rng,
                    calls: Ghost(Seq::empty()),
                },
            ),
            None => None,
        }
    }

    /// A pool like `for_level` whose generator is seeded with `seed`, so the
    /// words it hands out are reproducible.
    pub fn seeded(text: &str, level: u8, seed: u64) -> (p: WordPool)
        ensures
            p.pool() == pool_of(word_list(text@), level),
            p.pool().len() > 0 ==> p.ready(),
            p.calls() == Seq::<(Option<Seq<char>>, Seq<char>)>::empty(),
            p.draws() == Seq::<(nat, nat)>::empty(),
    {
        proof {
            lemma_pool_words_are_words(text@, level);
        }
        WordPool {
            words: pool_words(text, level),
            rng: Generator::seeded(seed),
            calls: Ghost(Seq::empty()),
        }
    }

    /// The candidate words.
    pub fn words(&self) -> (r: &[String])
        ensures
            views(r@) == self.pool(),
    {
        self.words.as_slice()
    }

    /// The number of candidate words.
    pub fn len(&self) -> (r: usize)
        ensures
            r == self.pool().len(),
    {
        self.words.len()
    }

    /// The indices of the pool's words that differ from `p`, in order.
    pub fn others_than(&self, p: &str) -> (r: Vec<usize>)
        ensures
            r@.map_values(|j: usize| j as int) == others(self.pool(), p@),
    {
        let n = self.words.len();
        let mut r: Vec<usize> = Vec::new();
        let mut j: usize = 0;
        proof {
            assert(self.pool().take(0) =~= Seq::<Seq<char>>::empty());
            assert(r@.map_values(|j: usize| j as int) =~= Seq::<int>::empty());
        }
        while j < n
            invariant
                j <= n,
                n == self.pool().len(),
                r@.map_values(|j: usize| j as int) == others(self.pool().take(j as int), p@),
            decreases n - j,
        {
            let ghost r0 = r@;
            proof {
                assert(self.pool().take(j + 1).drop_last() =~= self.pool().take(j as int));
                assert(self.pool()[j as int] == self.words@[j as int]@);
            }
            if !same_text(self.words[j].as_str(), p) {
                r.push(j);
                proof {
                    assert(r@.map_values(|j: usize| j as int) =~= r0.map_values(|j: usize| j as int).push(
                        j as int,
                    ));
                }
            }
            j = j + 1;
        }
        proof {
            assert(self.pool().take(n as int) =~= self.pool());
        }
        r
    }

    /// The word that a draw gives when the generator yields index `i` first
    /// and, should that repeat `prev`, index `k` next: as `picked` says.
    pub fn pick(&self, prev: Option<&str>, i: usize, k: usize) -> (w: String)
        requires
            i < self.pool().len(),
        ensures
            w@ == picked(self.pool(), opt_view(prev), i as int, k as int),
    {
        proof {
            assert(self.pool()[i as int] == self.words@[i as int]@);
        }
        match prev {
            None => self.words[i].clone(),
            Some(p) => {
                if !same_text(self.words[i].as_str(), p) {
                    return self.words[i].clone();
                }
                let o = self.others_than(p);
                proof {
                    assert(o@.len() == others(self.pool(), p@).len());
                }
                if o.len() == 0 {
                    return self.words[i].clone();
                }
                let pick = o[k % o.len()];
                proof {
                    lemma_others(self.pool(), p@);
                    let t = (k % o.len()) as int;
                    assert(o@.map_values(|j: usize| j as int)[t] == pick as int);
                    assert(self.pool()[pick as int] == self.words@[pick as int]@);
                }
                self.words[pick].clone()
            },
        }
    }

    /// Every index the pool's generator has handed out so far, in order: the
    /// bound it was asked for and the index it gave.
    pub closed spec fn draws(&self) -> Seq<(nat, nat)> {
        self.rng.outputs()
    }

    /// Draw a word: a uniformly drawn index below the pool's size, and, when
    /// that word repeats `prev` and the pool holds another word, a uniformly
    /// drawn index below the number of words that differ from `prev`, which
    /// gives every such word the same chance, as redrawing until one comes up
    /// would. The word is the one `pick` gives for those indices; `drew` says
    /// this over the recorded draws.
    pub fn draw(&mut self, prev: Option<&str>) -> (w: String)
        requires
            old(self).pool().len() > 0,
        ensures
            final(self).pool() == old(self).pool(),
            drew(old(self).pool(), opt_view(prev), old(self).draws(), final(self).draws(), w@),
            old(self).pool().contains(w@),
            prev matches Some(p) ==> ((exists|i: int|
                0 <= i < old(self).pool().len() && #[trigger] old(self).pool()[i] != p@)
                ==> w@ != p@),
    {
        let ghost d0 = self.draws();
        let n = self.words.len();
        let i = self.rng.below(n);
        let ghost d1 = self.draws();
        let k = match prev {
            Some(p) => {
                if same_text(self.words[i].as_str(), p) {
                    let o = self.others_than(p);
                    let m = o.len();
                    proof {
                        assert(o@.map_values(|j: usize| j as int).len() == m);
                    }
                    if m > 0 {
                        self.rng.below(m)
                    } else {
                        0
                    }
                } else {
                    0
                }
            },
            None => 0,
        };
        let w = self.pick(prev, i, k);
        proof {
            assert(self.pool()[i as int] == self.words@[i as int]@);
            lemma_picked(self.pool(), opt_view(prev), i as int, k as int);
            assert(self.draws().take(d0.len() as int) =~= d0);
        }
        w
    }
}

/// Whether a draw asks the generator again after the first index `i`: when
/// that word repeats `prev` while some word of the pool differs from `prev`.
pub open spec fn redraws(pool: Seq<Seq<char>>, prev: Option<Seq<char>>, i: int) -> bool {
    match prev {
        Some(p) => pool[i] == p && others(pool, p).len() > 0,
        None => false,
    }
}

/// What one draw does to the record of draws, `d0` before and `d1` after,
/// and which word `w` it gives: it asks the generator for an index below the
/// pool's size and, when that one `redraws`, for a second index below the
/// number of words that differ from `prev`; `w` is the word `picked` gives
/// for the indices it got.
pub open spec fn drew(
    pool: Seq<Seq<char>>,
    prev: Option<Seq<char>>,
    d0: Seq<(nat, nat)>,
    d1: Seq<(nat, nat)>,
    w: Seq<char>,
) -> bool {
    let n0 = d0.len() as int;
    &&& d1.len() > n0
    &&& d1.take(n0) == d0
    &&& d1[n0].0 == pool.len()
    &&& d1[n0].1 < pool.len()
    &&& if redraws(pool, prev, d1[n0].1 as int) {
        let m = others(pool, prev->0).len();
        &&& d1.len() == n0 + 2
        &&& d1[n0 + 1].0 == m
        &&& d1[n0 + 1].1 < m
        &&& w == picked(pool, prev, d1[n0].1 as int, d1[n0 + 1].1 as int)
    } else {
        &&& d1.len() == n0 + 1
        &&& w == picked(pool, prev, d1[n0].1 as int, 0)
    }
}

/// `prev` by its contents.
pub open spec fn opt_view(prev: Option<&str>) -> Option<Seq<char>> {
    match prev {
        Some(p) => Some(p@),
        None => None,
    }
}

/// The indices of the words of `pool` that differ from `p`, in order.
pub open spec fn others(pool: Seq<Seq<char>>, p: Seq<char>) -> Seq<int>
    decreases pool.len(),
{
    if pool.len() == 0 {
        Seq::empty()
    } else {
        let r = others(pool.drop_last(), p);
        if pool.last() != p {
            r.push(pool.len() - 1)
        } else {
            r
        }
    }
}

/// The word drawn when the generator yields index `i` first and, should that
/// repeat `prev`, index `k` next: `pool[i]`, unless it repeats `prev` while
/// some word differs from `prev`; then the word at the `k`-th (counted modulo
/// their number) of the indices of the words that differ from `prev`.
pub open spec fn picked(pool: Seq<Seq<char>>, prev: Option<Seq<char>>, i: int, k: int) -> Seq<char> {
    match prev {
        Some(p) => if pool[i] == p && others(pool, p).len() > 0 {
            pool[others(pool, p)[k % (others(pool, p).len() as int)]]
        } else {
            pool[i]
        },
        None => pool[i],
    }
}

/// A draw gives the word at the first index its generator handed out, unless
/// that word repeats `prev`; then, when some word of the pool differs from
/// `prev`, it asks the generator once more, below the number of such words,
/// and gives a word other than `prev`: the one at that position among the
/// words that differ from `prev`, in pool order. When every word equals
/// `prev` it gives the first word again.
pub proof fn law_draw_follows_generator(
    pool: Seq<Seq<char>>,
    prev: Option<Seq<char>>,
    d0: Seq<(nat, nat)>,
    d1: Seq<(nat, nat)>,
    w: Seq<char>,
)
    requires
        drew(pool, prev, d0, d1, w),
    ensures
        ({
            let n0 = d0.len() as int;
            let i = d1[n0].1 as int;
            &&& d1.take(n0) == d0
            &&& d1[n0].0 == pool.len()
            &&& 0 <= i < pool.len()
            &&& match prev {
                None => d1.len() == n0 + 1 && w == pool[i],
                Some(p) => if pool[i] != p {
                    d1.len() == n0 + 1 && w == pool[i]
                } else if exists|j: int| 0 <= j < pool.len() && #[trigger] pool[j] != p {
                    &&& d1.len() == n0 + 2
                    &&& d1[n0 + 1].1 < d1[n0 + 1].0
                    &&& w != p
                    &&& pool.contains(w)
                    &&& w == pool[others(pool, p)[d1[n0 + 1].1 as int]]
                } else {
                    d1.len() == n0 + 1 && w == pool[i]
                },
            }
        }),
{
    let n0 = d0.len() as int;
    let i = d1[n0].1 as int;
    if let Some(p) = prev {
        lemma_others(pool, p);
        if pool[i] == p && exists|j: int| 0 <= j < pool.len() && #[trigger] pool[j] != p {
            let m = others(pool, p).len();
            let t = d1[n0 + 1].1 as int;
            assert(m > 0);
            assert(redraws(pool, prev, i));
            assert(0 <= t < m);
            vstd::arithmetic::div_mod::lemma_small_mod(t as nat, m as nat);
            assert(t % (m as int) == t);
            assert(0 <= others(pool, p)[t] < pool.len());
        }
        if pool[i] == p && forall|j: int| 0 <= j < pool.len() ==> #[trigger] pool[j] == p {
            if others(pool, p).len() > 0 {
                assert(pool[others(pool, p)[0]] != p);
            }
        }
    }
}

/// The indices `others` lists are in range and name words that differ from
/// `p`, and there is one whenever some word differs from `p`.
pub proof fn lemma_others(pool: Seq<Seq<char>>, p: Seq<char>)
    ensures
        forall|t: int|
            0 <= t < others(pool, p).len() ==> 0 <= #[trigger] others(pool, p)[t] < pool.len()
                && pool[others(pool, p)[t]] != p,
        (exists|j: int| 0 <= j < pool.len() && #[trigger] pool[j] != p) ==> others(pool, p).len()
            > 0,
    decreases pool.len(),
{
    if pool.len() > 0 {
        let d = pool.drop_last();
        lemma_others(d, p);
        let r = others(d, p);
        assert forall|t: int| 0 <= t < others(pool, p).len() implies 0 <= #[trigger] others(pool, p)[t]
            < pool.len() && pool[others(pool, p)[t]] != p by {
            if t < r.len() {
                assert(others(pool, p)[t] == r[t]);
                assert(pool[r[t]] == d[r[t]]);
            }
        }
        if exists|j: int| 0 <= j < pool.len() && #[trigger] pool[j] != p {
            let j = choose|j: int| 0 <= j < pool.len() && #[trigger] pool[j] != p;
            if j < d.len() {
                assert(d[j] == pool[j]);
            }
        }
    }
}

/// A picked word is a word of the pool, and it differs from `prev` whenever
/// some word of the pool does.
pub proof fn lemma_picked(pool: Seq<Seq<char>>, prev: Option<Seq<char>>, i: int, k: int)
    requires
        0 <= i < pool.len(),
        k >= 0,
    ensures
        pool.contains(picked(pool, prev, i, k)),
        prev matches Some(p) ==> ((exists|j: int| 0 <= j < pool.len() && #[trigger] pool[j] != p)
            ==> picked(pool, prev, i, k) != p),
{
    if let Some(p) = prev {
        lemma_others(pool, p);
        let o = others(pool, p);
        if pool[i] == p && o.len() > 0 {
            let t = k % (o.len() as int);
            assert(0 <= o[t] < pool.len());
            assert(pool[o[t]] == picked(pool, prev, i, k));
        }
    }
}

impl WordStream for WordPool {
    open spec fn ready(&self) -> bool {
        &&& self.pool().len() > 0
        &&& forall|i: int| 0 <= i < self.pool().len() ==> #[trigger] self.pool()[i].len() > 0
    }

    open spec fn vocabulary(&self) -> Set<Seq<char>> {
        self.pool().to_set()
    }

    closed spec fn calls(&self) -> Seq<(Option<Seq<char>>, Seq<char>)> {
        self.calls@
    }

    /// A word drawn as `draw` draws it.
    fn next_word(&mut self, prev: Option<&str>) -> (w: String)
        ensures
            final(self).pool() == old(self).pool(),
            drew(old(self).pool(), opt_view(prev), old(self).draws(), final(self).draws(), w@),
            old(self).pool().contains(w@),
            prev matches Some(p) ==> ((exists|i: int|
                0 <= i < old(self).pool().len() && #[trigger] old(self).pool()[i] != p@)
                ==> w@ != p@),
    {
        let ghost c0 = self.calls@;
        let w = self.draw(prev);
        self.calls = Ghost(c0.push((opt_view(prev), w@)));
        proof {
            let k = choose|k: int| 0 <= k < old(self).pool().len() && old(self).pool()[k] == w@;
            if let Some(p) = prev {
                if exists|x: Seq<char>| #[trigger] old(self).pool().to_set().contains(x) && x != p@ {
                    let x = choose|x: Seq<char>| #[trigger] old(self).pool().to_set().contains(x) && x != p@;
                    let i = choose|i: int| 0 <= i < old(self).pool().len() && old(self).pool()[i] == x;
                    assert(old(self).pool()[i] != p@);
                }
            }
        }
        w
    }
}

} // verus!
