//! Framing of JSON-lines files: which lines hold a record, and how the
//! records that parsed are told apart from the unusable lines.

use vstd::prelude::*;

use crate::words::{is_white_space, is_white_space_char, pieces, trim, trim_end, trim_start, views};

verus! {

/// `l` without one trailing carriage return.
pub open spec fn strip_cr(l: Seq<char>) -> Seq<char> {
    if l.len() > 0 && l.last() == '\r' {
        l.drop_last()
    } else {
        l
    }
}

/// Whether a line is empty or only white space.
pub open spec fn blank(l: Seq<char>) -> bool {
    trim(l).len() == 0
}

/// The non-blank lines among newline-terminated pieces, each without the
/// carriage return before its newline.
pub open spec fn kept(ps: Seq<Seq<char>>) -> Seq<Seq<char>>
    decreases ps.len(),
{
    if ps.len() == 0 {
        Seq::empty()
    } else {
        let r = kept(ps.drop_last());
        let l = strip_cr(ps.last());
        if !blank(l) {
            r.push(l)
        } else {
            r
        }
    }
}

/// The non-blank lines of `text`, split as `str::lines` splits: at `\n`,
/// dropping a `\r` just before it; the text after the last newline is a line
/// of its own, kept as it is.
pub open spec fn content_lines_of(text: Seq<char>) -> Seq<Seq<char>> {
    let p = pieces(text);
    kept(p.drop_last()) + if !blank(p.last()) {
        seq![p.last()]
    } else {
        Seq::empty()
    }
}

proof fn lemma_trim_end_nonempty(w: Seq<char>, i: int)
    requires
        0 <= i < w.len(),
        !is_white_space(w[i]),
    ensures
        trim_end(w).len() > 0,
    decreases w.len(),
{
    if is_white_space(w.last()) {
        assert(w.drop_last()[i] == w[i]);
        lemma_trim_end_nonempty(w.drop_last(), i);
    }
}

proof fn lemma_blank(w: Seq<char>)
    ensures
        blank(w) <==> forall|i: int| 0 <= i < w.len() ==> is_white_space(#[trigger] w[i]),
    decreases w.len(),
{
    if forall|i: int| 0 <= i < w.len() ==> is_white_space(#[trigger] w[i]) {
        lemma_trim_start_all(w);
    } else {
        let k = choose|i: int| 0 <= i < w.len() && !is_white_space(#[trigger] w[i]);
        lemma_trim_start_nonws(w, k);
    }
}

proof fn lemma_trim_start_all(w: Seq<char>)
    requires
        forall|i: int| 0 <= i < w.len() ==> is_white_space(#[trigger] w[i]),
    ensures
        trim_start(w).len() == 0,
    decreases w.len(),
{
    if w.len() > 0 {
        assert(is_white_space(w[0]));
        assert forall|i: int| 0 <= i < w.drop_first().len() implies is_white_space(#[trigger] w.drop_first()[i]) by {
            assert(w.drop_first()[i] == w[i + 1]);
        }
        lemma_trim_start_all(w.drop_first());
    }
}

proof fn lemma_trim_start_nonws(w: Seq<char>, k: int)
    requires
        0 <= k < w.len(),
        !is_white_space(w[k]),
    ensures
        trim_end(trim_start(w)).len() > 0,
    decreases w.len(),
{
    if is_white_space(w[0]) {
        assert(k > 0);
        assert(w.drop_first()[k - 1] == w[k]);
        lemma_trim_start_nonws(w.drop_first(), k - 1);
    } else {
        lemma_trim_end_nonempty(w, 0);
    }
}

/// Whether a line is empty or only white space.
fn is_blank(line: &Vec<char>) -> (r: bool)
    ensures
        r == blank(line@),
{
    proof {
        lemma_blank(line@);
    }
    let mut i: usize = 0;
    while i < line.len()
        invariant
            i <= line@.len(),
            forall|j: int| 0 <= j < i ==> is_white_space(#[trigger] line@[j]),
            blank(line@) <==> forall|j: int| 0 <= j < line@.len() ==> is_white_space(#[trigger] line@[j]),
        decreases line@.len() - i,
    {
        if !is_white_space_char(line[i]) {
            return false;
        }
        i = i + 1;
    }
    true
}

fn line_string(line: &Vec<char>) -> (s: String)
    ensures
        s@ == line@,
{
    let mut s = String::new();
    let mut i: usize = 0;
    while i < line.len()
        invariant
            i <= line@.len(),
            s@ == line@.subrange(0, i as int),
        decreases line@.len() - i,
    {
        crate::words::string_push(&mut s, line[i]);
        i = i + 1;
        proof {
            assert(s@ =~= line@.subrange(0, i as int));
        }
    }
    proof {
        assert(line@.subrange(0, line@.len() as int) =~= line@);
    }
    s
}

/// The lines of a JSON-lines text that hold something: every line that is
/// not empty or white space, in order.
pub fn content_lines(text: &str) -> (r: Vec<String>)
    ensures
        views(r@) == content_lines_of(text@),
{
    let mut out: Vec<String> = Vec::new();
    let mut line: Vec<char> = Vec::new();
    let ghost mut seen: Seq<char> = Seq::empty();
    let n = text.unicode_len();
    let mut i: usize = 0;
    proof {
        assert(pieces(seen).drop_last() =~= Seq::<Seq<char>>::empty());
    }
    while i < n
        invariant
            i <= n,
            n == text@.len(),
            seen == text@.subrange(0, i as int),
            pieces(seen).len() >= 1,
            line@ == pieces(seen).last(),
            views(out@) == kept(pieces(seen).drop_last()),
        decreases n - i,
    {
        let c = text.get_char(i);
        let ghost prev = seen;
        proof {
            seen = text@.subrange(0, i + 1);
            assert(seen.drop_last() =~= prev);
            assert(seen.last() == c);
        }
        if c == '\n' {
            let ghost raw = line@;
            if line.len() > 0 && line[line.len() - 1] == '\r' {
                line.pop();
            }
            proof {
                assert(line@ == strip_cr(raw));
            }
            let ghost out0 = out@;
            if !is_blank(&line) {
                let s = line_string(&line);
                out.push(s);
                proof {
                    assert(views(out@) =~= views(out0).push(s@));
                }
            }
            proof {
                let pp = pieces(prev);
                assert(pieces(seen) == pp.push(Seq::empty()));
                assert(pieces(seen).drop_last() =~= pp);
                assert(views(out@) =~= kept(pp));
            }
            line = Vec::new();
            proof {
                assert(line@ =~= pieces(seen).last());
            }
        } else {
            line.push(c);
            proof {
                let pp = pieces(prev);
                assert(pieces(seen) == pp.update(pp.len() - 1, pp.last().push(c)));
                assert(pieces(seen).drop_last() =~= pp.drop_last());
            }
        }
        i = i + 1;
    }
    let ghost out0 = out@;
    if !is_blank(&line) {
        let s = line_string(&line);
        out.push(s);
        proof {
            assert(views(out@) =~= views(out0).push(s@));
        }
    }
    proof {
        assert(seen =~= text@);
        assert(views(out@) =~= content_lines_of(text@));
    }
    out
}

/// The values of the `Some` entries of `s`, in order.
pub open spec fn somes<T>(s: Seq<Option<T>>) -> Seq<T>
    decreases s.len(),
{
    if s.len() == 0 {
        Seq::empty()
    } else {
        let r = somes(s.drop_last());
        match s.last() {
            Some(v) => r.push(v),
            None => r,
        }
    }
}

/// The number of `None` entries of `s`.
pub open spec fn nones<T>(s: Seq<Option<T>>) -> nat
    decreases s.len(),
{
    if s.len() == 0 {
        0
    } else {
        nones(s.drop_last()) + if s.last() is None {
            1nat
        } else {
            0nat
        }
    }
}

proof fn lemma_nones_bounded<T>(s: Seq<Option<T>>)
    ensures
        nones(s) <= s.len(),
    decreases s.len(),
{
    if s.len() > 0 {
        lemma_nones_bounded(s.drop_last());
    }
}

/// Split per-line outcomes into the usable records, in file order, and the
/// count of unusable lines (`None`: unparseable or out of range).
pub fn keep_parsed<T>(parsed: Vec<Option<T>>) -> (r: (Vec<T>, usize))
    ensures
        r.0@ == somes(parsed@),
        r.1 == nones(parsed@),
{
    let ghost all = parsed@;
    let total = parsed.len();
    let mut rest = parsed;
    let mut records: Vec<T> = Vec::new();
    let mut skipped: usize = 0;
    let ghost mut done: int = 0;
    while rest.len() > 0
        invariant
            0 <= done <= all.len(),
            total == all.len(),
            rest@ == all.skip(done),
            records@ == somes(all.take(done)),
            skipped == nones(all.take(done)),
        decreases rest@.len(),
    {
        let item = rest.remove(0);
        proof {
            assert(all.take(done + 1).drop_last() =~= all.take(done));
            assert(item == all[done]);
            lemma_nones_bounded(all.take(done));
        }
        match item {
            Some(v) => records.push(v),
            None => skipped = skipped + 1,
        }
        proof {
            done = done + 1;
            assert(rest@ =~= all.skip(done));
        }
    }
    proof {
        assert(all.take(done) =~= all);
    }
    (records, skipped)
}

} // verus!
