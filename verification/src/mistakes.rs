use std::collections::BTreeMap;
use vstd::multiset::Multiset;
use vstd::prelude::*;

use crate::words::string_push;

verus! {

/// Per-session mistake accumulation. Key/combo counts are keystroke-based
/// (matching how accuracy counts every keystroke); word counts are
/// per-instance: `seen` = times the word was reached, `fumbled` = instances
/// with at least one wrong keystroke inside.
#[derive(Debug, Clone, Default, PartialEq)]
pub struct MistakeTally {
    /// expected char -> (occurrences, wrong)
    pub keys: BTreeMap<char, (u32, u32)>,
    /// word -> (seen, fumbled)
    pub words: BTreeMap<String, (u32, u32)>,
    /// two-char transition "ab" -> (occurrences, wrong)
    pub combos: BTreeMap<String, (u32, u32)>,
}

/// A map keyed by strings, seen by the strings' contents.
pub open spec fn by_text<V>(m: Map<String, V>) -> Map<Seq<char>, V> {
    Map::new(
        |s: Seq<char>| exists|k: String| m.contains_key(k) && k@ == s,
        |s: Seq<char>| m[choose|k: String| m.contains_key(k) && k@ == s],
    )
}

/// `BTreeMap::get` on a map keyed by `String`, copying the value out. The
/// standard library documents that `get` returns the value stored under a key
/// equal to the argument; `String` keys are equal exactly when their contents
/// are, so the result is the value stored for `k`'s text.
#[verifier::external_body]
pub(crate) fn text_map_get(m: &BTreeMap<String, (u32, u32)>, k: &String) -> (r: Option<(u32, u32)>)
    ensures
        r == (if by_text(m@).contains_key(k@) {
            Some(by_text(m@)[k@])
        } else {
            None
        }),
{
    m.get(k).copied()
}

/// `BTreeMap::insert` on a map keyed by `String`: the standard library
/// documents that afterwards the key (by content) maps to `v` and every other
/// entry is kept.
#[verifier::external_body]
pub(crate) fn text_map_insert(m: &mut BTreeMap<String, (u32, u32)>, k: String, v: (u32, u32))
    ensures
        by_text(final(m)@) == by_text(old(m)@).insert(k@, v),
{
    m.insert(k, v);
}

/// `BTreeMap::iter` on a map keyed by `String`, each entry copied out. The
/// standard library documents that the iterator yields every entry of the
/// map once; keys are distinct as strings, so the copies have distinct texts
/// and list `by_text` of the map. The order (sorted by key) is left unsaid.
#[verifier::external_body]
fn text_map_entries(m: &BTreeMap<String, (u32, u32)>) -> (r: Vec<(String, (u32, u32))>)
    ensures
        forall|i: int|
            0 <= i < r@.len() ==> by_text(m@).contains_key(#[trigger] r@[i].0@) && by_text(m@)[r@[i].0@]
                == r@[i].1,
        forall|s: Seq<char>| #[trigger]
            by_text(m@).contains_key(s) ==> exists|i: int| 0 <= i < r@.len() && r@[i].0@ == s,
        forall|i: int, j: int| 0 <= i < j < r@.len() ==> r@[i].0@ != r@[j].0@,
{
    m.iter().map(|(k, v)| (k.clone(), *v)).collect()
}

/// `BTreeMap::iter` on a map keyed by `char`, each entry copied out. The
/// standard library documents that the iterator yields every entry of the
/// map once, in increasing order of key (a `char` orders by its code point).
#[verifier::external_body]
fn char_map_entries(m: &BTreeMap<char, (u32, u32)>) -> (r: Vec<(char, (u32, u32))>)
    ensures
        forall|i: int|
            0 <= i < r@.len() ==> m@.contains_key(#[trigger] r@[i].0) && m@[r@[i].0] == r@[i].1,
        forall|c: char| #[trigger]
            m@.contains_key(c) ==> exists|i: int| 0 <= i < r@.len() && r@[i].0 == c,
        forall|i: int, j: int| 0 <= i < j < r@.len() ==> (r@[i].0 as u32) < (r@[j].0 as u32),
{
    m.iter().map(|(c, v)| (*c, *v)).collect()
}

/// The key counts of a tally, each key seen as a one-character label.
pub open spec fn by_key_label(m: Map<char, (u32, u32)>) -> Map<Seq<char>, (u32, u32)> {
    Map::new(|s: Seq<char>| s.len() == 1 && m.contains_key(s[0]), |s: Seq<char>| m[s[0]])
}

/// `ws` lists the entries of `m` (label -> (total, bad)), each exactly once,
/// in some order.
pub open spec fn lists(ws: Seq<Weakness>, m: Map<Seq<char>, (u32, u32)>) -> bool {
    &&& forall|i: int|
        0 <= i < ws.len() ==> m.contains_key(#[trigger] ws[i].label@) && m[ws[i].label@] == (
            ws[i].total,
            ws[i].bad,
        )
    &&& forall|s: Seq<char>| #[trigger]
        m.contains_key(s) ==> exists|i: int| 0 <= i < ws.len() && ws[i].label@ == s
    &&& forall|i: int, j: int| 0 <= i < j < ws.len() ==> ws[i].label@ != ws[j].label@
}

/// How weaknesses are ranked: by miss rate or by number of misses.
#[derive(Clone, Copy, PartialEq, Eq, Debug, Structural)]
pub enum Sort {
    Rate,
    Count,
}

/// One weak spot (a key, a combo or a word): how often it came up and how
/// often it went wrong. Its miss rate is `bad / total`.
#[derive(Debug)]
pub struct Weakness {
    pub label: String,
    pub total: u32,
    pub bad: u32,
}

/// The weak keys, combos and fumbled words over some recent sessions.
#[derive(Debug)]
pub struct WeaknessProfile {
    pub keys: Vec<Weakness>,
    pub combos: Vec<Weakness>,
    pub words: Vec<Weakness>,
    pub sessions: u32,
}

impl Default for WeaknessProfile {
    fn default() -> (p: Self)
        ensures
            p.keys@.len() == 0,
            p.combos@.len() == 0,
            p.words@.len() == 0,
            p.sessions == 0,
    {
        WeaknessProfile { keys: Vec::new(), combos: Vec::new(), words: Vec::new(), sessions: 0 }
    }
}

impl WeaknessProfile {
    /// True when there is nothing to show.
    pub fn is_empty(&self) -> (r: bool)
        ensures
            r == (self.keys@.len() == 0 && self.combos@.len() == 0 && self.words@.len() == 0),
    {
        self.keys.len() == 0 && self.combos.len() == 0 && self.words.len() == 0
    }
}

/// Whether `a` ranks strictly ahead of `b`: a higher miss rate (compared as
/// `a.bad / a.total > b.bad / b.total`, without dividing), or more misses.
pub open spec fn outranks(a: Weakness, b: Weakness, sort: Sort) -> bool {
    match sort {
        Sort::Rate => a.bad as int * b.total as int > b.bad as int * a.total as int,
        Sort::Count => a.bad > b.bad,
    }
}

/// No entry of `s` ranks strictly ahead of an earlier one.
pub open spec fn ranked(s: Seq<Weakness>, sort: Sort) -> bool {
    forall|i: int, j: int| 0 <= i < j < s.len() ==> !outranks(#[trigger] s[j], #[trigger] s[i], sort)
}

fn outranks_exec(a: &Weakness, b: &Weakness, sort: Sort) -> (r: bool)
    ensures
        r == outranks(*a, *b, sort),
{
    proof {
        assert(a.bad as int * b.total as int <= 0xffff_ffff * 0xffff_ffff) by (nonlinear_arith)
            requires
                0 <= a.bad <= 0xffff_ffff,
                0 <= b.total <= 0xffff_ffff,
        ;
        assert(b.bad as int * a.total as int <= 0xffff_ffff * 0xffff_ffff) by (nonlinear_arith)
            requires
                0 <= b.bad <= 0xffff_ffff,
                0 <= a.total <= 0xffff_ffff,
        ;
    }
    match sort {
        Sort::Rate => (a.bad as u64) * (b.total as u64) > (b.bad as u64) * (a.total as u64),
        Sort::Count => a.bad > b.bad,
    }
}

proof fn lemma_outranks_asymmetric(a: Weakness, b: Weakness, sort: Sort)
    ensures
        !(outranks(a, b, sort) && outranks(b, a, sort)),
{
}

proof fn lemma_rate_transitive(ab: int, at: int, bb: int, bt: int, cb: int, ct: int)
    requires
        ab >= 0,
        at >= 0,
        bb >= 0,
        bt >= 0,
        cb >= 0,
        ct >= 0,
        ab * bt > bb * at,
        bb * ct > cb * bt,
    ensures
        ab * ct > cb * at,
{
    assert(bt > 0) by (nonlinear_arith)
        requires
            ab * bt > bb * at,
            bb >= 0,
            at >= 0,
            bt >= 0,
    ;
    assert(ct > 0) by (nonlinear_arith)
        requires
            bb * ct > cb * bt,
            cb >= 0,
            bt >= 0,
            ct >= 0,
    ;
    assert(ab * bt * ct > bb * at * ct) by (nonlinear_arith)
        requires
            ab * bt > bb * at,
            ct > 0,
    ;
    assert(bb * ct * at >= cb * bt * at) by (nonlinear_arith)
        requires
            bb * ct > cb * bt,
            at >= 0,
    ;
    assert(ab * ct * bt > cb * at * bt) by (nonlinear_arith)
        requires
            ab * bt * ct > bb * at * ct,
            bb * ct * at >= cb * bt * at,
    ;
    assert(ab * ct > cb * at) by (nonlinear_arith)
        requires
            ab * ct * bt > cb * at * bt,
            bt > 0,
    ;
}

proof fn lemma_outranks_transitive(a: Weakness, b: Weakness, c: Weakness, sort: Sort)
    requires
        outranks(a, b, sort),
        outranks(b, c, sort),
    ensures
        outranks(a, c, sort),
{
    if sort == Sort::Rate {
        lemma_rate_transitive(
            a.bad as int,
            a.total as int,
            b.bad as int,
            b.total as int,
            c.bad as int,
            c.total as int,
        );
    }
}

/// Ranked weaknesses come in order: by miss count, no entry has more misses
/// than one before it; by miss rate, no entry has a higher miss rate (its
/// `bad / total`, compared by cross-multiplying) than one before it.
pub proof fn law_ranked_order(s: Seq<Weakness>, sort: Sort)
    requires
        ranked(s, sort),
    ensures
        sort == Sort::Count ==> forall|i: int, j: int|
            0 <= i < j < s.len() ==> #[trigger] s[j].bad <= #[trigger] s[i].bad,
        sort == Sort::Rate ==> forall|i: int, j: int|
            0 <= i < j < s.len() ==> #[trigger] s[j].bad as int * #[trigger] s[i].total as int
                <= s[i].bad as int * s[j].total as int,
{
    assert forall|i: int, j: int| 0 <= i < j < s.len() implies !outranks(
        #[trigger] s[j],
        #[trigger] s[i],
        sort,
    ) by {}
}

/// Rank `v` under `sort`: afterwards it holds the same entries, and no entry
/// ranks strictly ahead of an earlier one.
pub fn sort_weaknesses(v: &mut Vec<Weakness>, sort: Sort)
    ensures
        final(v)@.to_multiset() == old(v)@.to_multiset(),
        ranked(final(v)@, sort),
        sort == Sort::Count ==> forall|i: int, j: int|
            0 <= i < j < final(v)@.len() ==> #[trigger] final(v)@[j].bad <= #[trigger] final(v)@[i].bad,
        sort == Sort::Rate ==> forall|i: int, j: int|
            0 <= i < j < final(v)@.len() ==> (#[trigger] final(v)@[j]).bad as int * (
                #[trigger] final(v)@[i]).total as int <= final(v)@[i].bad as int * final(v)@[j].total as int,
{
    broadcast use vstd::seq_lib::group_to_multiset_ensures;
    let ghost orig = v@;
    let mut out: Vec<Weakness> = Vec::new();
    proof {
        assert(out@.to_multiset() =~= Multiset::empty());
        assert(out@.to_multiset().add(v@.to_multiset()) =~= orig.to_multiset());
    }
    while v.len() > 0
        invariant
            out@.to_multiset().add(v@.to_multiset()) == orig.to_multiset(),
            ranked(out@, sort),
        decreases v@.len(),
    {
        let ghost v0 = v@;
        let ghost out0 = out@;
        let x = v.remove(0);
        let mut p: usize = 0;
        while p < out.len() && !outranks_exec(&x, &out[p], sort)
            invariant
                p <= out@.len(),
                out@ == out0,
                forall|i: int| 0 <= i < p ==> !outranks(x, #[trigger] out0[i], sort),
            decreases out@.len() - p,
        {
            p = p + 1;
        }
        out.insert(p, x);
        proof {
            vstd::seq_lib::to_multiset_remove(v0, 0);
            vstd::seq_lib::to_multiset_insert(out0, p as int, x);
            assert(v0.remove(0) == v@);
            assert(x == v0[0]);
            assert(v0.contains(x));
            vstd::seq_lib::to_multiset_contains(v0, x);
            assert(v0.to_multiset().count(x) > 0);
            assert(out@.to_multiset().add(v@.to_multiset()) =~= orig.to_multiset());
            assert forall|i: int, j: int| 0 <= i < j < out@.len() implies !outranks(
                #[trigger] out@[j],
                #[trigger] out@[i],
                sort,
            ) by {
                if j < p {
                    assert(out@[i] == out0[i] && out@[j] == out0[j]);
                } else if j == p {
                    assert(out@[i] == out0[i]);
                } else if i > p {
                    assert(out@[i] == out0[i - 1] && out@[j] == out0[j - 1]);
                } else if i == p {
                    assert(out@[j] == out0[j - 1]);
                    if outranks(out0[j - 1], x, sort) {
                        lemma_outranks_asymmetric(out0[p as int], x, sort);
                        if j - 1 > p {
                            lemma_outranks_transitive(out0[j - 1], x, out0[p as int], sort);
                        }
                    }
                } else {
                    assert(out@[i] == out0[i] && out@[j] == out0[j - 1]);
                }
            }
        }
    }
    proof {
        assert(v@.to_multiset() =~= Multiset::empty());
        assert(out@.to_multiset() =~= orig.to_multiset());
        law_ranked_order(out@, sort);
    }
    *v = out;
}

/// One row per key of `m`, labelled by the key.
fn key_rows(m: &BTreeMap<char, (u32, u32)>) -> (ws: Vec<Weakness>)
    ensures
        lists(ws@, by_key_label(m@)),
{
    let entries = char_map_entries(m);
    let mut ws: Vec<Weakness> = Vec::new();
    let mut k: usize = 0;
    while k < entries.len()
        invariant
            k <= entries@.len(),
            ws@.len() == k,
            forall|i: int|
                0 <= i < k ==> (#[trigger] ws@[i]).label@ == seq![entries@[i].0] && (
                    ws@[i].total,
                    ws@[i].bad,
                ) == entries@[i].1,
        decreases entries@.len() - k,
    {
        let (c, v) = entries[k];
        let mut label = String::new();
        string_push(&mut label, c);
        ws.push(Weakness { label, total: v.0, bad: v.1 });
        k = k + 1;
    }
    proof {
        let mm = by_key_label(m@);
        assert forall|i: int| 0 <= i < ws@.len() implies mm.contains_key(#[trigger] ws@[i].label@)
            && mm[ws@[i].label@] == (ws@[i].total, ws@[i].bad) by {
            assert(ws@[i].label@[0] == entries@[i].0);
        }
        assert forall|s: Seq<char>| #[trigger] mm.contains_key(s) implies exists|i: int|
            0 <= i < ws@.len() && ws@[i].label@ == s by {
            assert(m@.contains_key(s[0]));
            let i = choose|i: int| 0 <= i < entries@.len() && entries@[i].0 == s[0];
            assert(ws@[i].label@ =~= s);
        }
        assert forall|i: int, j: int| 0 <= i < j < ws@.len() implies ws@[i].label@
            != ws@[j].label@ by {
            assert(ws@[i].label@[0] == entries@[i].0);
            assert(ws@[j].label@[0] == entries@[j].0);
        }
    }
    ws
}

/// One row per entry of a `String`-keyed tally map, labelled by its text.
fn text_rows(m: &BTreeMap<String, (u32, u32)>) -> (ws: Vec<Weakness>)
    ensures
        lists(ws@, by_text(m@)),
{
    let entries = text_map_entries(m);
    let mut ws: Vec<Weakness> = Vec::new();
    let mut k: usize = 0;
    while k < entries.len()
        invariant
            k <= entries@.len(),
            ws@.len() == k,
            forall|i: int|
                0 <= i < k ==> (#[trigger] ws@[i]).label@ == entries@[i].0@ && (
                    ws@[i].total,
                    ws@[i].bad,
                ) == entries@[i].1,
        decreases entries@.len() - k,
    {
        let label = entries[k].0.clone();
        let v = entries[k].1;
        ws.push(Weakness { label, total: v.0, bad: v.1 });
        k = k + 1;
    }
    proof {
        let mm = by_text(m@);
        assert forall|s: Seq<char>| #[trigger] mm.contains_key(s) implies exists|i: int|
            0 <= i < ws@.len() && ws@[i].label@ == s by {
            let i = choose|i: int| 0 <= i < entries@.len() && entries@[i].0@ == s;
            assert(ws@[i].label@ == s);
        }
    }
    ws
}

impl WeaknessProfile {
    /// The profile of one session's mistakes: a row for each key, combo and
    /// word of `tally`, with its counts, over that one session.
    pub fn from_tally(tally: &MistakeTally) -> (p: Self)
        ensures
            lists(p.keys@, by_key_label(tally.keys@)),
            lists(p.combos@, by_text(tally.combos@)),
            lists(p.words@, by_text(tally.words@)),
            p.sessions == 1,
    {
        WeaknessProfile {
            keys: key_rows(&tally.keys),
            combos: text_rows(&tally.combos),
            words: text_rows(&tally.words),
            sessions: 1,
        }
    }
}

impl MistakeTally {
    /// True when nothing was typed worth recording (no keystrokes landed).
    pub fn is_empty(&self) -> (r: bool)
        ensures
            r == (self.keys@.is_empty() && self.words@.is_empty() && self.combos@.is_empty()),
    {
        self.keys.is_empty() && self.words.is_empty() && self.combos.is_empty()
    }
}

} // verus!
