use vstd::prelude::*;

use crate::history::{decimal, decimal_string, digit};
use crate::words::string_push;

verus! {

/// Number of text lines visible on the typing screen.
pub const VISIBLE_LINES: u16 = 3;

/// Default width of the centered text column, in columns.
pub const DEFAULT_TEXT_WIDTH: u16 = 64;

/// The last index `i` with `start <= i < end` where `t[i]` is a space, or -1.
pub open spec fn last_space(t: Seq<char>, start: int, end: int) -> int
    decreases end - start,
{
    if end <= start {
        -1
    } else if t[end - 1] == ' ' {
        end - 1
    } else {
        last_space(t, start, end - 1)
    }
}

/// Where a line starting at `start` ends: the whole rest when it fits in
/// `width`, otherwise just after the last space within `width` chars, or
/// exactly `width` chars on when there is none.
pub open spec fn line_end(t: Seq<char>, start: int, width: int) -> int {
    let max_end = if start + width < t.len() {
        start + width
    } else {
        t.len() as int
    };
    if max_end == t.len() {
        t.len() as int
    } else if last_space(t, start, max_end) >= 0 {
        last_space(t, start, max_end) + 1
    } else {
        max_end
    }
}

/// The lines `r` tile `t` from 0 to its end, each ending where `line_end` says.
pub open spec fn lays_out(t: Seq<char>, width: int, r: Seq<(usize, usize)>) -> bool {
    &&& (r.len() == 0 <==> t.len() == 0)
    &&& r.len() > 0 ==> r[0].0 == 0 && r.last().1 == t.len()
    &&& forall|k: int|
        #![trigger r[k]]
        0 <= k < r.len() ==> r[k].1 == line_end(t, r[k].0 as int, width) && r[k].0 < r[k].1
            <= t.len() && r[k].1 - r[k].0 <= width
    &&& forall|k: int| #![trigger r[k + 1]] 0 <= k < r.len() - 1 ==> r[k + 1].0 == r[k].1
}

proof fn lemma_last_space(t: Seq<char>, start: int, end: int)
    requires
        0 <= start <= end <= t.len(),
    ensures
        last_space(t, start, end) == -1 || (start <= last_space(t, start, end) < end && t[last_space(t, start, end)] == ' '),
        forall|i: int| last_space(t, start, end) < i < end && start <= i ==> t[i] != ' ',
    decreases end - start,
{
    if end > start {
        lemma_last_space(t, start, end - 1);
    }
}

/// Break `target` into `(start, end)` line ranges of at most `width` chars,
/// preferring to break after a space (the space stays at the end of the line,
/// so every target char is rendered exactly once). Words longer than `width`
/// are hard-broken. A zero width gives no lines.
pub fn layout_lines(target: &[char], width: usize) -> (r: Vec<(usize, usize)>)
    ensures
        width == 0 ==> r@.len() == 0,
        width > 0 ==> lays_out(target@, width as int, r@),
{
    let mut lines: Vec<(usize, usize)> = Vec::new();
    if width == 0 {
        return lines;
    }
    let len = target.len();
    let mut start: usize = 0;
    while start < len
        invariant
            len == target@.len(),
            width > 0,
            start <= len,
            lines@.len() == 0 <==> start == 0,
            lines@.len() > 0 ==> lines@[0].0 == 0 && lines@.last().1 == start,
            forall|k: int|
                #![trigger lines@[k]]
                0 <= k < lines@.len() ==> lines@[k].1 == line_end(target@, lines@[k].0 as int, width as int)
                    && lines@[k].0 < lines@[k].1 <= len && lines@[k].1 - lines@[k].0 <= width,
            forall|k: int|
                #![trigger lines@[k + 1]]
                0 <= k < lines@.len() - 1 ==> lines@[k + 1].0 == lines@[k].1,
        decreases len - start,
    {
        let max_end = if width < len - start {
            start + width
        } else {
            len
        };
        let end = if max_end == len {
            len
        } else {
            let mut i = max_end;
            while i > start && target[i - 1] != ' '
                invariant
                    start <= i <= max_end,
                    max_end <= len,
                    len == target@.len(),
                    last_space(target@, start as int, max_end as int) == last_space(
                        target@,
                        start as int,
                        i as int,
                    ),
                decreases i - start,
            {
                i = i - 1;
            }
            if i > start {
                i
            } else {
                max_end
            }
        };
        proof {
            assert(end == line_end(target@, start as int, width as int));
            assert(start < end <= len);
            assert(end - start <= width);
        }
        proof {
            lemma_last_space(target@, start as int, max_end as int);
        }
        let ghost lines0 = lines@;
        lines.push((start, end));
        proof {
            assert(lines@.len() == lines0.len() + 1);
            assert forall|k: int|
                #![trigger lines@[k + 1]]
                0 <= k < lines@.len() - 1 implies lines@[k + 1].0 == lines@[k].1 by {
                if k + 1 < lines0.len() {
                    assert(lines@[k + 1] == lines0[k + 1]);
                    assert(lines@[k] == lines0[k]);
                }
            }
            assert forall|k: int|
                #![trigger lines@[k]]
                0 <= k < lines@.len() implies lines@[k].1 == line_end(target@, lines@[k].0 as int, width as int)
                    && lines@[k].0 < lines@[k].1 <= len && lines@[k].1 - lines@[k].0 <= width by {
                if k < lines0.len() {
                    assert(lines@[k] == lines0[k]);
                }
            }
        }
        start = end;
    }
    lines
}

/// The index of the first line holding `cursor`, or 0 when none does.
pub open spec fn cursor_line(lines: Seq<(usize, usize)>, cursor: int) -> int
    decreases lines.len(),
{
    if lines.len() == 0 {
        0
    } else {
        let k = cursor_line(lines.drop_last(), cursor);
        let l = lines.last();
        if holds(lines.drop_last(), cursor) {
            k
        } else if l.0 <= cursor < l.1 {
            lines.len() - 1
        } else {
            0
        }
    }
}

/// Whether some line holds `cursor`.
pub open spec fn holds(lines: Seq<(usize, usize)>, cursor: int) -> bool {
    exists|k: int| 0 <= k < lines.len() && #[trigger] lines[k].0 <= cursor < lines[k].1
}

proof fn lemma_cursor_line_push(lines: Seq<(usize, usize)>, x: (usize, usize), cursor: int)
    ensures
        holds(lines.push(x), cursor) == (holds(lines, cursor) || (x.0 <= cursor < x.1)),
        cursor_line(lines.push(x), cursor) == if holds(lines, cursor) {
            cursor_line(lines, cursor)
        } else if x.0 <= cursor < x.1 {
            lines.len() as int
        } else {
            0
        },
{
    assert(lines.push(x).drop_last() =~= lines);
    if holds(lines, cursor) {
        let k = choose|k: int| 0 <= k < lines.len() && #[trigger] lines[k].0 <= cursor < lines[k].1;
        assert(lines.push(x)[k] == lines[k]);
    }
    if x.0 <= cursor < x.1 {
        assert(lines.push(x)[lines.len() as int] == x);
    }
    if holds(lines.push(x), cursor) && !holds(lines, cursor) {
        let k = choose|k: int| 0 <= k < lines.len() + 1 && #[trigger] lines.push(x)[k].0 <= cursor < lines.push(x)[k].1;
        if k < lines.len() {
            assert(lines.push(x)[k] == lines[k]);
        }
    }
}

/// The window of laid-out lines shown: from the line above the cursor's
/// line (or the first line) up to `VISIBLE_LINES` lines, so the cursor
/// starts on the top line, then stays on the middle one as the text scrolls.
pub fn visible_window(lines: &[(usize, usize)], cursor: usize) -> (r: (usize, usize))
    ensures
        ({
            let cl = cursor_line(lines@, cursor as int);
            let first = if cl > 0 {
                cl - 1
            } else {
                0
            };
            &&& r.0 == first
            &&& r.1 == if first + VISIBLE_LINES < lines@.len() {
                first + VISIBLE_LINES
            } else {
                lines@.len() as int
            }
            &&& r.0 <= r.1 <= lines@.len()
        }),
{
    let n = lines.len();
    let mut k: usize = 0;
    let mut found: Option<usize> = None;
    while k < n
        invariant
            k <= n,
            n == lines@.len(),
            found is None <==> !holds(lines@.take(k as int), cursor as int),
            found matches Some(i) ==> i == cursor_line(lines@.take(k as int), cursor as int) && i < k,
        decreases n - k,
    {
        proof {
            assert(lines@.take(k + 1) =~= lines@.take(k as int).push(lines@[k as int]));
            lemma_cursor_line_push(lines@.take(k as int), lines@[k as int], cursor as int);
        }
        if found.is_none() && lines[k].0 <= cursor && cursor < lines[k].1 {
            found = Some(k);
        }
        k = k + 1;
    }
    proof {
        assert(lines@.take(n as int) =~= lines@);
        if found is None {
            lemma_cursor_line_none(lines@, cursor as int);
        }
    }
    let cl = match found {
        Some(i) => i,
        None => 0,
    };
    let first = if cl > 0 {
        cl - 1
    } else {
        0
    };
    let end = if (VISIBLE_LINES as usize) < n - first {
        first + VISIBLE_LINES as usize
    } else {
        n
    };
    (first, end)
}

proof fn lemma_cursor_line_none(lines: Seq<(usize, usize)>, cursor: int)
    requires
        !holds(lines, cursor),
    ensures
        cursor_line(lines, cursor) == 0,
    decreases lines.len(),
{
    if lines.len() > 0 {
        assert(lines.drop_last().len() == lines.len() - 1);
        if holds(lines.drop_last(), cursor) {
            let k = choose|k: int| 0 <= k < lines.drop_last().len() && #[trigger] lines.drop_last()[k].0 <= cursor < lines.drop_last()[k].1;
            assert(lines[k] == lines.drop_last()[k]);
        }
        assert(!(lines.last().0 <= cursor < lines.last().1) || holds(lines, cursor));
    }
}

/// The remaining time as `m:ss`.
pub open spec fn clock_text_of(secs: nat) -> Seq<char> {
    let m = secs / 60;
    let s = secs % 60;
    decimal(m) + seq![':'] + if s < 10 {
        seq!['0', digit(s)]
    } else {
        decimal(s)
    }
}

/// The remaining time as `m:ss`.
pub fn clock_text(secs: u64) -> (r: String)
    ensures
        r@ == clock_text_of(secs as nat),
{
    let m = secs / 60;
    let s = secs % 60;
    let mut out = decimal_string(m);
    string_push(&mut out, ':');
    if s < 10 {
        string_push(&mut out, '0');
    }
    let tail = decimal_string(s);
    out.append(tail.as_str());
    proof {
        if s < 10 {
            assert(decimal(s as nat) == seq![digit(s as nat)]);
            assert(out@ =~= clock_text_of(secs as nat));
        } else {
            assert(out@ =~= clock_text_of(secs as nat));
        }
    }
    out
}

} // verus!
