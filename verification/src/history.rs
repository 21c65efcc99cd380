//! Saving a finished run to the history file: whether it is saved, the
//! records shown afterwards, and what the results screen says about it.

use vstd::prelude::*;

use crate::words::string_push;

verus! {

/// The decimal digit for `d` (below ten).
pub open spec fn digit(d: nat) -> char {
    (48 + d) as char
}

/// The decimal representation of `n`.
pub open spec fn decimal(n: nat) -> Seq<char>
    decreases n,
{
    if n < 10 {
        seq![digit(n)]
    } else {
        decimal(n / 10).push(digit(n % 10))
    }
}

/// `n` written in decimal.
pub fn decimal_string(n: u64) -> (s: String)
    ensures
        s@ == decimal(n as nat),
{
    let mut digits: Vec<char> = Vec::new();
    let mut m: u64 = n;
    loop
        invariant
            m <= n,
            decimal(n as nat) == decimal(m as nat) + digits@.reverse(),
        ensures
            m < 10,
            decimal(n as nat) == decimal(m as nat) + digits@.reverse(),
        decreases m,
    {
        if m < 10 {
            break;
        }
        let d = m % 10;
        let c = (48u8 + (d as u8)) as char;
        proof {
            assert(c == digit(d as nat));
            assert(decimal(m as nat) == decimal((m / 10) as nat).push(digit((m % 10) as nat)));
        }
        let ghost dg0 = digits@;
        digits.push(c);
        proof {
            assert(digits@.reverse() =~= seq![c] + dg0.reverse());
            assert(decimal(n as nat) =~= decimal((m / 10) as nat) + digits@.reverse());
        }
        m = m / 10;
    }
    let mut s = String::new();
    let c0 = (48u8 + (m as u8)) as char;
    string_push(&mut s, c0);
    proof {
        assert(s@ == decimal(m as nat));
    }
    let mut k: usize = digits.len();
    while k > 0
        invariant
            k <= digits@.len(),
            decimal(n as nat) == decimal(m as nat) + digits@.reverse(),
            s@ == decimal(m as nat) + digits@.subrange(k as int, digits@.len() as int).reverse(),
        decreases k,
    {
        k = k - 1;
        string_push(&mut s, digits[k]);
        proof {
            assert(digits@.subrange(k as int, digits@.len() as int).reverse() =~= digits@.subrange(
                k + 1,
                digits@.len() as int,
            ).reverse().push(digits@[k as int]));
        }
    }
    proof {
        assert(digits@.subrange(0, digits@.len() as int) =~= digits@);
    }
    s
}

pub open spec fn not_saved_prefix() -> Seq<char> {
    "result not saved: "@
}

pub open spec fn no_home_text() -> Seq<char> {
    "result not saved: could not locate home directory"@
}

pub open spec fn corrupt_suffix() -> Seq<char> {
    " corrupt history line(s) ignored"@
}

pub open spec fn separator() -> Seq<char> {
    " · "@
}

/// The warning shown on the results screen about the history file.
///
/// Without a home directory nothing can be saved: a run that should have
/// been saved (not cancelled) says so; a cancelled run says nothing. With
/// one, the warning lists a failed save (`save_error`, the error's text) and
/// then the number of skipped corrupt lines, joined by " · "; nothing to say
/// gives no warning.
pub open spec fn warning_of(
    home_known: bool,
    cancelled: bool,
    skipped: nat,
    save_error: Option<Seq<char>>,
) -> Option<Seq<char>> {
    if !home_known {
        if cancelled {
            None
        } else {
            Some(no_home_text())
        }
    } else {
        let corrupt = decimal(skipped) + corrupt_suffix();
        match save_error {
            Some(e) => if skipped > 0 {
                Some(not_saved_prefix() + e + separator() + corrupt)
            } else {
                Some(not_saved_prefix() + e)
            },
            None => if skipped > 0 {
                Some(corrupt)
            } else {
                None
            },
        }
    }
}

/// Whether a finished run is appended to the history: only when a history
/// directory is known and the run was not cancelled (a cancelled run is
/// never saved).
pub fn should_record(home_known: bool, cancelled: bool) -> (r: bool)
    ensures
        r == (home_known && !cancelled),
{
    home_known && !cancelled
}

/// The records shown after the save step: the loaded ones, followed by the
/// new record when it was saved.
pub fn records_after<R>(loaded: Vec<R>, record: R, saved: bool) -> (r: Vec<R>)
    ensures
        r@ == (if saved {
            loaded@.push(record)
        } else {
            loaded@
        }),
{
    let mut r = loaded;
    if saved {
        r.push(record);
    }
    r
}

/// The warning shown on the results screen about the history file; see
/// `warning_of`.
pub fn history_warning(
    home_known: bool,
    cancelled: bool,
    skipped: usize,
    save_error: Option<&str>,
) -> (r: Option<String>)
    ensures
        r matches Some(s) ==> warning_of(
            home_known,
            cancelled,
            skipped as nat,
            match save_error {
                Some(e) => Some(e@),
                None => None,
            },
        ) == Some(s@),
        r is None ==> warning_of(
            home_known,
            cancelled,
            skipped as nat,
            match save_error {
                Some(e) => Some(e@),
                None => None,
            },
        ) is None,
{
    if !home_known {
        if cancelled {
            return None;
        }
        return Some(String::from_str("result not saved: could not locate home directory"));
    }
    let mut msg: Option<String> = None;
    match save_error {
        Some(e) => {
            let mut s = String::from_str("result not saved: ");
            s.append(e);
            msg = Some(s);
        },
        None => {},
    }
    if skipped > 0 {
        let mut corrupt = decimal_string(skipped as u64);
        corrupt.append(" corrupt history line(s) ignored");
        msg = match msg {
            Some(mut s) => {
                s.append(" · ");
                s.append(corrupt.as_str());
                Some(s)
            },
            None => Some(corrupt),
        };
    }
    msg
}

} // verus!
