use vstd::prelude::*;

use crate::words::string_push;

verus! {

/// Horizontal inset applied to every screen's content, in columns.
pub const MARGIN: u16 = 2;

/// The char a dotted rule is drawn with.
pub const RULE_CHAR: char = '┄';

/// A dotted rule string of the given width.
pub fn rule_str(width: u16) -> (r: String)
    ensures
        r@ == Seq::new(width as nat, |_i: int| RULE_CHAR),
{
    let mut s = String::new();
    let mut i: u16 = 0;
    while i < width
        invariant
            i <= width,
            s@ == Seq::new(i as nat, |_i: int| RULE_CHAR),
        decreases width - i,
    {
        string_push(&mut s, RULE_CHAR);
        i = i + 1;
        proof {
            assert(s@ =~= Seq::new(i as nat, |_i: int| RULE_CHAR));
        }
    }
    s
}

/// The width left for content inside `width` columns after the margins.
pub fn content_width(width: u16) -> (r: u16)
    ensures
        r == if width >= 2 * MARGIN {
            width - 2 * MARGIN
        } else {
            0
        },
{
    if width >= 2 * MARGIN {
        width - 2 * MARGIN
    } else {
        0
    }
}

} // verus!
