//! Layout of the interactive help: one command per line, descriptions in a column.
use vstd::prelude::*;
use crate::text::{owned, push_str};

verus! {

/// `n` spaces.
pub open spec fn spaces(n: nat) -> Seq<char> {
    Seq::new(n, |i: int| ' ')
}

/// The padding after a command shown `visible` columns wide: up to column 20, and at
/// least one space.
pub open spec fn help_padding(visible: nat) -> nat {
    if visible < 20 {
        (20 - visible) as nat
    } else {
        1
    }
}

/// A help line: two spaces, the command as shown (it may hold styling codes, which
/// take no columns; `visible` is its width on screen), padding, the description.
pub fn help_row(shown: &str, visible: usize, desc: &str) -> (r: String)
    ensures
        r@ == "  "@ + shown@ + spaces(help_padding(visible as nat)) + desc@,
{
    proof {
        reveal_strlit("  ");
    }
    let mut r = owned("  ");
    push_str(&mut r, shown);
    let pad: usize = if visible < 20 {
        20 - visible
    } else {
        1
    };
    let ghost before = r@;
    let mut i: usize = 0;
    while i < pad
        invariant
            i <= pad,
            r@ == before + spaces(i as nat),
        decreases pad - i,
    {
        r.push(' ');
        assert(spaces((i + 1) as nat) =~= spaces(i as nat).push(' '));
        i = i + 1;
    }
    push_str(&mut r, desc);
    r
}

} // verus!
