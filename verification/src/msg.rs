//! Rejection diagnostics: the text of each validation failure.
//!
//! Verified code may not use the formatting macros, so the messages are
//! assembled from string literals, name fields and a decimal rendering
//! of counters, each step proved against the spec-level message below.

use vstd::prelude::*;
use vstd::string::StringExecFns;

use crate::person::PersonV;

verus! {

/// The decimal digit character for `d` (`d < 10`).
pub open spec fn digit_char(d: nat) -> char {
    if d == 0 { '0' }
    else if d == 1 { '1' }
    else if d == 2 { '2' }
    else if d == 3 { '3' }
    else if d == 4 { '4' }
    else if d == 5 { '5' }
    else if d == 6 { '6' }
    else if d == 7 { '7' }
    else if d == 8 { '8' }
    else { '9' }
}

/// The usual decimal rendering of `n`, most significant digit first,
/// without leading zeros (except for `n == 0` itself).
pub open spec fn dec_str(n: nat) -> Seq<char>
    decreases n,
{
    if n < 10 {
        seq![digit_char(n)]
    } else {
        dec_str(n / 10) + seq![digit_char(n % 10)]
    }
}

/// The diagnostic for a pairing whose giver and receiver are the same
/// participant.
pub open spec fn itself_msg(p: PersonV) -> Seq<char> {
    "Conflict: Itself with "@ + p.first + ", "@ + p.last
}

/// The diagnostic for a pairing whose giver and receiver share a family
/// name.
pub open spec fn family_msg(p1: PersonV, p2: PersonV) -> Seq<char> {
    "Conflict: Family "@ + p1.first + " "@ + p1.last + " with "@ + p2.first + " "@ + p2.last
}

/// The diagnostic for a pairing set whose giver-to-receiver walk closes
/// after `c` of `n` steps.
pub open spec fn circle_msg(c: nat, n: nat) -> Seq<char> {
    "Conflict: Should have one large circle, but has len "@ + dec_str(c) + "/"@ + dec_str(n)
}

/// The diagnostic for a duplicated ordered family-to-family pair.
pub open spec fn family_pair_msg() -> Seq<char> {
    "Conflict: family to family"@
}

/// Appends the digit character for `d` to `s`.
fn push_digit(s: &mut String, d: usize)
    requires
        d < 10,
    ensures
        final(s)@ == old(s)@ + seq![digit_char(d as nat)],
{
    proof {
        reveal_strlit("0");
        reveal_strlit("1");
        reveal_strlit("2");
        reveal_strlit("3");
        reveal_strlit("4");
        reveal_strlit("5");
        reveal_strlit("6");
        reveal_strlit("7");
        reveal_strlit("8");
        reveal_strlit("9");
    }
    if d == 0 {
        s.append("0");
    } else if d == 1 {
        s.append("1");
    } else if d == 2 {
        s.append("2");
    } else if d == 3 {
        s.append("3");
    } else if d == 4 {
        s.append("4");
    } else if d == 5 {
        s.append("5");
    } else if d == 6 {
        s.append("6");
    } else if d == 7 {
        s.append("7");
    } else if d == 8 {
        s.append("8");
    } else {
        s.append("9");
    }
    proof {
        assert(final(s)@ =~= old(s)@ + seq![digit_char(d as nat)]);
    }
}

/// Appends the decimal rendering of `n` to `s`.
pub fn append_dec(s: &mut String, n: usize)
    ensures
        final(s)@ == old(s)@ + dec_str(n as nat),
    decreases n,
{
    if n >= 10 {
        append_dec(s, n / 10);
    }
    push_digit(s, n % 10);
    proof {
        assert(final(s)@ =~= old(s)@ + dec_str(n as nat));
    }
}

} // verus!
