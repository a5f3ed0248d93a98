//! Decimal rendering of small integers, for human-readable error notices.

use vstd::prelude::*;

verus! {

/// The character for one decimal digit.
pub open spec fn digit_char(d: int) -> char {
    if d == 0 { '0' }
    else if d == 1 { '1' }
    else if d == 2 { '2' }
    else if d == 3 { '3' }
    else if d == 4 { '4' }
    else if d == 5 { '5' }
    else if d == 6 { '6' }
    else if d == 7 { '7' }
    else if d == 8 { '8' }
    else if d == 9 { '9' }
    else { ' ' }
}

/// The decimal representation of a non-negative integer, most significant
/// digit first and without leading zeros (`0` renders as "0").
pub open spec fn dec_rep(n: int) -> Seq<char>
    decreases n,
{
    if n < 0 {
        Seq::empty()
    } else if n < 10 {
        seq![digit_char(n)]
    } else {
        dec_rep(n / 10).push(digit_char(n % 10))
    }
}

fn append_digit(s: &mut String, d: u8)
    requires
        d < 10,
    ensures
        final(s)@ == old(s)@ + seq![digit_char(d as int)],
{
    proof {
        reveal_strlit("0");
        reveal_strlit("1");
        reveal_strlit("2");
        reveal_strlit("3");
        reveal_strlit("4");
        reveal_strlit("5");
        reveal_strlit("6");
        reveal_strlit("7");
        reveal_strlit("8");
        reveal_strlit("9");
    }
    if d == 0 {
        s.append("0");
        proof { assert(("0")@ =~= seq![digit_char(d as int)]); }
    } else if d == 1 {
        s.append("1");
        proof { assert(("1")@ =~= seq![digit_char(d as int)]); }
    } else if d == 2 {
        s.append("2");
        proof { assert(("2")@ =~= seq![digit_char(d as int)]); }
    } else if d == 3 {
        s.append("3");
        proof { assert(("3")@ =~= seq![digit_char(d as int)]); }
    } else if d == 4 {
        s.append("4");
        proof { assert(("4")@ =~= seq![digit_char(d as int)]); }
    } else if d == 5 {
        s.append("5");
        proof { assert(("5")@ =~= seq![digit_char(d as int)]); }
    } else if d == 6 {
        s.append("6");
        proof { assert(("6")@ =~= seq![digit_char(d as int)]); }
    } else if d == 7 {
        s.append("7");
        proof { assert(("7")@ =~= seq![digit_char(d as int)]); }
    } else if d == 8 {
        s.append("8");
        proof { assert(("8")@ =~= seq![digit_char(d as int)]); }
    } else {
        s.append("9");
        proof { assert(("9")@ =~= seq![digit_char(d as int)]); }
    }
}

/// Appends the decimal representation of `v` to `s`.
pub fn append_u8_decimal(s: &mut String, v: u8)
    ensures
        final(s)@ == old(s)@ + dec_rep(v as int),
{
    proof {
        assert(v / 100 < 10);
        assert((v / 10) % 10 < 10);
        assert(v % 10 < 10);
    }
    if v >= 100 {
        proof {
            assert(v as int / 10 / 10 == v as int / 100) by (nonlinear_arith);
            assert(v as int / 10 >= 10 && v as int / 100 < 10 && v as int / 100 > 0) by (nonlinear_arith)
                requires v >= 100 && v < 256;
            assert(dec_rep(v as int) == seq![
                digit_char(v as int / 100),
                digit_char((v as int / 10) % 10),
                digit_char(v as int % 10),
            ]) by {
                assert(dec_rep(v as int / 100) == seq![digit_char(v as int / 100)]);
                assert(dec_rep(v as int / 10) == dec_rep(v as int / 10 / 10).push(
                    digit_char((v as int / 10) % 10)));
                assert(dec_rep(v as int) =~= seq![
                    digit_char(v as int / 100),
                    digit_char((v as int / 10) % 10),
                    digit_char(v as int % 10),
                ]);
            }
        }
        append_digit(s, v / 100);
        append_digit(s, (v / 10) % 10);
        append_digit(s, v % 10);
        proof {
            assert(s@ =~= old(s)@ + dec_rep(v as int));
        }
    } else if v >= 10 {
        proof {
            assert(v as int / 10 < 10) by (nonlinear_arith)
                requires v < 100;
            assert(dec_rep(v as int / 10) == seq![digit_char(v as int / 10)]);
            assert(dec_rep(v as int) =~= seq![digit_char(v as int / 10), digit_char(v as int % 10)]);
        }
        append_digit(s, v / 10);
        append_digit(s, v % 10);
        proof {
            assert(s@ =~= old(s)@ + dec_rep(v as int));
        }
    } else {
        append_digit(s, v);
        proof {
            assert(s@ =~= old(s)@ + dec_rep(v as int));
        }
    }
}

} // verus!
