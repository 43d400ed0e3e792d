//! Fixed-point rendering: every emitted field is a decimal number with
//! exactly three digits after the point, the field value counted in
//! thousandths.

use vstd::prelude::*;

verus! {

/// The character for one decimal digit.
pub open spec fn digit_char(d: int) -> char {
    if d == 0 {
        '0'
    } else if d == 1 {
        '1'
    } else if d == 2 {
        '2'
    } else if d == 3 {
        '3'
    } else if d == 4 {
        '4'
    } else if d == 5 {
        '5'
    } else if d == 6 {
        '6'
    } else if d == 7 {
        '7'
    } else if d == 8 {
        '8'
    } else {
        '9'
    }
}

/// The decimal digits of a natural number, most significant first.
pub open spec fn dec_digits(n: nat) -> Seq<char>
    decreases n,
{
    if n < 10 {
        seq![digit_char(n as int)]
    } else {
        dec_digits(n / 10).push(digit_char((n % 10) as int))
    }
}

/// The rendering of a non-negative quantity of thousandths: the whole part
/// in decimal, a point, and exactly three fractional digits.
pub open spec fn fmt_fixed3_nn(m: nat) -> Seq<char> {
    dec_digits(m / 1000) + seq!['.'] + seq![
        digit_char(((m % 1000) / 100) as int),
        digit_char(((m % 1000) / 10 % 10) as int),
        digit_char((m % 10) as int),
    ]
}

/// The rendering of a signed quantity of thousandths: a minus sign when
/// negative, then the rendering of the magnitude.
pub open spec fn fmt_fixed3(m: int) -> Seq<char> {
    if m < 0 {
        seq!['-'] + fmt_fixed3_nn((-m) as nat)
    } else {
        fmt_fixed3_nn(m as nat)
    }
}

/// A decimal digit character.
pub open spec fn is_digit_char(c: char) -> bool {
    c == '0' || c == '1' || c == '2' || c == '3' || c == '4' || c == '5' || c == '6' || c == '7'
        || c == '8' || c == '9'
}

/// The shape of an unsigned field: one or more digits, a point, then
/// exactly three digits.
pub open spec fn fixed3_shape_nn(s: Seq<char>) -> bool {
    &&& s.len() >= 5
    &&& s[s.len() - 4] == '.'
    &&& forall|i: int| 0 <= i < s.len() - 4 ==> is_digit_char(#[trigger] s[i])
    &&& forall|i: int| s.len() - 3 <= i < s.len() ==> is_digit_char(#[trigger] s[i])
}

/// The shape of a signed field: an optional minus sign, then an unsigned
/// field.
pub open spec fn fixed3_shape(s: Seq<char>) -> bool {
    fixed3_shape_nn(s) || (s.len() > 0 && s[0] == '-' && fixed3_shape_nn(s.skip(1)))
}

proof fn lemma_dec_digits_shape(n: nat)
    ensures
        dec_digits(n).len() >= 1,
        forall|i: int| 0 <= i < dec_digits(n).len() ==> is_digit_char(#[trigger] dec_digits(n)[i]),
    decreases n,
{
    if n >= 10 {
        lemma_dec_digits_shape(n / 10);
    }
}

/// Output field format: every rendered field reads as an optional minus
/// sign, at least one digit, a point, and exactly three digits, and holds
/// no comma.
pub proof fn lemma_fmt_fixed3_shape(m: int)
    ensures
        fixed3_shape(fmt_fixed3(m)),
        forall|i: int| 0 <= i < fmt_fixed3(m).len() ==> (#[trigger] fmt_fixed3(m)[i]) != ',',
{
    if m < 0 {
        lemma_dec_digits_shape(((-m) as nat) / 1000);
        assert(fmt_fixed3(m).skip(1) =~= fmt_fixed3_nn((-m) as nat));
        assert(fixed3_shape_nn(fmt_fixed3(m).skip(1)));
    } else {
        lemma_dec_digits_shape((m as nat) / 1000);
        assert(fixed3_shape_nn(fmt_fixed3(m)));
    }
}

/// Appends one decimal digit character.
fn push_digit(s: &mut String, d: u64)
    requires
        d < 10,
    ensures
        final(s)@ == old(s)@ + seq![digit_char(d as int)],
{
    if d == 0 {
        s.append("0");
        proof {
            reveal_strlit("0");
            assert("0"@ =~= seq![digit_char(0)]);
        }
    } else if d == 1 {
        s.append("1");
        proof {
            reveal_strlit("1");
            assert("1"@ =~= seq![digit_char(1)]);
        }
    } else if d == 2 {
        s.append("2");
        proof {
            reveal_strlit("2");
            assert("2"@ =~= seq![digit_char(2)]);
        }
    } else if d == 3 {
        s.append("3");
        proof {
            reveal_strlit("3");
            assert("3"@ =~= seq![digit_char(3)]);
        }
    } else if d == 4 {
        s.append("4");
        proof {
            reveal_strlit("4");
            assert("4"@ =~= seq![digit_char(4)]);
        }
    } else if d == 5 {
        s.append("5");
        proof {
            reveal_strlit("5");
            assert("5"@ =~= seq![digit_char(5)]);
        }
    } else if d == 6 {
        s.append("6");
        proof {
            reveal_strlit("6");
            assert("6"@ =~= seq![digit_char(6)]);
        }
    } else if d == 7 {
        s.append("7");
        proof {
            reveal_strlit("7");
            assert("7"@ =~= seq![digit_char(7)]);
        }
    } else if d == 8 {
        s.append("8");
        proof {
            reveal_strlit("8");
            assert("8"@ =~= seq![digit_char(8)]);
        }
    } else {
        s.append("9");
        proof {
            reveal_strlit("9");
            assert("9"@ =~= seq![digit_char(9)]);
        }
    }
}

/// Appends the decimal digits of `n`, most significant first.
fn push_dec(s: &mut String, n: u64)
    ensures
        final(s)@ == old(s)@ + dec_digits(n as nat),
    decreases n,
{
    if n >= 10 {
        push_dec(s, n / 10);
    }
    push_digit(s, n % 10);
    proof {
        if n >= 10 {
            assert(final(s)@ =~= old(s)@ + dec_digits(n as nat));
        }
    }
}

/// Renders a signed quantity of thousandths with exactly three digits after
/// the decimal point.
pub fn format_fixed3(m: i64) -> (out: String)
    ensures
        out@ == fmt_fixed3(m as int),
{
    let mut s = String::new();
    let n: u64;
    if m < 0 {
        s.append("-");
        proof {
            reveal_strlit("-");
            assert("-"@ =~= seq!['-']);
        }
        n = (-(m as i128)) as u64;
    } else {
        n = m as u64;
    }
    push_dec(&mut s, n / 1000);
    s.append(".");
    proof {
        reveal_strlit(".");
        assert("."@ =~= seq!['.']);
    }
    let frac: u64 = n % 1000;
    push_digit(&mut s, frac / 100);
    push_digit(&mut s, frac / 10 % 10);
    push_digit(&mut s, n % 10);
    proof {
        assert(frac / 100 == (n as nat % 1000) / 100);
        assert(frac / 10 % 10 == (n as nat % 1000) / 10 % 10);
        assert(s@ =~= fmt_fixed3(m as int));
    }
    s
}

} // verus!
