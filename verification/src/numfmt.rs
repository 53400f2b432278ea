use vstd::prelude::*;

verus! {

/// The decimal digit character for a value in `0 ..= 9`.
pub open spec fn digit_char(d: int) -> char
    recommends
        0 <= d < 10,
{
    if d == 0 {
        '0'
    } else if d == 1 {
        '1'
    } else if d == 2 {
        '2'
    } else if d == 3 {
        '3'
    } else if d == 4 {
        '4'
    } else if d == 5 {
        '5'
    } else if d == 6 {
        '6'
    } else if d == 7 {
        '7'
    } else if d == 8 {
        '8'
    } else {
        '9'
    }
}

/// The decimal rendering of a non-negative integer, without a sign and
/// without leading zeros (`0` renders as `"0"`).
pub open spec fn dec_str(n: int) -> Seq<char>
    recommends
        0 <= n,
    decreases n,
{
    if n < 10 {
        seq![digit_char(n)]
    } else {
        dec_str(n / 10).push(digit_char(n % 10))
    }
}

/// The decimal rendering of a signed integer: a leading `-` for negatives.
pub open spec fn dec_str_signed(n: int) -> Seq<char> {
    if n < 0 {
        seq!['-'] + dec_str(-n)
    } else {
        dec_str(n)
    }
}

/// Zero-padded two-digit rendering used for minutes and hours of day.
pub open spec fn dec_str_pad2_zero(n: int) -> Seq<char>
    recommends
        0 <= n,
{
    if n < 10 {
        seq!['0'] + dec_str(n)
    } else {
        dec_str(n)
    }
}

/// Space-padded two-digit rendering used for days of month.
pub open spec fn dec_str_pad2_space(n: int) -> Seq<char>
    recommends
        0 <= n,
{
    if n < 10 {
        seq![' '] + dec_str(n)
    } else {
        dec_str(n)
    }
}

fn digit_str(d: u64) -> (r: &'static str)
    requires
        d < 10,
    ensures
        r@ =~= seq![digit_char(d as int)],
{
    proof {
        reveal_strlit("0");
        reveal_strlit("1");
        reveal_strlit("2");
        reveal_strlit("3");
        reveal_strlit("4");
        reveal_strlit("5");
        reveal_strlit("6");
        reveal_strlit("7");
        reveal_strlit("8");
        reveal_strlit("9");
    }
    match d {
        0 => "0",
        1 => "1",
        2 => "2",
        3 => "3",
        4 => "4",
        5 => "5",
        6 => "6",
        7 => "7",
        8 => "8",
        _ => "9",
    }
}

/// Appends the decimal rendering of `n` to `s`.
pub fn push_dec_u64(s: &mut String, n: u64)
    ensures
        final(s)@ == old(s)@ + dec_str(n as int),
    decreases n,
{
    if n >= 10 {
        push_dec_u64(s, n / 10);
    }
    s.append(digit_str(n % 10));
    proof {
        if n >= 10 {
            assert(dec_str(n as int) == dec_str(n as int / 10).push(
                digit_char(n as int % 10),
            ));
            assert(old(s)@ + dec_str(n as int / 10) + seq![digit_char(n as int % 10)] =~= old(
                s,
            )@ + dec_str(n as int));
        } else {
            assert(old(s)@ + seq![digit_char(n as int)] =~= old(s)@ + dec_str(n as int));
        }
    }
}

/// Appends the decimal rendering of a signed value to `s`.
pub fn push_dec_i64(s: &mut String, n: i64)
    requires
        n != i64::MIN,
    ensures
        final(s)@ == old(s)@ + dec_str_signed(n as int),
{
    if n < 0 {
        proof {
            reveal_strlit("-");
        }
        s.append("-");
        assert(s@ =~= old(s)@ + seq!['-']);
        push_dec_u64(s, (-n) as u64);
        assert(s@ =~= old(s)@ + dec_str_signed(n as int));
    } else {
        push_dec_u64(s, n as u64);
    }
}

/// Appends `n` zero-padded to at least two digits.
pub fn push_dec_pad2_zero(s: &mut String, n: u64)
    ensures
        final(s)@ == old(s)@ + dec_str_pad2_zero(n as int),
{
    if n < 10 {
        proof {
            reveal_strlit("0");
        }
        s.append("0");
        assert(s@ =~= old(s)@ + seq!['0']);
    }
    push_dec_u64(s, n);
    proof {
        if n < 10 {
            assert(s@ =~= old(s)@ + dec_str_pad2_zero(n as int));
        }
    }
}

/// Appends `n` space-padded to at least two digits.
pub fn push_dec_pad2_space(s: &mut String, n: u64)
    ensures
        final(s)@ == old(s)@ + dec_str_pad2_space(n as int),
{
    if n < 10 {
        proof {
            reveal_strlit(" ");
        }
        s.append(" ");
        assert(s@ =~= old(s)@ + seq![' ']);
    }
    push_dec_u64(s, n);
    proof {
        if n < 10 {
            assert(s@ =~= old(s)@ + dec_str_pad2_space(n as int));
        }
    }
}

} // verus!
