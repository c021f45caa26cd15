//! Decimal rendering of the integers that appear in the descriptor:
//! plain integers for the start-time fields and second-based decimal
//! notation for durations held in milliseconds.
use vstd::prelude::*;
use vstd::string::StringExecFns;

verus! {

/// The decimal digit character for `d`, which must lie in `0..=9`.
pub open spec fn digit_char(d: int) -> char {
    if d == 0 {
        '0'
    } else if d == 1 {
        '1'
    } else if d == 2 {
        '2'
    } else if d == 3 {
        '3'
    } else if d == 4 {
        '4'
    } else if d == 5 {
        '5'
    } else if d == 6 {
        '6'
    } else if d == 7 {
        '7'
    } else if d == 8 {
        '8'
    } else {
        '9'
    }
}

/// The decimal digits of `n`, most significant first, no leading zeros
/// except for `n == 0` itself.
pub open spec fn dec_digits(n: nat) -> Seq<char>
    decreases n,
{
    if n < 10 {
        seq![digit_char(n as int)]
    } else {
        dec_digits(n / 10) + seq![digit_char((n % 10) as int)]
    }
}

/// The decimal form of a signed integer: a minus sign followed by the
/// digits of the magnitude when negative.
pub open spec fn int_digits(v: int) -> Seq<char> {
    if v < 0 {
        seq!['-'] + dec_digits((-v) as nat)
    } else {
        dec_digits(v as nat)
    }
}

/// The fractional digits rendered after the decimal point for a
/// millisecond remainder `f` in `1..=999`: three digits with trailing
/// zeros trimmed.
pub open spec fn frac_digits(f: int) -> Seq<char> {
    if f % 10 != 0 {
        seq![digit_char(f / 100), digit_char((f / 10) % 10), digit_char(f % 10)]
    } else if (f / 10) % 10 != 0 {
        seq![digit_char(f / 100), digit_char((f / 10) % 10)]
    } else {
        seq![digit_char(f / 100)]
    }
}

/// A duration of `ms` milliseconds rendered as decimal seconds: the
/// whole seconds, then a point and the trimmed millisecond digits when
/// the duration is not a whole number of seconds.
pub open spec fn duration_digits(ms: int) -> Seq<char> {
    let a = if ms < 0 {
        -ms
    } else {
        ms
    };
    let sign: Seq<char> = if ms < 0 {
        seq!['-']
    } else {
        Seq::empty()
    };
    if a % 1000 == 0 {
        sign + dec_digits((a / 1000) as nat)
    } else {
        sign + dec_digits((a / 1000) as nat) + seq!['.'] + frac_digits(a % 1000)
    }
}

fn digit_str(d: u64) -> (s: &'static str)
    requires
        d < 10,
    ensures
        s@ == seq![digit_char(d as int)],
{
    let s: &'static str = if d == 0 {
        "0"
    } else if d == 1 {
        "1"
    } else if d == 2 {
        "2"
    } else if d == 3 {
        "3"
    } else if d == 4 {
        "4"
    } else if d == 5 {
        "5"
    } else if d == 6 {
        "6"
    } else if d == 7 {
        "7"
    } else if d == 8 {
        "8"
    } else {
        "9"
    };
    proof {
        reveal_strlit("0");
        reveal_strlit("1");
        reveal_strlit("2");
        reveal_strlit("3");
        reveal_strlit("4");
        reveal_strlit("5");
        reveal_strlit("6");
        reveal_strlit("7");
        reveal_strlit("8");
        reveal_strlit("9");
        assert(s@ =~= seq![digit_char(d as int)]);
    }
    s
}

/// The decimal digits of an unsigned integer.
pub fn u64_string(n: u64) -> (s: String)
    ensures
        s@ == dec_digits(n as nat),
    decreases n,
{
    if n < 10 {
        String::from_str(digit_str(n))
    } else {
        let mut s = u64_string(n / 10);
        s.append(digit_str(n % 10));
        s
    }
}

/// The magnitude of a signed integer, also at `i64::MIN`.
fn abs_u64(v: i64) -> (a: u64)
    ensures
        a == if v < 0 {
            -(v as int)
        } else {
            v as int
        },
{
    if v >= 0 {
        v as u64
    } else {
        ((-(v + 1)) as u64) + 1
    }
}

/// The decimal form of a signed integer.
pub fn i64_string(v: i64) -> (s: String)
    ensures
        s@ == int_digits(v as int),
{
    let a = abs_u64(v);
    if v < 0 {
        let mut s = String::from_str("-");
        let digits = u64_string(a);
        s.append(digits.as_str());
        proof {
            reveal_strlit("-");
            assert(s@ =~= int_digits(v as int));
        }
        s
    } else {
        u64_string(a)
    }
}

/// A duration in milliseconds rendered as decimal seconds.
pub fn duration_string(ms: i64) -> (s: String)
    ensures
        s@ == duration_digits(ms as int),
{
    let a = abs_u64(ms);
    let mut s = if ms < 0 {
        let r = String::from_str("-");
        proof {
            reveal_strlit("-");
            assert(r@ =~= seq!['-']);
        }
        r
    } else {
        String::new()
    };
    let whole = u64_string(a / 1000);
    s.append(whole.as_str());
    let f = a % 1000;
    if f != 0 {
        s.append(".");
        let d2 = f / 100;
        let d1 = (f / 10) % 10;
        let d0 = f % 10;
        s.append(digit_str(d2));
        if d0 != 0 {
            s.append(digit_str(d1));
            s.append(digit_str(d0));
        } else if d1 != 0 {
            s.append(digit_str(d1));
        }
        proof {
            reveal_strlit(".");
            assert(f / 100 == (f as int) / 100 && (f / 10) % 10 == ((f as int) / 10) % 10 && f % 10
                == (f as int) % 10);
            assert(s@ =~= duration_digits(ms as int));
        }
    } else {
        proof {
            assert(s@ =~= duration_digits(ms as int));
        }
    }
    s
}

} // verus!
