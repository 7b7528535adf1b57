//! Decimal rendering of unsigned numbers, for the numeric option fields and
//! the Content-Length header.

use vstd::prelude::*;

verus! {

/// The decimal digit character for `d`.
pub open spec fn digit_char(d: int) -> char {
    if d == 0 {
        '0'
    } else if d == 1 {
        '1'
    } else if d == 2 {
        '2'
    } else if d == 3 {
        '3'
    } else if d == 4 {
        '4'
    } else if d == 5 {
        '5'
    } else if d == 6 {
        '6'
    } else if d == 7 {
        '7'
    } else if d == 8 {
        '8'
    } else {
        '9'
    }
}

/// Decimal digit string of `n`, most significant digit first, without
/// leading zeros (zero itself is "0").
pub open spec fn dec_digits(n: nat) -> Seq<char>
    decreases n,
{
    if n < 10 {
        seq![digit_char(n as int)]
    } else {
        dec_digits(n / 10) + seq![digit_char((n % 10) as int)]
    }
}

/// The decimal digit character for `d`, as a one-character string slice.
fn digit_str(d: u8) -> (r: &'static str)
    requires
        d < 10,
    ensures
        r@ == seq![digit_char(d as int)],
{
    proof {
        reveal_strlit("0");
        reveal_strlit("1");
        reveal_strlit("2");
        reveal_strlit("3");
        reveal_strlit("4");
        reveal_strlit("5");
        reveal_strlit("6");
        reveal_strlit("7");
        reveal_strlit("8");
        reveal_strlit("9");
    }
    if d == 0 {
        "0"
    } else if d == 1 {
        "1"
    } else if d == 2 {
        "2"
    } else if d == 3 {
        "3"
    } else if d == 4 {
        "4"
    } else if d == 5 {
        "5"
    } else if d == 6 {
        "6"
    } else if d == 7 {
        "7"
    } else if d == 8 {
        "8"
    } else {
        "9"
    }
}

/// The digit characters of `v` read back to front.
spec fn rev_digit_chars(v: Seq<u8>) -> Seq<char> {
    Seq::new(v.len(), |k: int| digit_char(v[v.len() - 1 - k] as int))
}

/// Render `n` in decimal.
pub fn to_decimal(n: usize) -> (r: String)
    ensures
        r@ == dec_digits(n as nat),
{
    let mut v: Vec<u8> = Vec::new();
    let mut m = n;
    v.push((m % 10) as u8);
    m = m / 10;
    proof {
        if m == 0 {
            assert(rev_digit_chars(v@) =~= dec_digits(n as nat));
        } else {
            assert(dec_digits(m as nat) + rev_digit_chars(v@) =~= dec_digits(n as nat));
        }
    }
    while m > 0
        invariant
            v@.len() >= 1,
            forall|k: int| 0 <= k < v@.len() ==> v@[k] < 10,
            m > 0 ==> dec_digits(n as nat) == dec_digits(m as nat) + rev_digit_chars(v@),
            m == 0 ==> dec_digits(n as nat) == rev_digit_chars(v@),
        decreases m,
    {
        let ghost v0 = v@;
        let ghost m0 = m as nat;
        let d = (m % 10) as u8;
        v.push(d);
        m = m / 10;
        proof {
            assert(rev_digit_chars(v@) =~= seq![digit_char(d as int)] + rev_digit_chars(v0));
            if m == 0 {
                assert(dec_digits(m0) =~= seq![digit_char(d as int)]);
                assert(rev_digit_chars(v@) =~= dec_digits(m0) + rev_digit_chars(v0));
            } else {
                assert(dec_digits(m0) == dec_digits(m0 / 10) + seq![digit_char((m0 % 10) as int)]);
                assert(dec_digits(m as nat) + rev_digit_chars(v@) =~= dec_digits(m0)
                    + rev_digit_chars(v0));
            }
        }
    }
    let mut out = String::new();
    let mut i = v.len();
    while i > 0
        invariant
            i <= v@.len(),
            forall|k: int| 0 <= k < v@.len() ==> v@[k] < 10,
            out@ == rev_digit_chars(v@).take(v@.len() - i),
            dec_digits(n as nat) == rev_digit_chars(v@),
        decreases i,
    {
        i = i - 1;
        let d = v[i];
        out.append(digit_str(d));
        proof {
            assert(out@ =~= rev_digit_chars(v@).take(v@.len() - i));
        }
    }
    proof {
        assert(rev_digit_chars(v@).take(v@.len() as int) =~= rev_digit_chars(v@));
    }
    out
}

} // verus!
