//! Canonical textual rendering of the plain value kinds that a field can
//! carry: decimal form for integers, `true`/`false` for booleans.

use vstd::prelude::*;

verus! {

/// The decimal digit character for a single digit value.
pub open spec fn spec_digit_char(d: nat) -> char {
    if d == 0 {
        '0'
    } else if d == 1 {
        '1'
    } else if d == 2 {
        '2'
    } else if d == 3 {
        '3'
    } else if d == 4 {
        '4'
    } else if d == 5 {
        '5'
    } else if d == 6 {
        '6'
    } else if d == 7 {
        '7'
    } else if d == 8 {
        '8'
    } else {
        '9'
    }
}

/// The canonical decimal rendering of a natural number: no sign, no
/// leading zeros (a single `'0'` for zero).
pub open spec fn spec_u64_dec(n: nat) -> Seq<char>
    decreases n,
{
    if n < 10 {
        seq![spec_digit_char(n)]
    } else {
        spec_u64_dec(n / 10).push(spec_digit_char(n % 10))
    }
}

/// The canonical decimal rendering of a signed number: a leading `'-'`
/// before the magnitude when negative.
pub open spec fn spec_i64_dec(n: int) -> Seq<char> {
    if n < 0 {
        seq!['-'] + spec_u64_dec((-n) as nat)
    } else {
        spec_u64_dec(n as nat)
    }
}

/// The canonical rendering of a boolean.
pub open spec fn spec_bool_text(b: bool) -> Seq<char> {
    if b {
        seq!['t', 'r', 'u', 'e']
    } else {
        seq!['f', 'a', 'l', 's', 'e']
    }
}

/// The one-character string for a single decimal digit.
fn digit_str(d: u64) -> (r: &'static str)
    requires
        d < 10,
    ensures
        r@ =~= seq![spec_digit_char(d as nat)],
{
    proof {
        reveal_strlit("0");
        reveal_strlit("1");
        reveal_strlit("2");
        reveal_strlit("3");
        reveal_strlit("4");
        reveal_strlit("5");
        reveal_strlit("6");
        reveal_strlit("7");
        reveal_strlit("8");
        reveal_strlit("9");
    }
    if d == 0 {
        "0"
    } else if d == 1 {
        "1"
    } else if d == 2 {
        "2"
    } else if d == 3 {
        "3"
    } else if d == 4 {
        "4"
    } else if d == 5 {
        "5"
    } else if d == 6 {
        "6"
    } else if d == 7 {
        "7"
    } else if d == 8 {
        "8"
    } else {
        "9"
    }
}

/// The decimal characters of the digits `ds`, least significant first in
/// `ds`, read out from the most significant end.
spec fn spec_digits_rev(ds: Seq<u64>) -> Seq<char>
    decreases ds.len(),
{
    if ds.len() == 0 {
        Seq::empty()
    } else {
        seq![spec_digit_char(ds.last() as nat)] + spec_digits_rev(ds.drop_last())
    }
}

/// Renders an unsigned 64-bit value in its canonical decimal form.
pub fn render_u64(n: u64) -> (s: String)
    ensures
        s@ == spec_u64_dec(n as nat),
{
    let mut digits: Vec<u64> = Vec::new();
    let mut m: u64 = n;
    while m >= 10
        invariant
            spec_u64_dec(n as nat) =~= spec_u64_dec(m as nat) + spec_digits_rev(digits@),
            forall|k: int| 0 <= k < digits@.len() ==> digits@[k] < 10,
        decreases m,
    {
        let d: u64 = m % 10;
        proof {
            assert(digits@.push(d).drop_last() =~= digits@);
            assert(spec_digits_rev(digits@.push(d)) =~= seq![spec_digit_char(d as nat)]
                + spec_digits_rev(digits@));
            assert(spec_u64_dec((m / 10) as nat) + spec_digits_rev(digits@.push(d))
                =~= spec_u64_dec((m / 10) as nat).push(spec_digit_char(d as nat))
                + spec_digits_rev(digits@));
            assert(spec_u64_dec(m as nat) == spec_u64_dec((m / 10) as nat).push(
                spec_digit_char((m % 10) as nat),
            ));
        }
        digits.push(d);
        m = m / 10;
    }
    proof {
        assert(digits@.push(m).drop_last() =~= digits@);
        assert(spec_digits_rev(digits@.push(m)) =~= seq![spec_digit_char(m as nat)]
            + spec_digits_rev(digits@));
        assert(spec_u64_dec(m as nat) =~= seq![spec_digit_char(m as nat)]);
        assert(spec_u64_dec(n as nat) =~= spec_digits_rev(digits@.push(m)));
    }
    digits.push(m);
    let mut s = String::new();
    let mut i: usize = digits.len();
    proof {
        assert(digits@.take(i as int) =~= digits@);
        assert(s@ + spec_digits_rev(digits@) =~= spec_digits_rev(digits@));
    }
    while i > 0
        invariant
            i <= digits@.len(),
            forall|k: int| 0 <= k < digits@.len() ==> digits@[k] < 10,
            spec_u64_dec(n as nat) =~= spec_digits_rev(digits@),
            s@ + spec_digits_rev(digits@.take(i as int)) =~= spec_u64_dec(n as nat),
        decreases i,
    {
        i = i - 1;
        proof {
            assert(digits@.take(i + 1).last() == digits@[i as int]);
            assert(digits@.take(i + 1).drop_last() =~= digits@.take(i as int));
        }
        s.append(digit_str(digits[i]));
    }
    proof {
        assert(digits@.take(0) =~= Seq::<u64>::empty());
        assert(s@ + spec_digits_rev(digits@.take(0)) =~= s@);
    }
    s
}

/// Renders a signed 64-bit value in its canonical decimal form.
pub fn render_i64(n: i64) -> (s: String)
    ensures
        s@ == spec_i64_dec(n as int),
{
    if n >= 0 {
        render_u64(n as u64)
    } else {
        let wide: i128 = n as i128;
        assert(0 <= -wide < 0x10000000000000000i128);
        let mag: u64 = (-wide) as u64;
        let mut s = String::from_str("-");
        proof {
            reveal_strlit("-");
            assert(s@ =~= seq!['-']);
        }
        let digits = render_u64(mag);
        s.append(digits.as_str());
        s
    }
}

/// Renders a boolean as `true` or `false`.
pub fn render_bool(b: bool) -> (s: String)
    ensures
        s@ == spec_bool_text(b),
{
    if b {
        let s = String::from_str("true");
        proof {
            reveal_strlit("true");
            assert(s@ =~= seq!['t', 'r', 'u', 'e']);
        }
        s
    } else {
        let s = String::from_str("false");
        proof {
            reveal_strlit("false");
            assert(s@ =~= seq!['f', 'a', 'l', 's', 'e']);
        }
        s
    }
}

} // verus!
