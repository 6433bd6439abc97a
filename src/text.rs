//! Decimal rendering of integers and fixed-point values.
use vstd::prelude::*;

verus! {

/// Number of fractional units in one whole (micro-units).
pub const MICRO: u64 = 1_000_000;

/// Number of fractional units in one whole (nano-units).
pub const NANO: u64 = 1_000_000_000;

/// The character of a decimal digit.
pub open spec fn digit_char(d: int) -> char {
    if d == 0 {
        '0'
    } else if d == 1 {
        '1'
    } else if d == 2 {
        '2'
    } else if d == 3 {
        '3'
    } else if d == 4 {
        '4'
    } else if d == 5 {
        '5'
    } else if d == 6 {
        '6'
    } else if d == 7 {
        '7'
    } else if d == 8 {
        '8'
    } else {
        '9'
    }
}

/// Decimal digits of `n`, most significant first, without leading zeros.
pub open spec fn digits(n: nat) -> Seq<char>
    decreases n,
{
    if n < 10 {
        seq![digit_char(n as int)]
    } else {
        digits(n / 10) + seq![digit_char((n % 10) as int)]
    }
}

/// The last `width` decimal digits of `n`, padded with zeros on the left.
pub open spec fn padded_digits(n: nat, width: nat) -> Seq<char>
    decreases width,
{
    if width == 0 {
        Seq::empty()
    } else {
        padded_digits(n / 10, (width - 1) as nat) + seq![digit_char((n % 10) as int)]
    }
}

/// Decimal text of a signed integer.
pub open spec fn int_text(v: int) -> Seq<char> {
    if v < 0 {
        seq!['-'] + digits((-v) as nat)
    } else {
        digits(v as nat)
    }
}

/// Decimal text of `v` millionths: sign, whole part, a point and six digits.
pub open spec fn micros_text(v: int) -> Seq<char> {
    let m = if v < 0 { -v } else { v };
    let sign = if v < 0 { seq!['-'] } else { Seq::empty() };
    sign + digits((m / MICRO as int) as nat) + seq!['.'] + padded_digits(
        (m % MICRO as int) as nat,
        6,
    )
}

fn digit_str(d: u128) -> (r: &'static str)
    requires
        d < 10,
    ensures
        r@ == seq![digit_char(d as int)],
{
    proof {
        reveal_strlit("0");
        reveal_strlit("1");
        reveal_strlit("2");
        reveal_strlit("3");
        reveal_strlit("4");
        reveal_strlit("5");
        reveal_strlit("6");
        reveal_strlit("7");
        reveal_strlit("8");
        reveal_strlit("9");
    }
    if d == 0 {
        "0"
    } else if d == 1 {
        "1"
    } else if d == 2 {
        "2"
    } else if d == 3 {
        "3"
    } else if d == 4 {
        "4"
    } else if d == 5 {
        "5"
    } else if d == 6 {
        "6"
    } else if d == 7 {
        "7"
    } else if d == 8 {
        "8"
    } else {
        "9"
    }
}

/// Decimal text of an unsigned integer.
pub fn nat_text(n: u128) -> (r: String)
    ensures
        r@ == digits(n as nat),
    decreases n,
{
    if n < 10 {
        String::from_str(digit_str(n))
    } else {
        let mut r = nat_text(n / 10);
        r.append(digit_str(n % 10));
        r
    }
}

fn padded_text(n: u128, width: u64) -> (r: String)
    ensures
        r@ == padded_digits(n as nat, width as nat),
    decreases width,
{
    if width == 0 {
        String::new()
    } else {
        let mut r = padded_text(n / 10, width - 1);
        r.append(digit_str(n % 10));
        r
    }
}

/// Decimal text of a signed integer.
pub fn signed_text(v: i64) -> (r: String)
    ensures
        r@ == int_text(v as int),
{
    if v < 0 {
        let m: u64 = (-(v as i128)) as u64;
        proof {
            reveal_strlit("-");
        }
        String::from_str("-").concat(nat_text(m as u128).as_str())
    } else {
        nat_text(v as u128)
    }
}

fn magnitude_text(m: u64) -> (r: String)
    ensures
        r@ == digits((m / MICRO) as nat) + seq!['.'] + padded_digits((m % MICRO) as nat, 6),
{
    proof {
        reveal_strlit(".");
    }
    let mut r = nat_text((m / MICRO) as u128);
    r.append(".");
    r.append(padded_text((m % MICRO) as u128, 6).as_str());
    r
}

/// Decimal text of `v` millionths, with exactly six fractional digits.
pub fn micros_to_text(v: i64) -> (r: String)
    ensures
        r@ == micros_text(v as int),
{
    proof {
        reveal_strlit("-");
    }
    if v < 0 {
        let m: u64 = (-(v as i128)) as u64;
        let t = magnitude_text(m);
        assert(seq!['-'] + (digits((m / MICRO) as nat) + seq!['.'] + padded_digits(
            (m % MICRO) as nat,
            6,
        )) == micros_text(v as int));
        String::from_str("-").concat(t.as_str())
    } else {
        let r = magnitude_text(v as u64);
        assert(Seq::<char>::empty() + r@ == r@);
        r
    }
}

/// Decimal text of `v` billionths (not negative): whole part, a point and
/// nine digits.
pub open spec fn rate_text(v: nat) -> Seq<char> {
    digits(v / NANO as nat) + seq!['.'] + padded_digits(v % NANO as nat, 9)
}

/// Decimal text of `v` billionths, with exactly nine fractional digits.
pub fn rate_to_text(v: u64) -> (r: String)
    ensures
        r@ == rate_text(v as nat),
{
    proof {
        reveal_strlit(".");
    }
    let mut r = nat_text((v / NANO) as u128);
    r.append(".");
    r.append(padded_text((v % NANO) as u128, 9).as_str());
    r
}

/// Decimal text of `v` thousandths, with exactly three fractional digits.
pub open spec fn millis_text(v: nat) -> Seq<char> {
    digits(v / 1000) + seq!['.'] + padded_digits(v % 1000, 3)
}

/// Decimal text of `v` thousandths, with exactly three fractional digits.
pub fn millis_to_text(v: u32) -> (r: String)
    ensures
        r@ == millis_text(v as nat),
{
    proof {
        reveal_strlit(".");
    }
    let mut r = nat_text((v / 1000) as u128);
    r.append(".");
    r.append(padded_text((v % 1000) as u128, 3).as_str());
    r
}

/// Decimal text of a time given in microseconds, in seconds rounded to the
/// nearest tenth (halves up), followed by `s`.
pub open spec fn tenths_text(micros: nat) -> Seq<char> {
    let tenths = (micros + 50_000) / 100_000;
    digits(tenths / 10) + seq!['.'] + padded_digits(tenths % 10, 1) + seq!['s']
}

/// Decimal text of a time given in microseconds, in seconds rounded to the
/// nearest tenth (halves up), followed by `s`.
pub fn tenths_to_text(micros: u128) -> (r: String)
    ensures
        r@ == tenths_text(micros as nat),
{
    proof {
        reveal_strlit(".");
        reveal_strlit("s");
    }
    let up: u128 = if micros % 100_000 >= 50_000 {
        1
    } else {
        0
    };
    let tenths = micros / 100_000 + up;
    proof {
        let m = micros as int;
        let q = m / 100_000;
        let rem = m % 100_000;
        vstd::arithmetic::div_mod::lemma_fundamental_div_mod(m, 100_000);
        if rem >= 50_000 {
            vstd::arithmetic::div_mod::lemma_fundamental_div_mod_converse(m + 50_000, 100_000, q + 1, rem - 50_000);
        } else {
            vstd::arithmetic::div_mod::lemma_fundamental_div_mod_converse(m + 50_000, 100_000, q, rem + 50_000);
        }
    }
    let mut r = nat_text(tenths / 10);
    r.append(".");
    r.append(padded_text(tenths % 10, 1).as_str());
    r.append("s");
    r
}

} // verus!

verus! {

/// The digits of a number are decimal digit characters.
pub proof fn lemma_digits_chars(n: nat)
    ensures
        digits(n).len() >= 1,
        n >= 10 ==> digits(n).len() >= 2,
        forall|i: int| 0 <= i < digits(n).len() ==> '0' <= #[trigger] digits(n)[i] <= '9',
    decreases n,
{
    if n >= 10 {
        lemma_digits_chars(n / 10);
        let d = digits(n / 10);
        assert forall|i: int| 0 <= i < digits(n).len() implies '0' <= #[trigger] digits(n)[i] <= '9' by {
            if i < d.len() {
                assert(digits(n)[i] == d[i]);
            }
        }
    }
}

/// Different numbers have different digits.
pub proof fn lemma_digits_injective(n: nat, m: nat)
    requires
        digits(n) == digits(m),
    ensures
        n == m,
    decreases n,
{
    lemma_digits_chars(n);
    lemma_digits_chars(m);
    if n < 10 && m < 10 {
        assert(digits(n)[0] == digits(m)[0]);
    } else if n >= 10 && m >= 10 {
        let a = digits(n);
        assert(a.drop_last() =~= digits(n / 10));
        assert(digits(m).drop_last() =~= digits(m / 10));
        assert(a.last() == digit_char((n % 10) as int));
        assert(digits(m).last() == digit_char((m % 10) as int));
        lemma_digits_injective(n / 10, m / 10);
    } else {
        assert(digits(n).len() != digits(m).len());
    }
}

/// Different integers have different decimal texts.
pub proof fn lemma_int_text_injective(a: int, b: int)
    requires
        int_text(a) == int_text(b),
    ensures
        a == b,
{
    if a < 0 && b < 0 {
        assert(int_text(a).drop_first() =~= digits((-a) as nat));
        assert(int_text(b).drop_first() =~= digits((-b) as nat));
        lemma_digits_injective((-a) as nat, (-b) as nat);
    } else if a >= 0 && b >= 0 {
        lemma_digits_injective(a as nat, b as nat);
    } else if a < 0 {
        lemma_digits_chars(b as nat);
        assert(int_text(a)[0] == '-');
        assert(int_text(b)[0] == digits(b as nat)[0]);
    } else {
        lemma_digits_chars(a as nat);
        assert(int_text(b)[0] == '-');
        assert(int_text(a)[0] == digits(a as nat)[0]);
    }
}

/// Two texts that each start with a number's digits followed by the
/// separator `sep` (no digit) start with the same number.
pub proof fn lemma_digits_prefix(n: nat, m: nat, sep: char, x: Seq<char>, y: Seq<char>)
    requires
        !('0' <= sep <= '9'),
        digits(n) + seq![sep] + x == digits(m) + seq![sep] + y,
    ensures
        n == m,
{
    let u = digits(n);
    let v = digits(m);
    let s = u + seq![sep] + x;
    let t = v + seq![sep] + y;
    lemma_digits_chars(n);
    lemma_digits_chars(m);
    if u.len() < v.len() {
        assert(s[u.len() as int] == sep);
        assert(t[u.len() as int] == v[u.len() as int]);
    } else if v.len() < u.len() {
        assert(t[v.len() as int] == sep);
        assert(s[v.len() as int] == u[v.len() as int]);
    } else {
        assert(u =~= s.subrange(0, u.len() as int));
        assert(v =~= t.subrange(0, v.len() as int));
        lemma_digits_injective(n, m);
    }
}

/// Two texts that each start with an integer's text followed by the
/// separator `sep` (no digit) start with the same integer.
pub proof fn lemma_int_text_prefix(a: int, b: int, sep: char, x: Seq<char>, y: Seq<char>)
    requires
        !('0' <= sep <= '9'),
        int_text(a) + seq![sep] + x == int_text(b) + seq![sep] + y,
    ensures
        a == b,
{
    let s = int_text(a) + seq![sep] + x;
    let t = int_text(b) + seq![sep] + y;
    if a < 0 && b < 0 {
        let da = digits((-a) as nat);
        let db = digits((-b) as nat);
        assert(s.drop_first() =~= da + seq![sep] + x);
        assert(t.drop_first() =~= db + seq![sep] + y);
        lemma_digits_prefix((-a) as nat, (-b) as nat, sep, x, y);
    } else if a >= 0 && b >= 0 {
        lemma_digits_prefix(a as nat, b as nat, sep, x, y);
    } else if a < 0 {
        lemma_digits_chars(b as nat);
        assert(s[0] == '-');
        assert(t[0] == digits(b as nat)[0]);
    } else {
        lemma_digits_chars(a as nat);
        assert(t[0] == '-');
        assert(s[0] == digits(a as nat)[0]);
    }
}

} // verus!
