//! Amounts of money as signed integer cents: reading an amount from text and
//! writing one as a number with two decimals.

use crate::calendar::zero_padded;
use crate::error::AmountError;
use crate::text::{
    all_digits, chars_of, code_of, decimal_text, digit, digit_of, digits_value, is_digit,
    push_decimal, text_of, trim, trimmed,
};
use vstd::prelude::*;

verus! {

/// Whether `c` is a currency symbol or a thousands separator: `$`, the euro
/// sign, the pound sign, or a comma.
pub open spec fn is_mark(c: char) -> bool {
    c == '$' || c == '\u{20AC}' || c == '\u{A3}' || c == ','
}

/// `s` without currency symbols and thousands separators.
pub open spec fn without_marks(s: Seq<char>) -> Seq<char>
    decreases s.len(),
{
    if s.len() == 0 {
        s
    } else if is_mark(s.last()) {
        without_marks(s.drop_last())
    } else {
        without_marks(s.drop_last()).push(s.last())
    }
}

/// The place of the first decimal point in `s`, or the length of `s` where it
/// has none.
pub open spec fn first_point(s: Seq<char>) -> int
    decreases s.len(),
{
    if s.len() == 0 || s[0] == '.' {
        0
    } else {
        1 + first_point(s.drop_first())
    }
}

/// The value of the digit at place `k` of `s`, or 0 where `s` is shorter.
pub open spec fn digit_at(s: Seq<char>, k: int) -> nat {
    if 0 <= k < s.len() {
        digit_of(s[k])
    } else {
        0
    }
}

/// The hundredths that the fraction digits `frac` round to, half away from
/// zero: the first two digits, and one more where the third is 5 or above.
pub open spec fn fraction_cents(frac: Seq<char>) -> nat {
    digit_at(frac, 0) * 10 + digit_at(frac, 1) + if digit_at(frac, 2) >= 5 {
        1nat
    } else {
        0nat
    }
}

/// `v` held to the range of a signed 64-bit integer.
pub open spec fn clamped(v: int) -> int {
    if v > i64::MAX {
        i64::MAX as int
    } else if v < i64::MIN {
        i64::MIN as int
    } else {
        v
    }
}

/// The cents that an unsigned decimal numeral writes: digits, at most one
/// decimal point, and at least one digit before or after it.
pub open spec fn unsigned_cents(s: Seq<char>) -> Option<nat> {
    let p = first_point(s);
    let whole = s.take(p);
    let frac = if p < s.len() {
        s.skip(p + 1)
    } else {
        Seq::<char>::empty()
    };
    if all_digits(whole) && all_digits(frac) && whole.len() + frac.len() > 0 {
        Some(digits_value(whole) * 100 + fraction_cents(frac))
    } else {
        None
    }
}

/// The cents that a decimal numeral writes, with or without a sign in front,
/// held to the range of a signed 64-bit integer.
pub open spec fn numeral_cents(s: Seq<char>) -> Option<int> {
    if s.len() > 0 && s[0] == '-' {
        match unsigned_cents(s.skip(1)) {
            Some(m) => Some(clamped(-(m as int))),
            None => None,
        }
    } else if s.len() > 0 && s[0] == '+' {
        match unsigned_cents(s.skip(1)) {
            Some(m) => Some(clamped(m as int)),
            None => None,
        }
    } else {
        match unsigned_cents(s) {
            Some(m) => Some(clamped(m as int)),
            None => None,
        }
    }
}

/// The cents that `text` stands for: currency symbols and thousands
/// separators are dropped, then white space at both ends, and the rest is read
/// as a decimal numeral.
pub open spec fn amount_value(text: Seq<char>) -> Option<int> {
    numeral_cents(trimmed(without_marks(text)))
}

/// How an amount of cents is written: the units, a point, two digits.
pub open spec fn amount_text(cents: int) -> Seq<char> {
    if cents < 0 {
        seq!['-'] + decimal_text(((-cents) / 100) as nat) + seq!['.'] + zero_padded(
            ((-cents) % 100) as nat,
            2,
        )
    } else {
        decimal_text((cents / 100) as nat) + seq!['.'] + zero_padded((cents % 100) as nat, 2)
    }
}

/// Ten to the power of `n`.
pub open spec fn pow10(n: nat) -> nat
    decreases n,
{
    if n == 0 {
        1
    } else {
        10 * pow10((n - 1) as nat)
    }
}

/// Whether `cents` is the whole number nearest to a hundred times the number
/// that the digits `frac` write behind the point of `whole`, the larger one
/// where two are equally near: the number times a hundred lies from half a
/// cent below `cents` up to, not including, half a cent above it.
pub open spec fn is_nearest_cents(cents: nat, whole: nat, frac: Seq<char>) -> bool {
    let p = pow10(frac.len()) as int;
    let doubled = 200 * (whole as int * p + digits_value(frac) as int);
    (2 * cents as int - 1) * p <= doubled < (2 * cents as int + 1) * p
}

/// A run of digits writes a number below ten to the power of its length.
pub proof fn digits_are_bounded(s: Seq<char>)
    requires
        all_digits(s),
    ensures
        digits_value(s) < pow10(s.len()),
    decreases s.len(),
{
    if s.len() > 0 {
        let t = s.drop_last();
        assert forall|i: int| 0 <= i < t.len() implies is_digit(#[trigger] t[i]) by {
            assert(t[i] == s[i]);
        }
        digits_are_bounded(t);
        assert(is_digit(s[s.len() - 1]));
    }
}

/// The number that a run of digits writes is its first digit times the
/// power of ten of its place, and the number that the rest writes.
pub proof fn digits_from_the_front(s: Seq<char>)
    requires
        s.len() > 0,
    ensures
        digits_value(s) == digit_of(s[0]) * pow10((s.len() - 1) as nat) + digits_value(
            s.drop_first(),
        ),
    decreases s.len(),
{
    if s.len() == 1 {
        assert(s.drop_last() =~= Seq::<char>::empty());
        assert(s.drop_first() =~= Seq::<char>::empty());
        assert(digits_value(s.drop_last()) == 0);
        assert(digits_value(s.drop_first()) == 0);
        assert(s.last() == s[0]);
        let one = pow10((s.len() - 1) as nat);
        assert(one == 1);
        assert(digits_value(s) == digit_of(s[0]));
        assert(digit_of(s[0]) * one == digit_of(s[0])) by (nonlinear_arith)
            requires
                one == 1,
        ;
    } else {
        let t = s.drop_last();
        digits_from_the_front(t);
        let u = s.drop_first();
        assert(t.drop_first() =~= u.drop_last());
        assert(t[0] == s[0]);
        assert(u.last() == s.last());
        let d = digit_of(s[0]);
        let q = pow10((s.len() - 2) as nat);
        let inner = digits_value(t.drop_first());
        assert(pow10((s.len() - 1) as nat) == 10 * q);
        assert(digits_value(t) == d * q + inner);
        assert(digits_value(s) == digits_value(t) * 10 + digit_of(s.last()));
        assert(digits_value(u) == inner * 10 + digit_of(s.last()));
        assert((d * q + inner) * 10 == d * (10 * q) + inner * 10) by (nonlinear_arith);
        let high = pow10((s.len() - 1) as nat);
        assert(d * high == d * (10 * q)) by (nonlinear_arith)
            requires
                high == 10 * q,
        ;
    }
}

/// The nearest cent of a number given as hundredths and a remainder: `a`
/// hundredths and `rem` parts of `q` of one more, rounded up from half on.
proof fn nearest_from_parts(w: int, a: int, r: int, q: int, rem: int)
    requires
        w >= 0,
        a >= 0,
        q >= 1,
        0 <= rem < q,
        (r == 1 && 2 * rem >= q) || (r == 0 && 2 * rem < q),
    ensures
        (2 * (100 * w + a + r) - 1) * (100 * q) <= 200 * (w * (100 * q) + (a * q + rem)) < (2 * (100
            * w + a + r) + 1) * (100 * q),
{
    let wq = w * q;
    let aq = a * q;
    let rq = r * q;
    assert((2 * (100 * w + a + r) - 1) * (100 * q) == 20000 * wq + 200 * aq + 200 * rq - 100 * q)
        by (nonlinear_arith)
        requires
            wq == w * q,
            aq == a * q,
            rq == r * q,
    ;
    assert((2 * (100 * w + a + r) + 1) * (100 * q) == 20000 * wq + 200 * aq + 200 * rq + 100 * q)
        by (nonlinear_arith)
        requires
            wq == w * q,
            aq == a * q,
            rq == r * q,
    ;
    assert(200 * (w * (100 * q) + (a * q + rem)) == 20000 * wq + 200 * aq + 200 * rem)
        by (nonlinear_arith)
        requires
            wq == w * q,
            aq == a * q,
    ;
    assert(rq == if r == 1 {
        q
    } else {
        0
    }) by (nonlinear_arith)
        requires
            rq == r * q,
            r == 0 || r == 1,
    ;
}

/// Rounding by the third digit behind the point gives the nearest cent.
pub proof fn cents_are_nearest(whole: nat, frac: Seq<char>)
    requires
        all_digits(frac),
    ensures
        is_nearest_cents(whole * 100 + fraction_cents(frac), whole, frac),
{
    let n = digits_value(frac) as int;
    let p = pow10(frac.len()) as int;
    let w = whole as int;
    let cents = (whole * 100 + fraction_cents(frac)) as int;
    reveal_with_fuel(pow10, 4);
    if frac.len() == 0 {
        assert(p == 1 && n == 0 && cents == 100 * w);
        assert(w * p == w) by (nonlinear_arith)
            requires
                p == 1,
        ;
        assert((2 * cents - 1) * p == 2 * cents - 1) by (nonlinear_arith)
            requires
                p == 1,
        ;
        assert((2 * cents + 1) * p == 2 * cents + 1) by (nonlinear_arith)
            requires
                p == 1,
        ;
    } else if frac.len() == 1 {
        digits_from_the_front(frac);
        assert(frac.drop_first() =~= Seq::<char>::empty());
        assert(is_digit(frac[0]));
        let d0 = digit_of(frac[0]) as int;
        assert(p == 10);
        assert(n == d0) by (nonlinear_arith)
            requires
                n == d0 * 1 + 0,
        ;
        assert(cents == 100 * w + 10 * d0);
        assert(w * p == 10 * w) by (nonlinear_arith)
            requires
                p == 10,
        ;
        assert((2 * cents - 1) * p == 20 * cents - 10) by (nonlinear_arith)
            requires
                p == 10,
        ;
        assert((2 * cents + 1) * p == 20 * cents + 10) by (nonlinear_arith)
            requires
                p == 10,
        ;
    } else {
        let s1 = frac.drop_first();
        let s2 = s1.drop_first();
        let q = pow10((frac.len() - 2) as nat) as int;
        digits_from_the_front(frac);
        digits_from_the_front(s1);
        assert(s1[0] == frac[1]);
        assert(is_digit(frac[0]) && is_digit(frac[1]));
        assert forall|i: int| 0 <= i < s2.len() implies is_digit(#[trigger] s2[i]) by {
            assert(s2[i] == frac[i + 2]);
        }
        digits_are_bounded(s2);
        let d0 = digit_of(frac[0]) as int;
        let d1 = digit_of(frac[1]) as int;
        let rem = digits_value(s2) as int;
        let high = pow10((frac.len() - 1) as nat) as int;
        assert(high == 10 * q);
        assert(p == 100 * q);
        assert(q >= 1);
        assert(n == d0 * high + (d1 * q + rem));
        assert(n == (10 * d0 + d1) * q + rem) by (nonlinear_arith)
            requires
                n == d0 * high + (d1 * q + rem),
                high == 10 * q,
        ;
        let d2 = digit_at(frac, 2) as int;
        let r: int = if d2 >= 5 {
            1
        } else {
            0
        };
        assert(cents == 100 * w + (10 * d0 + d1) + r);
        if frac.len() == 2 {
            assert(s2 =~= Seq::<char>::empty());
            assert(q == 1 && rem == 0 && d2 == 0);
        } else {
            let s3 = s2.drop_first();
            let t = pow10((frac.len() - 3) as nat) as int;
            digits_from_the_front(s2);
            assert(s2[0] == frac[2]);
            assert(is_digit(frac[2]));
            assert forall|i: int| 0 <= i < s3.len() implies is_digit(#[trigger] s3[i]) by {
                assert(s3[i] == frac[i + 3]);
            }
            digits_are_bounded(s3);
            let tail = digits_value(s3) as int;
            assert(q == 10 * t);
            assert(rem == d2 * t + tail);
            assert(0 <= tail < t);
            let d2t = d2 * t;
            assert(d2 >= 5 ==> d2t >= 5 * t) by (nonlinear_arith)
                requires
                    d2t == d2 * t,
                    t >= 0,
            ;
            assert(d2 <= 4 ==> d2t <= 4 * t) by (nonlinear_arith)
                requires
                    d2t == d2 * t,
                    t >= 0,
            ;
        }
        nearest_from_parts(w, 10 * d0 + d1, r, q, rem);
    }
}

/// Whether `c` is a currency symbol or a thousands separator.
fn mark(c: char) -> (r: bool)
    ensures
        r == is_mark(c),
{
    c == '$' || c == '\u{20AC}' || c == '\u{A3}' || c == ','
}

/// `v` without currency symbols and thousands separators.
fn strip_marks(v: &Vec<char>) -> (r: Vec<char>)
    ensures
        r@ == without_marks(v@),
{
    let mut r: Vec<char> = Vec::new();
    let mut i: usize = 0;
    while i < v.len()
        invariant
            i <= v.len(),
            r@ == without_marks(v@.take(i as int)),
        decreases v.len() - i,
    {
        assert(v@.take(i + 1).drop_last() =~= v@.take(i as int));
        if !mark(v[i]) {
            r.push(v[i]);
        }
        i += 1;
    }
    assert(v@.take(v@.len() as int) =~= v@);
    r
}

/// The largest magnitude that digits are counted up to; anything beyond it
/// lies outside the range of amounts all the same.
spec fn ceiling() -> nat {
    100_000_000_000_000_000_000
}

/// The smaller of `n` and the ceiling.
spec fn capped(n: nat) -> nat {
    if n > ceiling() {
        ceiling()
    } else {
        n
    }
}

/// Reads `v[from..to]` as digits: their value, counted up to the ceiling, or
/// nothing where another character stands among them.
fn read_digits(v: &Vec<char>, from: usize, to: usize) -> (r: Option<u128>)
    requires
        from <= to <= v.len(),
    ensures
        r is Some == all_digits(v@.subrange(from as int, to as int)),
        r matches Some(n) ==> n == capped(digits_value(v@.subrange(from as int, to as int))),
{
    let ghost s = v@.subrange(from as int, to as int);
    let mut acc: u128 = 0;
    let mut i: usize = from;
    while i < to
        invariant
            from <= i <= to <= v.len(),
            s == v@.subrange(from as int, to as int),
            acc == capped(digits_value(s.take(i - from))),
            forall|k: int| 0 <= k < i - from ==> is_digit(#[trigger] s[k]),
        decreases to - i,
    {
        let c = v[i];
        assert(s[i - from] == c);
        if !digit(c) {
            return None;
        }
        let d: u128 = (code_of(c) - 48) as u128;
        assert(s.take(i - from + 1).drop_last() =~= s.take(i - from));
        let next: u128 = acc * 10 + d;
        acc = if next > 100_000_000_000_000_000_000 {
            100_000_000_000_000_000_000
        } else {
            next
        };
        i += 1;
    }
    assert(s.take(s.len() as int) =~= s);
    Some(acc)
}

/// The value of the digit at place `k` of `v[from..]`, or 0 where there is none.
fn digit_or_zero(v: &Vec<char>, from: usize, k: usize) -> (d: u128)
    requires
        from <= v.len(),
        k < 3,
        all_digits(v@.skip(from as int)),
    ensures
        d == digit_at(v@.skip(from as int), k as int),
        d <= 9,
{
    if k < v.len() - from {
        let c = v[from + k];
        assert(v@.skip(from as int)[k as int] == c);
        (code_of(c) - 48) as u128
    } else {
        0
    }
}

/// Reads `v[from..]` as an unsigned decimal numeral: its cents, counted up to
/// a hundred times the ceiling.
fn read_unsigned(v: &Vec<char>, from: usize) -> (r: Option<u128>)
    requires
        from <= v.len(),
    ensures
        r is Some == unsigned_cents(v@.skip(from as int)) is Some,
        r matches Some(m) ==> {
            let exact = unsigned_cents(v@.skip(from as int))->0;
            &&& m <= exact
            &&& (m == exact || m > i64::MAX + 1)
        },
{
    let ghost s = v@.skip(from as int);
    let n = v.len();
    let mut p: usize = from;
    assert(s.skip(0) =~= s);
    while p < n && v[p] != '.'
        invariant
            from <= p <= n == v.len(),
            s == v@.skip(from as int),
            first_point(s) == (p - from) + first_point(s.skip(p - from)),
        decreases n - p,
    {
        assert(s.skip(p - from)[0] == v@[p as int]);
        assert(s.skip(p - from).drop_first() =~= s.skip(p - from + 1));
        p += 1;
    }
    assert(first_point(s) == p - from) by {
        if p < n {
            assert(s.skip(p - from)[0] == v@[p as int]);
        }
    }
    assert(s.take(p - from) =~= v@.subrange(from as int, p as int));
    let whole = match read_digits(v, from, p) {
        Some(w) => w,
        None => {
            return None;
        },
    };
    let start: usize = if p < n {
        p + 1
    } else {
        n
    };
    let ghost frac = if p < n {
        s.skip(p - from + 1)
    } else {
        Seq::<char>::empty()
    };
    assert(frac =~= v@.subrange(start as int, n as int));
    assert(frac =~= v@.skip(start as int));
    if read_digits(v, start, n).is_none() {
        return None;
    }
    if (p - from) + (n - start) == 0 {
        return None;
    }
    let d0 = digit_or_zero(v, start, 0);
    let d1 = digit_or_zero(v, start, 1);
    let d2 = digit_or_zero(v, start, 2);
    let round: u128 = if d2 >= 5 {
        1
    } else {
        0
    };
    Some(whole * 100 + d0 * 10 + d1 + round)
}

/// The signed cents of a magnitude, held to the range of amounts.
fn signed_cents(negative: bool, magnitude: u128) -> (r: i64)
    ensures
        r == clamped(
            if negative {
                -(magnitude as int)
            } else {
                magnitude as int
            },
        ),
{
    if negative {
        if magnitude > 0x7fff_ffff_ffff_ffff {
            i64::MIN
        } else {
            -(magnitude as i64)
        }
    } else {
        if magnitude > 0x7fff_ffff_ffff_ffff {
            i64::MAX
        } else {
            magnitude as i64
        }
    }
}

/// Reads an amount of money: `$1,234.50` is 123450 cents. Currency symbols
/// and thousands separators are ignored; the fraction is rounded to cents,
/// half away from zero; what lies beyond the range of amounts becomes the
/// nearest bound.
pub fn parse_amount(text: &str) -> (r: Result<i64, AmountError>)
    ensures
        match amount_value(text@) {
            Some(cents) => r == Ok::<i64, AmountError>(cents as i64),
            None => r == Err::<i64, AmountError>(AmountError::NotANumber),
        },
{
    let raw = chars_of(text);
    let stripped = strip_marks(&raw);
    let v = trim(&stripped);
    let negative = v.len() > 0 && v[0] == '-';
    let from: usize = if v.len() > 0 && (v[0] == '-' || v[0] == '+') {
        1
    } else {
        0
    };
    assert(v@.skip(0) =~= v@);
    match read_unsigned(&v, from) {
        Some(m) => {
            let ghost exact = unsigned_cents(v@.skip(from as int))->0;
            assert(clamped(-(m as int)) == clamped(-(exact as int)));
            assert(clamped(m as int) == clamped(exact as int));
            Ok(signed_cents(negative, m))
        },
        None => Err(AmountError::NotANumber),
    }
}

/// Appends an amount of cents to `out`, written with two decimals.
pub fn push_amount(out: &mut Vec<char>, cents: i64)
    ensures
        final(out)@ == old(out)@ + amount_text(cents as int),
{
    let magnitude: u64 = if cents < 0 {
        out.push('-');
        ((-(cents + 1)) as u64) + 1
    } else {
        cents as u64
    };
    let ghost head = out@;
    push_decimal(out, (magnitude / 100) as u128);
    out.push('.');
    let rest: u64 = magnitude % 100;
    if rest < 10 {
        out.push('0');
    }
    push_decimal(out, rest as u128);
    proof {
        reveal_with_fuel(decimal_text, 2);
        let two = zero_padded(rest as nat, 2);
        if rest < 10 {
            assert(two =~= seq!['0'] + decimal_text(rest as nat));
        } else {
            assert(two =~= decimal_text(rest as nat));
        }
        assert(out@ =~= head + decimal_text((magnitude / 100) as nat) + seq!['.'] + two);
        if cents < 0 {
            assert(head =~= old(out)@ + seq!['-']);
            assert((-cents) / 100 == magnitude / 100 && (-cents) % 100 == magnitude % 100);
        } else {
            assert(head =~= old(out)@);
        }
        assert(out@ =~= old(out)@ + amount_text(cents as int));
    }
}

/// An amount of cents written with two decimals.
pub fn format_amount(cents: i64) -> (s: String)
    ensures
        s@ == amount_text(cents as int),
{
    let mut out: Vec<char> = Vec::new();
    push_amount(&mut out, cents);
    assert(out@ =~= amount_text(cents as int));
    text_of(&out)
}

} // verus!
