//! Written timestamps and moments: for years of four digits the order of
//! the texts is the order in time, and the texts that begin with a month are
//! the ones that lie within its bounds.

use crate::amount::{digits_are_bounded, digits_from_the_front, pow10};
use crate::calendar::{
    bounds_of, day_time_text, days_in_month, month_exists, month_text, timestamp_text, zero_padded,
    Timestamp,
};
use crate::text::{
    all_digits, decimal_text, digit_char, digit_of, digits_value, is_digit, text_lt,
    text_lt_asymmetric,
};
use vstd::prelude::*;

verus! {

/// A numeral is made of digits and writes its number.
pub proof fn numeral_is_digits(n: nat)
    ensures
        all_digits(decimal_text(n)),
        digits_value(decimal_text(n)) == n,
        decimal_text(n).len() >= 1,
    decreases n,
{
    let s = decimal_text(n);
    if n < 10 {
        assert(s.len() == 1 && s[0] == digit_char(n));
        assert(s.drop_last() =~= Seq::<char>::empty());
        assert(digits_value(s.drop_last()) == 0);
    } else {
        let t = decimal_text(n / 10);
        numeral_is_digits(n / 10);
        assert(s.drop_last() =~= t);
        assert(s.last() == digit_char(n % 10));
        assert forall|i: int| 0 <= i < s.len() implies is_digit(#[trigger] s[i]) by {
            if i < t.len() {
                assert(s[i] == t[i]);
            }
        }
    }
}

/// A number below ten to the power of `w` is written with at most `w` digits.
pub proof fn numeral_is_short(n: nat, w: nat)
    requires
        w >= 1,
        n < pow10(w),
    ensures
        decimal_text(n).len() <= w,
    decreases n,
{
    reveal_with_fuel(pow10, 2);
    if n >= 10 {
        assert(w >= 2);
        numeral_is_short(n / 10, (w - 1) as nat);
    }
}

/// Zeros in front of digits change neither that they are digits nor the
/// number that they write.
pub proof fn zeros_in_front(k: nat, s: Seq<char>)
    requires
        all_digits(s),
    ensures
        all_digits(Seq::new(k, |i: int| '0') + s),
        digits_value(Seq::new(k, |i: int| '0') + s) == digits_value(s),
    decreases s.len(), k,
{
    let z = Seq::new(k, |i: int| '0');
    let r = z + s;
    assert forall|i: int| 0 <= i < r.len() implies is_digit(#[trigger] r[i]) by {
        if i >= k {
            assert(r[i] == s[i - k]);
        }
    }
    if s.len() > 0 {
        let t = s.drop_last();
        assert forall|i: int| 0 <= i < t.len() implies is_digit(#[trigger] t[i]) by {
            assert(t[i] == s[i]);
        }
        zeros_in_front(k, t);
        assert(r.drop_last() =~= z + t);
        assert(r.last() == s.last());
    } else if k > 0 {
        let e = Seq::<char>::empty();
        zeros_in_front((k - 1) as nat, e);
        assert(r.drop_last() =~= Seq::new((k - 1) as nat, |i: int| '0') + e);
        assert(r.last() == '0');
    } else {
        assert(r =~= Seq::<char>::empty());
    }
}

/// A number below ten to the power of `w`, padded to `w` places, is `w`
/// digits that write the number.
pub proof fn padded_is_numeral(n: nat, w: nat)
    requires
        w >= 1,
        n < pow10(w),
    ensures
        zero_padded(n, w).len() == w,
        all_digits(zero_padded(n, w)),
        digits_value(zero_padded(n, w)) == n,
{
    numeral_is_digits(n);
    numeral_is_short(n, w);
    let digits = decimal_text(n);
    if digits.len() < w {
        zeros_in_front((w - digits.len()) as nat, digits);
    }
}

/// Of two runs of digits of one length, the one that writes the smaller
/// number comes first, and they are the same run where they write the same
/// number.
pub proof fn digits_order(a: Seq<char>, b: Seq<char>)
    requires
        all_digits(a),
        all_digits(b),
        a.len() == b.len(),
    ensures
        text_lt(a, b) == (digits_value(a) < digits_value(b)),
        (a == b) == (digits_value(a) == digits_value(b)),
    decreases a.len(),
{
    if a.len() == 0 {
        assert(a =~= b);
    } else {
        let ra = a.drop_first();
        let rb = b.drop_first();
        assert forall|i: int| 0 <= i < ra.len() implies is_digit(#[trigger] ra[i]) by {
            assert(ra[i] == a[i + 1]);
        }
        assert forall|i: int| 0 <= i < rb.len() implies is_digit(#[trigger] rb[i]) by {
            assert(rb[i] == b[i + 1]);
        }
        digits_from_the_front(a);
        digits_from_the_front(b);
        digits_are_bounded(ra);
        digits_are_bounded(rb);
        digits_order(ra, rb);
        let p = pow10((a.len() - 1) as nat) as int;
        let da = digit_of(a[0]) as int;
        let db = digit_of(b[0]) as int;
        let va = digits_value(ra) as int;
        let vb = digits_value(rb) as int;
        assert(is_digit(a[0]) && is_digit(b[0]));
        assert(digits_value(a) == da * p + va);
        assert(digits_value(b) == db * p + vb);
        if a[0] == b[0] {
            assert(a =~= seq![a[0]] + ra);
            assert(b =~= seq![b[0]] + rb);
            if ra == rb {
                assert(a =~= b);
            }
        } else {
            assert(da != db);
            if da < db {
                assert(da * p + va < db * p + vb) by (nonlinear_arith)
                    requires
                        da < db,
                        0 <= va < p,
                        0 <= vb,
                ;
            } else {
                assert(db * p + vb < da * p + va) by (nonlinear_arith)
                    requires
                        db < da,
                        0 <= vb < p,
                        0 <= va,
                ;
            }
        }
    }
}

/// Two texts that begin with parts of one length are ordered by those parts,
/// and by what follows where the parts are the same.
pub proof fn concat_order(p: Seq<char>, q: Seq<char>, x: Seq<char>, y: Seq<char>)
    requires
        p.len() == q.len(),
    ensures
        text_lt(p + x, q + y) == (if p == q {
            text_lt(x, y)
        } else {
            text_lt(p, q)
        }),
        (p + x == q + y) == (p == q && x == y),
    decreases p.len(),
{
    if p.len() == 0 {
        assert(p =~= q);
        assert(p + x =~= x);
        assert(q + y =~= y);
    } else {
        let pr = p.drop_first();
        let qr = q.drop_first();
        concat_order(pr, qr, x, y);
        assert((p + x).drop_first() =~= pr + x);
        assert((q + y).drop_first() =~= qr + y);
        assert((p + x)[0] == p[0] && (q + y)[0] == q[0]);
        if p[0] == q[0] && pr == qr {
            assert(p =~= seq![p[0]] + pr);
            assert(q =~= seq![q[0]] + qr);
        }
        if p + x == q + y {
            assert(p =~= (p + x).take(p.len() as int));
            assert(q =~= (q + y).take(q.len() as int));
            assert(x =~= (p + x).skip(p.len() as int));
            assert(y =~= (q + y).skip(q.len() as int));
        }
    }
}

/// Whether a timestamp is one whose year has four digits and that is no leap
/// second.
pub open spec fn is_plain(ts: Timestamp) -> bool {
    ts.is_valid() && 0 <= ts.year <= 9999 && ts.nanosecond < 1_000_000_000
}

/// Whether the moment `a` comes before the moment `b`.
pub open spec fn earlier(a: Timestamp, b: Timestamp) -> bool {
    a.year < b.year || (a.year == b.year && (a.month < b.month || (a.month == b.month && (a.day
        < b.day || (a.day == b.day && (a.hour < b.hour || (a.hour == b.hour && (a.minute < b.minute
        || (a.minute == b.minute && a.second < b.second)))))))))
}

/// Whether two timestamps name the same second.
pub open spec fn same_second(a: Timestamp, b: Timestamp) -> bool {
    a.year == b.year && a.month == b.month && a.day == b.day && a.hour == b.hour && a.minute
        == b.minute && a.second == b.second
}

/// The months of two plain timestamps are written in the order of the
/// months, and the same where the months are the same.
pub proof fn written_months(a: Timestamp, b: Timestamp)
    requires
        is_plain(a),
        is_plain(b),
    ensures
        month_text(a.year as int, a.month as int).len() == 7,
        month_text(b.year as int, b.month as int).len() == 7,
        text_lt(month_text(a.year as int, a.month as int), month_text(b.year as int, b.month as int))
            == (a.year < b.year || (a.year == b.year && a.month < b.month)),
        (month_text(a.year as int, a.month as int) == month_text(b.year as int, b.month as int))
            == (a.year == b.year && a.month == b.month),
{
    reveal_with_fuel(pow10, 5);
    let ya = zero_padded(a.year as nat, 4);
    let yb = zero_padded(b.year as nat, 4);
    let ma = zero_padded(a.month as nat, 2);
    let mb = zero_padded(b.month as nat, 2);
    let dash = seq!['-'];
    padded_is_numeral(a.year as nat, 4);
    padded_is_numeral(b.year as nat, 4);
    padded_is_numeral(a.month as nat, 2);
    padded_is_numeral(b.month as nat, 2);
    digits_order(ya, yb);
    digits_order(ma, mb);
    concat_order(ya, yb, dash, dash);
    text_lt_asymmetric(dash, dash);
    concat_order(ya + dash, yb + dash, ma, mb);
}

/// The order of the written timestamps is the order of the moments: of two
/// plain timestamps the earlier one is written as the text that comes first,
/// and they are written the same where they name the same second.
pub proof fn written_order_is_time_order(a: Timestamp, b: Timestamp)
    requires
        is_plain(a),
        is_plain(b),
    ensures
        text_lt(timestamp_text(a), timestamp_text(b)) == earlier(a, b),
        (timestamp_text(a) == timestamp_text(b)) == same_second(a, b),
{
    reveal_with_fuel(pow10, 3);
    written_months(a, b);
    let dash = seq!['-'];
    let blank = seq![' '];
    let colon = seq![':'];
    let da = zero_padded(a.day as nat, 2);
    let db = zero_padded(b.day as nat, 2);
    let ha = zero_padded(a.hour as nat, 2);
    let hb = zero_padded(b.hour as nat, 2);
    let ia = zero_padded(a.minute as nat, 2);
    let ib = zero_padded(b.minute as nat, 2);
    let sa = zero_padded((a.second + a.nanosecond / 1_000_000_000) as nat, 2);
    let sb = zero_padded((b.second + b.nanosecond / 1_000_000_000) as nat, 2);
    assert(a.nanosecond / 1_000_000_000 == 0 && b.nanosecond / 1_000_000_000 == 0);
    padded_is_numeral(a.day as nat, 2);
    padded_is_numeral(b.day as nat, 2);
    padded_is_numeral(a.hour as nat, 2);
    padded_is_numeral(b.hour as nat, 2);
    padded_is_numeral(a.minute as nat, 2);
    padded_is_numeral(b.minute as nat, 2);
    padded_is_numeral(a.second as nat, 2);
    padded_is_numeral(b.second as nat, 2);
    digits_order(da, db);
    digits_order(ha, hb);
    digits_order(ia, ib);
    digits_order(sa, sb);
    text_lt_asymmetric(dash, dash);
    text_lt_asymmetric(blank, blank);
    text_lt_asymmetric(colon, colon);
    // day and time, built up from the left
    let a1 = dash + da;
    let b1 = dash + db;
    concat_order(dash, dash, da, db);
    let a2 = a1 + blank;
    let b2 = b1 + blank;
    concat_order(a1, b1, blank, blank);
    let a3 = a2 + ha;
    let b3 = b2 + hb;
    concat_order(a2, b2, ha, hb);
    let a4 = a3 + colon;
    let b4 = b3 + colon;
    concat_order(a3, b3, colon, colon);
    let a5 = a4 + ia;
    let b5 = b4 + ib;
    concat_order(a4, b4, ia, ib);
    let a6 = a5 + colon;
    let b6 = b5 + colon;
    concat_order(a5, b5, colon, colon);
    concat_order(a6, b6, sa, sb);
    assert(day_time_text(a) == a6 + sa);
    assert(day_time_text(b) == b6 + sb);
    concat_order(
        month_text(a.year as int, a.month as int),
        month_text(b.year as int, b.month as int),
        day_time_text(a),
        day_time_text(b),
    );
}

/// The timestamps that begin with a month are the ones between its bounds:
/// a plain timestamp begins with the text of a month exactly where it lies
/// in that month, and exactly there it lies between the first and the last
/// second of the month.
pub proof fn month_prefix_is_month_bounds(ts: Timestamp, year: int, month: int)
    requires
        is_plain(ts),
        0 <= year <= 9999,
        month_exists(year, month),
    ensures
        month_text(year, month).is_prefix_of(timestamp_text(ts)) == (ts.year == year && ts.month
            == month),
        (!text_lt(timestamp_text(ts), bounds_of(year, month).0) && !text_lt(
            bounds_of(year, month).1,
            timestamp_text(ts),
        )) == (ts.year == year && ts.month == month),
{
    let first = Timestamp {
        year: year as i32,
        month: month as u32,
        day: 1,
        hour: 0,
        minute: 0,
        second: 0,
        nanosecond: 0,
    };
    let last = Timestamp {
        year: year as i32,
        month: month as u32,
        day: days_in_month(year, month) as u32,
        hour: 23,
        minute: 59,
        second: 59,
        nanosecond: 0,
    };
    assert(is_plain(first) && is_plain(last));
    written_order_is_time_order(ts, first);
    written_order_is_time_order(last, ts);
    written_months(ts, first);
    let own = month_text(ts.year as int, ts.month as int);
    let asked = month_text(year, month);
    let t = timestamp_text(ts);
    assert(t == own + day_time_text(ts));
    if asked.is_prefix_of(t) {
        assert(asked =~= own);
    }
    if asked == own {
        assert(asked.is_prefix_of(t));
    }
}

} // verus!
