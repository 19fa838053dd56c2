//! What holds of written integers, numbers and dates, and of the order of strings.
use crate::date::{days_in_month, is_leap_year, DateView};
use crate::number::{whole_number, NumberView, MAX_MAGNITUDE, MAX_SCALE};
use crate::text::{
    ascii_upper, digit_char, digit_value, digits, digits_value, fixed_digits, int_text, is_digit,
    is_digits, lemma_digits_spell, parse_i64_text, parse_int, text_lt,
};
use vstd::arithmetic::power::{lemma_pow0, lemma_pow1, lemma_pow_adds, lemma_pow_positive, pow};
use vstd::prelude::*;

verus! {

/// The ten digits, in order.
pub proof fn law_ten_digits(c: char, d: nat)
    ensures
        is_digit(c) <==> 48 <= c as int <= 57,
        is_digit(c) ==> digit_value(c) == c as int - 48,
        d < 10 ==> digit_char(d) as int == 48 + d,
{
}

/// A row of digits is worth ten times what it is worth without the last one, and the last one.
pub proof fn law_digits_add_up(s: Seq<char>, c: char)
    ensures
        digits_value(Seq::empty()) == 0,
        is_digit(c) ==> digits_value(s.push(c)) == 10 * digits_value(s) + (c as int - 48),
        is_digits(s) <==> s.len() > 0 && forall|i: int|
            0 <= i < s.len() ==> '0' <= #[trigger] s[i] <= '9',
{
    assert(s.push(c).drop_last() == s);
}

/// A number is written in digits that are worth it, and without a leading zero.
pub proof fn law_written_digits(n: nat)
    ensures
        digits(n).len() > 0,
        forall|i: int| 0 <= i < digits(n).len() ==> '0' <= #[trigger] digits(n)[i] <= '9',
        digits_value(digits(n)) == n,
        digits(n)[0] == '0' ==> digits(n).len() == 1 && n == 0,
    decreases n,
{
    lemma_digits_spell(n);
    assert forall|i: int| 0 <= i < digits(n).len() implies '0' <= #[trigger] digits(n)[i] <= '9' by {
        assert(is_digit(digits(n)[i]));
    }
    if n >= 10 {
        law_written_digits(n / 10);
    }
}

/// An integer is written as the digits of its amount, after a minus sign where it is negative.
pub proof fn law_written_integers(i: int)
    ensures
        i >= 0 ==> int_text(i) == digits(i as nat),
        i < 0 ==> int_text(i).len() > 1 && int_text(i)[0] == '-' && int_text(i).skip(1) == digits(
            (-i) as nat,
        ),
{
    law_written_digits((-i) as nat);
    if i < 0 {
        assert(int_text(i).skip(1) =~= digits((-i) as nat));
    }
}

/// A string spells an integer exactly where it is digits, or a sign and digits; a minus sign
/// makes it negative. It is read where an `i64` holds the integer.
pub proof fn law_spelled_integers(s: Seq<char>)
    ensures
        is_digits(s) ==> parse_int(s) == Some(digits_value(s) as int),
        s.len() > 0 && s[0] == '+' && is_digits(s.skip(1)) ==> parse_int(s) == Some(
            digits_value(s.skip(1)) as int,
        ),
        s.len() > 0 && s[0] == '-' && is_digits(s.skip(1)) ==> parse_int(s) == Some(
            -(digits_value(s.skip(1)) as int),
        ),
        !is_digits(s) && !(s.len() > 0 && (s[0] == '+' || s[0] == '-') && is_digits(s.skip(1)))
            ==> parse_int(s) is None,
        parse_i64_text(s) is Some <==> parse_int(s) is Some && i64::MIN <= parse_int(s)->0
            <= i64::MAX,
        parse_i64_text(s) is Some ==> parse_i64_text(s)->0 == parse_int(s)->0,
{
    if is_digits(s) {
        assert(is_digit(s[0]));
    }
}

/// Whether two strings are equal up to `k`.
pub open spec fn same_up_to(a: Seq<char>, b: Seq<char>, k: int) -> bool {
    0 <= k <= a.len() && k <= b.len() && a.take(k) == b.take(k)
}

/// A string comes before another one exactly where, behind what they have in common, it ends
/// first or has the smaller character.
pub proof fn law_order_of_strings(a: Seq<char>, b: Seq<char>)
    ensures
        text_lt(a, b) <==> exists|k: int| #[trigger]
            same_up_to(a, b, k) && k < b.len() && (k == a.len() || a[k] < b[k]),
    decreases a.len(),
{
    if b.len() == 0 {
    } else if a.len() == 0 {
        assert(same_up_to(a, b, 0)) by {
            assert(a.take(0) =~= b.take(0));
        }
    } else if a[0] != b[0] {
        if a[0] < b[0] {
            assert(same_up_to(a, b, 0)) by {
                assert(a.take(0) =~= b.take(0));
            }
        }
        assert forall|k: int| #[trigger] same_up_to(a, b, k) && k < b.len() && (k == a.len() || a[k]
            < b[k]) implies a[0] < b[0] by {
            if k > 0 {
                assert(a.take(k)[0] == b.take(k)[0]);
            }
        }
    } else {
        let x = a.skip(1);
        let y = b.skip(1);
        law_order_of_strings(x, y);
        if text_lt(x, y) {
            let k = choose|k: int| #[trigger]
                same_up_to(x, y, k) && k < y.len() && (k == x.len() || x[k] < y[k]);
            assert(a.take(k + 1) =~= seq![a[0]] + x.take(k));
            assert(b.take(k + 1) =~= seq![b[0]] + y.take(k));
            assert(same_up_to(a, b, k + 1));
        }
        assert forall|k: int| #[trigger] same_up_to(a, b, k) && k < b.len() && (k == a.len() || a[k]
            < b[k]) implies text_lt(x, y) by {
            if k > 0 {
                assert(x.take(k - 1) =~= a.take(k).skip(1));
                assert(y.take(k - 1) =~= b.take(k).skip(1));
                assert(same_up_to(x, y, k - 1));
            }
        }
    }
}

/// Digits of a fixed width are that many digits, and worth the number up to what does not fit.
pub proof fn law_fixed_digits(n: nat, width: nat)
    ensures
        fixed_digits(n, width).len() == width,
        forall|i: int|
            0 <= i < width ==> '0' <= #[trigger] fixed_digits(n, width)[i] <= '9',
        n < pow(10, width) ==> digits_value(fixed_digits(n, width)) == n,
    decreases width,
{
    if width == 0 {
        lemma_pow0(10);
    } else {
        let w = (width - 1) as nat;
        law_fixed_digits(n / 10, w);
        let all = fixed_digits(n, width);
        let head = fixed_digits(n / 10, w);
        assert(all.drop_last() =~= head);
        assert forall|i: int| 0 <= i < width implies '0' <= #[trigger] all[i] <= '9' by {
            if i < w {
                assert(all[i] == head[i]);
            }
        }
        if n < pow(10, width) {
            lemma_pow1(10);
            lemma_pow_adds(10, w, 1);
            let unit = pow(10, w);
            assert(n / 10 < unit) by (nonlinear_arith)
                requires
                    n < unit * 10,
            ;
        }
    }
}

proof fn lemma_digits_joined(a: Seq<char>, b: Seq<char>)
    requires
        forall|i: int| 0 <= i < b.len() ==> '0' <= #[trigger] b[i] <= '9',
    ensures
        digits_value(a + b) == digits_value(a) * pow(10, b.len()) + digits_value(b),
    decreases b.len(),
{
    if b.len() == 0 {
        lemma_pow0(10);
        assert(a + b =~= a);
    } else {
        let fewer = b.drop_last();
        assert forall|i: int| 0 <= i < fewer.len() implies '0' <= #[trigger] fewer[i] <= '9' by {
            assert(b[i] == fewer[i]);
        }
        lemma_digits_joined(a, fewer);
        assert((a + b).drop_last() =~= a + fewer);
        lemma_pow1(10);
        lemma_pow_adds(10, fewer.len(), 1);
        let v = digits_value(a) as int;
        let unit = pow(10, fewer.len());
        let rest = digits_value(fewer) as int;
        assert((v * unit + rest) * 10 == v * (unit * 10) + rest * 10) by (nonlinear_arith);
    }
}

/// The text of a number is a minus sign where it is negative, then digits, and where it has
/// decimal places a point and as many digits as it has places. Without sign and point the
/// digits spell the magnitude, and there is no leading zero before the point but a single one.
pub proof fn law_written_numbers(n: NumberView) -> (parts: (Seq<char>, Seq<char>))
    ensures
        n.text() == (if n.negative {
            seq!['-']
        } else {
            Seq::empty()
        }) + parts.0 + (if n.scale == 0 {
            Seq::empty()
        } else {
            seq!['.'] + parts.1
        }),
        parts.0.len() > 0,
        parts.1.len() == n.scale,
        forall|i: int| 0 <= i < parts.0.len() ==> '0' <= #[trigger] parts.0[i] <= '9',
        forall|i: int| 0 <= i < parts.1.len() ==> '0' <= #[trigger] parts.1[i] <= '9',
        digits_value(parts.0 + parts.1) == n.magnitude,
        parts.0[0] == '0' ==> parts.0.len() == 1,
{
    let unit = pow(10, n.scale);
    let m = n.magnitude as int;
    lemma_pow_positive(10, n.scale);
    vstd::arithmetic::div_mod::lemma_fundamental_div_mod(m, unit);
    vstd::arithmetic::div_mod::lemma_mod_bound(m, unit);
    vstd::arithmetic::div_mod::lemma_div_pos_is_pos(m, unit);
    let q = (m / unit) as nat;
    let r = (m % unit) as nat;
    law_written_digits(q);
    law_fixed_digits(r, n.scale);
    lemma_digits_joined(digits(q), fixed_digits(r, n.scale));
    assert(unit * (m / unit) == (m / unit) * unit) by (nonlinear_arith);
    (digits(q), fixed_digits(r, n.scale))
}

/// Two different numbers have different texts.
pub proof fn law_numbers_read_apart(a: NumberView, b: NumberView)
    ensures
        a.text() == b.text() ==> a == b,
{
    if a.text() == b.text() {
        let s = a.text();
        let x = law_written_numbers(a);
        let y = law_written_numbers(b);
        lemma_sign_shown(a, x);
        lemma_sign_shown(b, y);
        assert(a.negative == b.negative);
        let sign: int = if a.negative {
            1
        } else {
            0
        };
        if a.scale != b.scale {
            if a.scale < b.scale {
                lemma_scales_read_apart(a, b, x, y);
            } else {
                lemma_scales_read_apart(b, a, y, x);
            }
        }
        let whole = s.len() - sign - (if a.scale == 0 {
            0
        } else {
            a.scale + 1
        });
        assert(x.0.len() == whole && y.0.len() == whole);
        assert(x.0 =~= s.subrange(sign, sign + whole));
        assert(y.0 =~= s.subrange(sign, sign + whole));
        if a.scale > 0 {
            assert(x.1 =~= s.subrange(s.len() - a.scale, s.len() as int));
            assert(y.1 =~= s.subrange(s.len() - a.scale, s.len() as int));
        } else {
            assert(x.1 =~= y.1);
        }
    }
}

spec fn are_parts(n: NumberView, parts: (Seq<char>, Seq<char>)) -> bool {
    &&& n.text() == (if n.negative {
        seq!['-']
    } else {
        Seq::empty()
    }) + parts.0 + (if n.scale == 0 {
        Seq::empty()
    } else {
        seq!['.'] + parts.1
    })
    &&& parts.0.len() > 0
    &&& parts.1.len() == n.scale
    &&& forall|i: int| 0 <= i < parts.0.len() ==> '0' <= #[trigger] parts.0[i] <= '9'
    &&& forall|i: int| 0 <= i < parts.1.len() ==> '0' <= #[trigger] parts.1[i] <= '9'
}

proof fn lemma_sign_shown(n: NumberView, parts: (Seq<char>, Seq<char>))
    requires
        are_parts(n, parts),
    ensures
        n.text().len() > 0,
        n.text()[0] == '-' <==> n.negative,
{
    if !n.negative {
        assert(n.text()[0] == parts.0[0]);
    }
}

proof fn lemma_scales_read_apart(
    a: NumberView,
    b: NumberView,
    x: (Seq<char>, Seq<char>),
    y: (Seq<char>, Seq<char>),
)
    requires
        are_parts(a, x),
        are_parts(b, y),
        a.negative == b.negative,
        a.scale < b.scale,
    ensures
        a.text() != b.text(),
{
    if a.text() == b.text() {
        let s = a.text();
        let sign: int = if a.negative {
            1
        } else {
            0
        };
        let at = s.len() - b.scale - 1;
        assert(b.text()[at] == '.');
        if a.scale == 0 {
            assert(s[at] == x.0[at - sign]);
        } else {
            let point = s.len() - a.scale - 1;
            assert(s[point] == '.');
            assert(b.text()[point] == y.1[point - at - 1]);
        }
    }
}

/// No character of the text of a number is other than a digit, a point or a minus sign.
pub proof fn law_number_characters(n: NumberView, i: int)
    requires
        0 <= i < n.text().len(),
    ensures
        '0' <= n.text()[i] <= '9' || n.text()[i] == '.' || n.text()[i] == '-',
{
    let parts = law_written_numbers(n);
    let sign: int = if n.negative {
        1
    } else {
        0
    };
    if sign <= i < sign + parts.0.len() {
        assert(n.text()[i] == parts.0[i - sign]);
    } else if i > sign + parts.0.len() {
        assert(n.text()[i] == parts.1[i - sign - parts.0.len() - 1]);
    }
}

/// Numbers are ordered by their values: over a common denominator, the signed magnitudes are.
pub proof fn law_order_of_numbers(a: NumberView, b: NumberView)
    requires
        a.scale <= 28,
        b.scale <= 28,
    ensures
        a.value() < b.value() <==> {
            let x: int = if a.negative {
                -(a.magnitude as int)
            } else {
                a.magnitude as int
            };
            let y: int = if b.negative {
                -(b.magnitude as int)
            } else {
                b.magnitude as int
            };
            x * pow(10, b.scale) < y * pow(10, a.scale)
        },
{
    let x: int = if a.negative {
        -(a.magnitude as int)
    } else {
        a.magnitude as int
    };
    let y: int = if b.negative {
        -(b.magnitude as int)
    } else {
        b.magnitude as int
    };
    let pa = pow(10, a.scale);
    let pb = pow(10, b.scale);
    let qa = pow(10, (MAX_SCALE - a.scale) as nat);
    let qb = pow(10, (MAX_SCALE - b.scale) as nat);
    lemma_pow_positive(10, a.scale);
    lemma_pow_positive(10, b.scale);
    lemma_pow_positive(10, (MAX_SCALE - a.scale) as nat);
    lemma_pow_positive(10, (MAX_SCALE - b.scale) as nat);
    lemma_pow_adds(10, (MAX_SCALE - a.scale) as nat, a.scale);
    lemma_pow_adds(10, (MAX_SCALE - b.scale) as nat, b.scale);
    let top = pow(10, MAX_SCALE as nat);
    assert(qa * pa == top && qb * pb == top);
    assert(a.value() == x * qa) by {
        assert((-(a.magnitude as int)) * qa == -(a.magnitude as int * qa)) by (nonlinear_arith);
    }
    assert(b.value() == y * qb) by {
        assert((-(b.magnitude as int)) * qb == -(b.magnitude as int * qb)) by (nonlinear_arith);
    }
    assert(x * qa < y * qb <==> x * pb < y * pa) by (nonlinear_arith)
        requires
            pa > 0,
            pb > 0,
            qa > 0,
            qb > 0,
            qa * pa == top,
            qb * pb == top,
    {
        assert((x * qa) * (pa * pb) == (x * pb) * top);
        assert((y * qb) * (pa * pb) == (y * pa) * top);
        assert(pa * pb > 0);
        assert(top > 0);
    }
}

/// Truncation drops the digits behind the point and nothing else.
pub proof fn law_truncated_numbers(n: NumberView)
    ensures
        n.truncated().scale == 0,
        n.truncated().negative == n.negative,
        n.truncated().magnitude * pow(10, n.scale) <= n.magnitude,
        n.magnitude < (n.truncated().magnitude + 1) * pow(10, n.scale),
        n.whole() == if n.negative {
            -(n.truncated().magnitude as int)
        } else {
            n.truncated().magnitude as int
        },
{
    let unit = pow(10, n.scale);
    let m = n.magnitude as int;
    lemma_pow_positive(10, n.scale);
    vstd::arithmetic::div_mod::lemma_fundamental_div_mod(m, unit);
    vstd::arithmetic::div_mod::lemma_mod_bound(m, unit);
    vstd::arithmetic::div_mod::lemma_div_pos_is_pos(m, unit);
    let q = m / unit;
    assert(q * unit <= m < (q + 1) * unit) by (nonlinear_arith)
        requires
            m == unit * q + m % unit,
            0 <= m % unit < unit,
    ;
}

/// A number takes at most 96 bits and 28 decimal places. Without the sign of a zero it is the
/// same number, but for a zero with a minus sign, which becomes the one without.
pub proof fn law_limits_of_numbers(n: NumberView)
    ensures
        n.is_valid() <==> n.magnitude < 0x1_0000_0000_0000_0000_0000_0000 && n.scale <= 28,
        MAX_MAGNITUDE == 0x1_0000_0000_0000_0000_0000_0000 - 1,
        MAX_SCALE == 28,
        n.magnitude != 0 || !n.negative ==> n.with_unsigned_zero() == n,
        n.magnitude == 0 ==> n.with_unsigned_zero() == (NumberView {
            negative: false,
            magnitude: 0,
            scale: n.scale,
        }),
{
}

/// A whole number has the value of the integer and no decimal places.
pub proof fn law_whole_numbers(i: int)
    ensures
        whole_number(i).scale == 0,
        whole_number(i).negative <==> i < 0,
        whole_number(i).magnitude == if i < 0 {
            -i
        } else {
            i
        },
{
}

/// A date is before another one by its year, then by its month, then by its day.
pub proof fn law_order_of_dates(a: DateView, b: DateView)
    ensures
        a.precedes(b) <==> a.year < b.year || (a.year == b.year && (a.month < b.month || (a.month
            == b.month && a.day < b.day))),
{
}

/// The days of the calendar: twelve months, of which February has a day more in every fourth
/// year, but not in a hundredth one that is no four hundredth.
pub proof fn law_calendar(date: DateView)
    ensures
        is_leap_year(date.year) <==> (date.year % 400 == 0 || (date.year % 4 == 0 && date.year % 100
            != 0)),
        date.month == 4 || date.month == 6 || date.month == 9 || date.month == 11 ==> days_in_month(
            date.year,
            date.month,
        ) == 30,
        date.month == 2 ==> days_in_month(date.year, date.month) == 28 + (if is_leap_year(
            date.year,
        ) {
            1int
        } else {
            0
        }),
        date.month == 1 || date.month == 3 || date.month == 5 || date.month == 7 || date.month == 8
            || date.month == 10 || date.month == 12 ==> days_in_month(date.year, date.month) == 31,
        date.is_valid() <==> date.year <= 9999 && 1 <= date.month <= 12 && 1 <= date.day
            <= days_in_month(date.year, date.month),
{
}

/// A date is written in ten characters: four digits for the year, two for the month and two for
/// the day, with dashes between them.
pub proof fn law_written_dates(date: DateView)
    requires
        date.is_valid(),
    ensures
        date.text().len() == 10,
        date.text()[4] == '-',
        date.text()[7] == '-',
        forall|i: int|
            0 <= i < 10 && i != 4 && i != 7 ==> '0' <= #[trigger] date.text()[i] <= '9',
        digits_value(date.text().subrange(0, 4)) == date.year,
        digits_value(date.text().subrange(5, 7)) == date.month,
        digits_value(date.text().subrange(8, 10)) == date.day,
{
    let (y, m, d) = (
        fixed_digits(date.year, 4),
        fixed_digits(date.month, 2),
        fixed_digits(date.day, 2),
    );
    law_fixed_digits(date.year, 4);
    law_fixed_digits(date.month, 2);
    law_fixed_digits(date.day, 2);
    lemma_pow0(10);
    lemma_pow1(10);
    lemma_pow_adds(10, 1, 1);
    lemma_pow_adds(10, 2, 2);
    let hundred = pow(10, 2);
    assert(hundred * hundred == 10000) by (nonlinear_arith)
        requires
            hundred == 100,
    ;
    let s = date.text();
    assert(s.subrange(0, 4) =~= y);
    assert(s.subrange(5, 7) =~= m);
    assert(s.subrange(8, 10) =~= d);
    assert forall|i: int| 0 <= i < 10 && i != 4 && i != 7 implies '0' <= #[trigger] s[i] <= '9' by {
        if i < 4 {
            assert(s[i] == y[i]);
        } else if i < 7 {
            assert(s[i] == m[i - 5]);
        } else {
            assert(s[i] == d[i - 8]);
        }
    }
}

/// The uppercase form of an ASCII character: letters `a` to `z` go to `A` to `Z`, thirty-two
/// places down, and every other character stays.
pub proof fn law_ascii_upper(c: char)
    ensures
        97 <= c as int <= 122 ==> ascii_upper(c) as int == c as int - 32,
        !(97 <= c as int <= 122) ==> ascii_upper(c) == c,
{
}

} // verus!
