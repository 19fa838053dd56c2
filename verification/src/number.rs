//! Decimal numbers: a sign, a whole number of units and the power of ten that they are scaled by.
use crate::text::{digits, fixed_digits};
use crate::views::option_view;
use rust_decimal::prelude::ToPrimitive;
use rust_decimal::Decimal;
use vstd::arithmetic::power::pow;
use vstd::prelude::*;

verus! {

/// The largest magnitude of a decimal number: it takes 96 bits.
pub const MAX_MAGNITUDE: u128 = 0xFFFF_FFFF_FFFF_FFFF_FFFF_FFFF;

/// The largest number of decimal places.
pub const MAX_SCALE: u32 = 28;

/// What a [`Number`] holds: plus or minus `magnitude`, divided by ten to the `scale`. A zero
/// may carry a minus sign; it is written then, and counts for nothing otherwise.
pub struct NumberView {
    pub negative: bool,
    pub magnitude: nat,
    pub scale: nat,
}

impl NumberView {
    /// Whether a decimal number of 96 bits and at most 28 places holds this.
    pub open spec fn is_valid(self) -> bool {
        self.magnitude <= MAX_MAGNITUDE && self.scale <= MAX_SCALE
    }

    /// The value in units of the last place that a number can have.
    pub open spec fn value(self) -> int {
        let units = self.magnitude * pow(10, (MAX_SCALE - self.scale) as nat);
        if self.negative {
            -units
        } else {
            units
        }
    }

    /// The whole part, as an integer: the digits behind the point are dropped.
    pub open spec fn whole(self) -> int {
        let units = self.magnitude as int / pow(10, self.scale);
        if self.negative {
            -units
        } else {
            units
        }
    }

    /// The number without the digits behind the point.
    pub open spec fn truncated(self) -> NumberView {
        NumberView {
            negative: self.negative,
            magnitude: (self.magnitude as int / pow(10, self.scale)) as nat,
            scale: 0,
        }
    }

    /// To drop the digits behind the point does not change the whole part.
    pub proof fn lemma_whole_of_truncated(self)
        ensures
            self.truncated().whole() == self.whole(),
    {
        vstd::arithmetic::power::lemma_pow0(10);
        vstd::arithmetic::power::lemma_pow_positive(10, self.scale);
        vstd::arithmetic::div_mod::lemma_div_pos_is_pos(self.magnitude as int, pow(10, self.scale));
        assert(self.truncated().magnitude as int / 1 == self.truncated().magnitude);
    }

    /// The number itself, but without its sign where it is a zero with a minus sign.
    pub open spec fn with_unsigned_zero(self) -> NumberView {
        NumberView { negative: self.negative && self.magnitude != 0, ..self }
    }

    /// The number as text, with all the decimal places of its scale.
    pub open spec fn text(self) -> Seq<char> {
        let unit = pow(10, self.scale);
        let sign = if self.negative {
            seq!['-']
        } else {
            Seq::empty()
        };
        let point = if self.scale == 0 {
            Seq::empty()
        } else {
            seq!['.'] + fixed_digits((self.magnitude as int % unit) as nat, self.scale)
        };
        sign + digits((self.magnitude as int / unit) as nat) + point
    }
}

/// A whole number.
pub open spec fn whole_number(i: int) -> NumberView {
    NumberView {
        negative: i < 0,
        magnitude: if i < 0 {
            (-i) as nat
        } else {
            i as nat
        },
        scale: 0,
    }
}

/// Zero has the value zero.
pub proof fn lemma_zero_value(n: NumberView)
    requires
        n.magnitude == 0,
    ensures
        n.value() == 0,
{
    let unit = pow(10, (MAX_SCALE - n.scale) as nat);
    assert(0 * unit == 0) by (nonlinear_arith);
}

/// A decimal number of at most 96 bits and 28 decimal places. Its sign, magnitude and scale are
/// kept as they are; [`Number::precedes`] goes by the value alone.
#[derive(Clone, Copy, Debug, PartialEq, Eq)]
pub struct Number {
    negative: bool,
    magnitude: u128,
    scale: u32,
}

impl View for Number {
    type V = NumberView;

    closed spec fn view(&self) -> NumberView {
        NumberView {
            negative: self.negative,
            magnitude: self.magnitude as nat,
            scale: self.scale as nat,
        }
    }
}

impl Number {
    #[verifier::type_invariant]
    closed spec fn within_limits(self) -> bool {
        self@.is_valid()
    }

    /// The number with these parts, where they are within the limits.
    pub fn new(negative: bool, magnitude: u128, scale: u32) -> (number: Option<Number>)
        ensures
            number is Some <==> magnitude <= MAX_MAGNITUDE && scale <= MAX_SCALE,
            number matches Some(n) ==> n@ == (NumberView {
                negative,
                magnitude: magnitude as nat,
                scale: scale as nat,
            }),
    {
        if magnitude <= MAX_MAGNITUDE && scale <= MAX_SCALE {
            Some(Number { negative, magnitude, scale })
        } else {
            None
        }
    }

    /// A whole number.
    pub fn from_i64(i: i64) -> (number: Number)
        ensures
            number@ == whole_number(i as int),
    {
        if i < 0 {
            Number { negative: true, magnitude: (-(i as i128)) as u128, scale: 0 }
        } else {
            Number { negative: false, magnitude: i as u128, scale: 0 }
        }
    }

    /// A whole number that is not negative.
    pub fn from_u64(i: u64) -> (number: Number)
        ensures
            number@ == whole_number(i as int),
    {
        Number { negative: false, magnitude: i as u128, scale: 0 }
    }

    /// Whether the number is zero, whatever its sign and scale.
    pub fn is_zero(&self) -> (zero: bool)
        ensures
            zero == (self@.magnitude == 0),
    {
        self.magnitude == 0
    }
}

/// `Decimal::to_string`, that is the `Display` of `Decimal`: a minus sign where the sign bit is
/// set, the whole part, and behind a point as many digits as the scale says.
#[verifier::external_body]
fn decimal_text(n: &Number) -> (text: String)
    requires
        n@.is_valid(),
    ensures
        text@ == n@.text(),
{
    let mut decimal = Decimal::from_i128_with_scale(n.magnitude as i128, n.scale);
    decimal.set_sign_negative(n.negative);
    decimal.to_string()
}

/// The `<` of `Decimal`: by value, whatever the two scales, and with no difference between a
/// zero and a negative zero.
#[verifier::external_body]
fn decimal_precedes(a: &Number, b: &Number) -> (precedes: bool)
    requires
        a@.is_valid(),
        b@.is_valid(),
    ensures
        precedes == (a@.value() < b@.value()),
{
    let mut left = Decimal::from_i128_with_scale(a.magnitude as i128, a.scale);
    left.set_sign_negative(a.negative);
    let mut right = Decimal::from_i128_with_scale(b.magnitude as i128, b.scale);
    right.set_sign_negative(b.negative);
    left < right
}

/// `Decimal::trunc`: the digits behind the point are dropped, the sign bit stays.
#[verifier::external_body]
fn decimal_trunc(n: &Number) -> (truncated: Number)
    requires
        n@.is_valid(),
    ensures
        truncated@ == n@.truncated(),
{
    let mut decimal = Decimal::from_i128_with_scale(n.magnitude as i128, n.scale);
    decimal.set_sign_negative(n.negative);
    let truncated = decimal.trunc();
    Number {
        negative: truncated.is_sign_negative(),
        magnitude: truncated.mantissa().unsigned_abs(),
        scale: truncated.scale(),
    }
}

/// `ToPrimitive::to_i64` of `Decimal`: the whole part, where it fits into an `i64`.
#[verifier::external_body]
fn decimal_to_i64(n: &Number) -> (whole: Option<i64>)
    requires
        n@.is_valid(),
    ensures
        whole is Some <==> i64::MIN <= n@.whole() <= i64::MAX,
        whole matches Some(i) ==> i == n@.whole(),
{
    let mut decimal = Decimal::from_i128_with_scale(n.magnitude as i128, n.scale);
    decimal.set_sign_negative(n.negative);
    decimal.to_i64()
}

/// What `str::parse::<Decimal>` makes of a string; `None` where it fails.
pub uninterp spec fn parsed_decimal(s: Seq<char>) -> Option<NumberView>;

/// `str::parse::<Decimal>`. Which strings it accepts, and how it rounds what has too many
/// digits, is left to the name [`parsed_decimal`]; what `Display` writes of a number it reads
/// back as that number, where a negative zero loses its sign and keeps its scale.
#[verifier::external_body]
pub(crate) fn parse_decimal(s: &str) -> (parsed: Option<Number>)
    ensures
        parsed_decimal(s@) == option_view(parsed),
        forall|n: NumberView| n.is_valid() && s@ == #[trigger] n.text()
            ==> option_view(parsed) == Some(n.with_unsigned_zero()),
{
    match s.parse::<Decimal>() {
        Ok(decimal) => Some(
            Number {
                negative: decimal.is_sign_negative(),
                magnitude: decimal.mantissa().unsigned_abs(),
                scale: decimal.scale(),
            },
        ),
        Err(_) => None,
    }
}

impl Number {
    /// The number as text.
    pub fn to_text(&self) -> (text: String)
        ensures
            text@ == self@.text(),
    {
        proof {
            use_type_invariant(self);
        }
        decimal_text(self)
    }

    /// Whether the number is less than another one.
    pub fn precedes(&self, other: &Number) -> (precedes: bool)
        ensures
            precedes == (self@.value() < other@.value()),
    {
        proof {
            use_type_invariant(self);
            use_type_invariant(other);
        }
        decimal_precedes(self, other)
    }

    /// The number without the digits behind the point.
    pub fn trunc(&self) -> (truncated: Number)
        ensures
            truncated@ == self@.truncated(),
    {
        proof {
            use_type_invariant(self);
        }
        decimal_trunc(self)
    }

    /// The whole part, where it fits into an `i64`.
    pub fn to_i64(&self) -> (whole: Option<i64>)
        ensures
            whole is Some <==> i64::MIN <= self@.whole() <= i64::MAX,
            whole matches Some(i) ==> i == self@.whole(),
    {
        proof {
            use_type_invariant(self);
        }
        decimal_to_i64(self)
    }
}

} // verus!
