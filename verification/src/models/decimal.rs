//! Monetary amounts.
use vstd::prelude::*;
use vstd::arithmetic::div_mod::{lemma_basic_div, lemma_small_mod};
use rust_decimal::Decimal;
use crate::text::{decimal_digits, push_decimal, string_of};

verus! {

broadcast use vstd::string::group_string_axioms;

/// A decimal number of `rust_decimal`, carried as it is.
#[verifier::external_type_specification]
#[verifier::external_body]
pub struct ExDecimal(Decimal);

/// `Decimal::mantissa`: the digits of the number as one integer, with its
/// sign.
#[verifier::external_body]
fn decimal_mantissa(decimal: &Decimal) -> i128 {
    decimal.mantissa()
}

/// `Decimal::scale`: the number of digits after the decimal point.
#[verifier::external_body]
fn decimal_scale(decimal: &Decimal) -> u32 {
    decimal.scale()
}

/// Represents possible errors that can occur during `Money` operations.
#[derive(Debug, Clone, Copy, PartialEq, Eq, Structural)]
pub enum MoneyError {
    /// Indicates the i64 value cannot be represented because it overflows.
    ValueOverflow,
}

impl MoneyError {
    /// The text shown for the error.
    pub fn to_string(&self) -> (s: String)
        ensures
            s@ == "Value cannot be represented as i64"@,
    {
        "Value cannot be represented as i64".to_owned()
    }
}

/// Represents a monetary amount consisting of a whole part and a fractional
/// part.
#[derive(Debug, Clone, Copy, PartialEq, Eq, Structural)]
pub struct Money {
    pub whole: i64,
    pub fractional: i64,
}

/// Ten to the power `n`.
pub open spec fn pow10(n: nat) -> nat
    decreases n,
{
    if n == 0 {
        1
    } else {
        10 * pow10((n - 1) as nat)
    }
}

/// The quotient of `a` by the positive `b`, rounded towards zero.
pub open spec fn trunc_div(a: int, b: int) -> int {
    if a >= 0 {
        a / b
    } else {
        -((-a) / b)
    }
}

/// What is left of `a` after `trunc_div`; it has the sign of `a`.
pub open spec fn trunc_rem(a: int, b: int) -> int {
    a - b * trunc_div(a, b)
}

/// The amount that a mantissa with `scale` digits after the decimal point
/// stands for: the digits before the point are the whole part, which must
/// fit in 64 bits; those after it are the fractional part, cut to 64 bits.
pub open spec fn money_of(mantissa: int, scale: nat) -> Result<Money, MoneyError> {
    let whole = trunc_div(mantissa, pow10(scale) as int);
    let fractional = trunc_rem(mantissa, pow10(scale) as int);
    if whole > i64::MAX || whole < i64::MIN {
        Err(MoneyError::ValueOverflow)
    } else {
        Ok(Money { whole: whole as i64, fractional: fractional as i64 })
    }
}

/// The magnitude of `n`.
pub open spec fn magnitude(n: int) -> nat {
    if n < 0 {
        (-n) as nat
    } else {
        n as nat
    }
}

/// The digits `digits` in groups of three, counted from the right, with a
/// comma between the groups.
pub open spec fn grouped(digits: Seq<char>) -> Seq<char>
    decreases digits.len(),
{
    if digits.len() <= 3 {
        digits
    } else {
        grouped(digits.take(digits.len() - 3)).push(',') + digits.skip(digits.len() - 3)
    }
}

/// The decimal digits of `n`, with a leading zero where `n` has only one.
pub open spec fn two_digits(n: nat) -> Seq<char> {
    if n < 10 {
        seq!['0'] + decimal_digits(n)
    } else {
        decimal_digits(n)
    }
}

/// Powers of ten grow with their exponent.
proof fn lemma_pow10_grows(a: nat, b: nat)
    requires
        a <= b,
    ensures
        1 <= pow10(a) <= pow10(b),
    decreases b,
{
    if b > 0 {
        if a < b {
            lemma_pow10_grows(a, (b - 1) as nat);
        } else {
            lemma_pow10_grows((a - 1) as nat, (b - 1) as nat);
        }
    }
}

/// Ten to the power `scale`, where it fits in 128 bits.
fn power_of_ten(scale: u32) -> (out: Option<u128>)
    ensures
        match out {
            Some(p) => p == pow10(scale as nat) && p >= 1,
            None => pow10(scale as nat) > u128::MAX,
        },
{
    let mut power: u128 = 1;
    let mut i: u32 = 0;
    while i < scale
        invariant
            i <= scale,
            power == pow10(i as nat),
            power >= 1,
        decreases scale - i,
    {
        match power.checked_mul(10) {
            Some(next) => {
                power = next;
            },
            None => {
                proof {
                    lemma_pow10_grows((i + 1) as nat, scale as nat);
                }
                return None;
            },
        }
        i += 1;
    }
    Some(power)
}

/// Appends the first `end` of `digits` in groups of three, counted from
/// the right, with a comma between the groups.
fn push_grouped(out: &mut Vec<char>, digits: &Vec<char>, end: usize)
    requires
        end <= digits.len(),
    ensures
        final(out)@ == old(out)@ + grouped(digits@.take(end as int)),
    decreases end,
{
    let ghost head = digits@.take(end as int);
    if end <= 3 {
        let mut i: usize = 0;
        while i < end
            invariant
                i <= end <= digits.len(),
                out@ == old(out)@ + digits@.take(i as int),
            decreases end - i,
        {
            out.push(digits[i]);
            assert(digits@.take(i + 1) =~= digits@.take(i as int).push(digits@[i as int]));
            assert(out@ =~= old(out)@ + digits@.take(i + 1));
            i += 1;
        }
    } else {
        push_grouped(out, digits, end - 3);
        assert(head.take(head.len() - 3) =~= digits@.take(end - 3));
        out.push(',');
        out.push(digits[end - 3]);
        out.push(digits[end - 2]);
        out.push(digits[end - 1]);
        assert(head.skip(head.len() - 3) =~= seq![
            digits@[end - 3],
            digits@[end - 2],
            digits@[end - 1],
        ]);
        assert(out@ =~= old(out)@ + grouped(head));
    }
}

impl Money {
    /// Constructs a new `Money` instance with the specified whole and
    /// fractional parts.
    pub fn new(whole: i64, fractional: i64) -> (out: Self)
        ensures
            out == (Money { whole, fractional }),
    {
        Self { whole, fractional }
    }

    /// Constructs a `Money` instance from a mantissa and the number of its
    /// digits that stand after the decimal point.
    ///
    /// Gives `ValueOverflow` where the whole part does not fit in 64 bits.
    pub fn from_mantissa(mantissa: i128, scale: u32) -> (out: Result<Money, MoneyError>)
        ensures
            out == money_of(mantissa as int, scale as nat),
    {
        let negative = mantissa < 0;
        let size: u128 = if !negative {
            mantissa as u128
        } else if mantissa == i128::MIN {
            0x8000_0000_0000_0000_0000_0000_0000_0000
        } else {
            (-mantissa) as u128
        };
        let ghost divisor = pow10(scale as nat) as int;
        let (quotient, rest): (u128, u128) = match power_of_ten(scale) {
            Some(p) => (size / p, size % p),
            None => {
                proof {
                    lemma_basic_div(size as int, divisor);
                    lemma_small_mod(size as nat, divisor as nat);
                }
                (0, size)
            },
        };
        assert(quotient == size as int / divisor);
        assert(rest == size as int % divisor);
        assert(size as int == divisor * quotient + rest) by {
            vstd::arithmetic::div_mod::lemma_fundamental_div_mod(size as int, divisor);
        }
        assert(trunc_div(mantissa as int, divisor) == if negative {
            -(quotient as int)
        } else {
            quotient as int
        });
        assert(trunc_rem(mantissa as int, divisor) == if negative {
            -(rest as int)
        } else {
            rest as int
        }) by (nonlinear_arith)
            requires
                size as int == divisor * quotient + rest,
                mantissa as int == if negative {
                    -(size as int)
                } else {
                    size as int
                },
                trunc_div(mantissa as int, divisor) == if negative {
                    -(quotient as int)
                } else {
                    quotient as int
                },
        ;
        let whole: i64 = if negative {
            if quotient > 0x8000_0000_0000_0000 {
                return Err(MoneyError::ValueOverflow);
            } else if quotient == 0x8000_0000_0000_0000 {
                i64::MIN
            } else {
                -(quotient as i64)
            }
        } else {
            if quotient > 0x7fff_ffff_ffff_ffff {
                return Err(MoneyError::ValueOverflow);
            } else {
                quotient as i64
            }
        };
        let signed_rest: i128 = if !negative {
            rest as i128
        } else if rest == 0x8000_0000_0000_0000_0000_0000_0000_0000 {
            i128::MIN
        } else {
            -(rest as i128)
        };
        let fractional = #[verifier::truncate]
        (signed_rest as i64);
        Ok(Money { whole, fractional })
    }

    /// Constructs a `Money` instance from a `rust_decimal::Decimal`.
    ///
    /// This method takes the mantissa and the scale of the decimal and
    /// reads them as `from_mantissa` does.
    pub fn from_rust_decimal(decimal: Decimal) -> (out: Result<Money, MoneyError>)
        ensures
            exists|mantissa: i128, scale: u32| out == money_of(mantissa as int, scale as nat),
    {
        let mantissa = decimal_mantissa(&decimal);
        let scale = decimal_scale(&decimal);
        Money::from_mantissa(mantissa, scale)
    }

    /// The amount as a US dollar text: the dollar sign, a minus sign where
    /// the whole part is negative, the magnitude of the whole part in
    /// groups of three digits, a point and the magnitude of the fractional
    /// part in at least two digits.
    pub open spec fn display(&self) -> Seq<char> {
        seq!['$'] + (if self.whole < 0 {
            seq!['-']
        } else {
            Seq::<char>::empty()
        }) + grouped(decimal_digits(magnitude(self.whole as int))).push('.') + two_digits(
            magnitude(self.fractional as int),
        )
    }

    /// Formats the money value as a US dollar. Properly displays currency
    /// symbol and negative Money values.
    pub fn to_string(&self) -> (out: String)
        ensures
            out@ == self.display(),
    {
        let mut chars: Vec<char> = Vec::new();
        chars.push('$');
        if self.whole < 0 {
            chars.push('-');
        }
        let mut digits: Vec<char> = Vec::new();
        push_decimal(&mut digits, size_of(self.whole));
        assert(digits@ =~= decimal_digits(magnitude(self.whole as int)));
        assert(digits@.take(digits@.len() as int) =~= digits@);
        push_grouped(&mut chars, &digits, digits.len());
        chars.push('.');
        let cents = size_of(self.fractional);
        if cents < 10 {
            chars.push('0');
        }
        push_decimal(&mut chars, cents);
        assert(chars@ =~= self.display());
        string_of(&chars)
    }
}

/// The magnitude of `n`.
fn size_of(n: i64) -> (out: u64)
    ensures
        out == magnitude(n as int),
{
    if n >= 0 {
        n as u64
    } else if n == i64::MIN {
        0x8000_0000_0000_0000
    } else {
        (-n) as u64
    }
}

} // verus!
