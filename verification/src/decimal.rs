//! Decimal numbers with up to 28 fractional digits and a 96-bit mantissa.
//!
//! A [`Decimal`] holds the two integers that `rust_decimal` exposes for its
//! numbers: the signed mantissa and the scale. Text conversion, rounding and
//! arithmetic are done by `rust_decimal`; ordering is stated over the exact
//! value, everything else over mantissa and scale.

use vstd::prelude::*;

verus! {

/// Largest magnitude of a mantissa: `2^96 - 1`.
pub const MAX_MANTISSA: i128 = 0xFFFF_FFFF_FFFF_FFFF_FFFF_FFFF;

/// Largest number of fractional digits.
pub const MAX_SCALE: u32 = 28;

/// Fractional digits of prices, balances and credit amounts.
pub const MONEY_SCALE: u32 = 8;

/// `10^n`.
pub open spec fn pow10(n: nat) -> nat
    decreases n,
{
    if n == 0 {
        1
    } else {
        10 * pow10((n - 1) as nat)
    }
}

/// `10^n` is never zero.
pub proof fn lemma_pow10_positive(n: nat)
    ensures
        pow10(n) >= 1,
    decreases n,
{
    if n > 0 {
        lemma_pow10_positive((n - 1) as nat);
    }
}

/// `m / p` rounded toward zero, for a positive `p`.
pub open spec fn div_toward_zero(m: int, p: int) -> int {
    if m >= 0 {
        m / p
    } else {
        -((-m) / p)
    }
}

/// Mantissa and scale of `d` cut to at most `dp` fractional digits, the digits
/// beyond them dropped.
pub open spec fn round_toward_zero(mantissa: int, scale: nat, dp: nat) -> (int, nat) {
    if scale <= dp {
        (mantissa, scale)
    } else {
        (div_toward_zero(mantissa, pow10((scale - dp) as nat) as int), dp)
    }
}

/// `10^(a + b)` is `10^a * 10^b`.
pub proof fn lemma_pow10_adds(a: nat, b: nat)
    ensures
        pow10(a + b) == pow10(a) * pow10(b),
    decreases a,
{
    if a == 0 {
        assert(pow10(0) * pow10(b) == pow10(b)) by (nonlinear_arith)
            requires
                pow10(0) == 1,
        ;
    } else {
        lemma_pow10_adds((a - 1) as nat, b);
        assert((a - 1) as nat + b == (a + b - 1) as nat);
        assert(10 * (pow10((a - 1) as nat) * pow10(b)) == (10 * pow10((a - 1) as nat)) * pow10(b))
            by (nonlinear_arith);
    }
}

/// Cutting a number to `dp` fractional digits moves its value toward zero, by
/// less than one unit of the last digit kept: by less than `10^(28 - dp)`
/// units of `10^-28`.
pub proof fn lemma_round_toward_zero_value(mantissa: int, scale: nat, dp: nat)
    requires
        scale <= MAX_SCALE,
        dp <= MAX_SCALE,
    ensures
        ({
            let exact = parts_value((mantissa, scale));
            let cut = parts_value(round_toward_zero(mantissa, scale, dp));
            &&& exact >= 0 ==> exact - pow10((MAX_SCALE - dp) as nat) < cut <= exact
            &&& exact <= 0 ==> exact <= cut < exact + pow10((MAX_SCALE - dp) as nat)
        }),
{
    let unit = pow10((MAX_SCALE - dp) as nat) as int;
    lemma_pow10_positive((MAX_SCALE - dp) as nat);
    if scale > dp {
        let k = (scale - dp) as nat;
        let p = pow10(k) as int;
        let f = pow10((MAX_SCALE - scale) as nat) as int;
        lemma_pow10_positive(k);
        lemma_pow10_positive((MAX_SCALE - scale) as nat);
        lemma_pow10_adds(k, (MAX_SCALE - scale) as nat);
        assert(k + (MAX_SCALE - scale) as nat == (MAX_SCALE - dp) as nat);
        assert(unit == p * f);
        let q = div_toward_zero(mantissa, p);
        if mantissa >= 0 {
            vstd::arithmetic::div_mod::lemma_fundamental_div_mod(mantissa, p);
            vstd::arithmetic::div_mod::lemma_mod_bound(mantissa, p);
            let rest = mantissa % p;
            assert(mantissa == p * q + rest);
            assert(mantissa * f - q * (p * f) == rest * f) by (nonlinear_arith)
                requires
                    mantissa == p * q + rest,
            ;
            assert(0 <= rest * f < p * f) by (nonlinear_arith)
                requires
                    0 <= rest < p,
                    f >= 1,
            ;
            assert(mantissa * f >= 0) by (nonlinear_arith)
                requires
                    mantissa >= 0,
                    f >= 1,
            ;
        } else {
            vstd::arithmetic::div_mod::lemma_fundamental_div_mod(-mantissa, p);
            vstd::arithmetic::div_mod::lemma_mod_bound(-mantissa, p);
            let rest = (-mantissa) % p;
            assert(-mantissa == p * (-q) + rest);
            assert(q * (p * f) - mantissa * f == rest * f) by (nonlinear_arith)
                requires
                    -mantissa == p * (-q) + rest,
            ;
            assert(0 <= rest * f < p * f) by (nonlinear_arith)
                requires
                    0 <= rest < p,
                    f >= 1,
            ;
            assert(mantissa * f < 0) by (nonlinear_arith)
                requires
                    mantissa < 0,
                    f >= 1,
            ;
        }
    }
}

/// A number cut to `dp` fractional digits is below zero exactly where the
/// number is as low as minus one unit of the last digit kept: what is nearer
/// to zero is cut to zero.
pub proof fn lemma_round_toward_zero_sign(mantissa: int, scale: nat, dp: nat)
    requires
        scale <= MAX_SCALE,
        dp <= MAX_SCALE,
    ensures
        parts_value(round_toward_zero(mantissa, scale, dp)) < 0 <==> parts_value((mantissa, scale))
            <= -pow10((MAX_SCALE - dp) as nat),
{
    let unit = pow10((MAX_SCALE - dp) as nat) as int;
    let f = pow10((MAX_SCALE - scale) as nat) as int;
    lemma_pow10_positive((MAX_SCALE - dp) as nat);
    lemma_pow10_positive((MAX_SCALE - scale) as nat);
    if scale <= dp {
        let g = pow10((dp - scale) as nat) as int;
        lemma_pow10_positive((dp - scale) as nat);
        lemma_pow10_adds((dp - scale) as nat, (MAX_SCALE - dp) as nat);
        assert((dp - scale) as nat + (MAX_SCALE - dp) as nat == (MAX_SCALE - scale) as nat);
        assert(f == g * unit);
        assert(mantissa < 0 ==> mantissa * f <= -unit) by (nonlinear_arith)
            requires
                f == g * unit,
                g >= 1,
                unit >= 1,
        ;
        assert(mantissa >= 0 ==> mantissa * f >= 0) by (nonlinear_arith)
            requires
                f >= 1,
        ;
    } else {
        let k = (scale - dp) as nat;
        let p = pow10(k) as int;
        lemma_pow10_positive(k);
        lemma_pow10_adds(k, (MAX_SCALE - scale) as nat);
        assert(k + (MAX_SCALE - scale) as nat == (MAX_SCALE - dp) as nat);
        assert(unit == p * f);
        let q = div_toward_zero(mantissa, p);
        if mantissa >= 0 {
            vstd::arithmetic::div_mod::lemma_div_pos_is_pos(mantissa, p);
            assert(q * unit >= 0) by (nonlinear_arith)
                requires
                    q >= 0,
                    unit >= 1,
            ;
            assert(mantissa * f >= 0) by (nonlinear_arith)
                requires
                    mantissa >= 0,
                    f >= 1,
            ;
        } else {
            let n = -mantissa;
            vstd::arithmetic::div_mod::lemma_fundamental_div_mod(n, p);
            vstd::arithmetic::div_mod::lemma_mod_bound(n, p);
            vstd::arithmetic::div_mod::lemma_div_pos_is_pos(n, p);
            let d = n / p;
            let rest = n % p;
            assert(n == p * d + rest);
            assert(q == -d);
            if d >= 1 {
                assert(q * unit < 0) by (nonlinear_arith)
                    requires
                        q <= -1,
                        unit >= 1,
                ;
                assert(n >= p) by (nonlinear_arith)
                    requires
                        n == p * d + rest,
                        d >= 1,
                        rest >= 0,
                        p >= 1,
                ;
                assert(mantissa * f <= -(p * f)) by (nonlinear_arith)
                    requires
                        mantissa <= -p,
                        f >= 1,
                ;
            } else {
                assert(d == 0);
                assert(q * unit == 0) by (nonlinear_arith)
                    requires
                        q == 0,
                ;
                assert(p * d == 0) by (nonlinear_arith)
                    requires
                        d == 0,
                ;
                assert(n < p);
                assert(mantissa * f > -(p * f)) by (nonlinear_arith)
                    requires
                        mantissa > -p,
                        f >= 1,
                ;
            }
        }
    }
}

/// The exact value of the number with these mantissa and scale, counted in
/// units of `10^-28`.
pub open spec fn parts_value(parts: (int, nat)) -> int {
    parts.0 * pow10((MAX_SCALE - parts.1) as nat)
}

/// What `rust_decimal` reads from a text: mantissa and scale, or nothing
/// where the text is no number it accepts.
pub uninterp spec fn decimal_of_text(text: Seq<char>) -> Option<(int, nat)>;

/// The text that `rust_decimal` writes for a mantissa and a scale.
pub uninterp spec fn decimal_text(mantissa: int, scale: nat) -> Seq<char>;

/// Mantissa and scale of what `rust_decimal` gives for the difference of two
/// numbers, or nothing where it reports an overflow.
pub uninterp spec fn decimal_difference(
    left_mantissa: int,
    left_scale: nat,
    right_mantissa: int,
    right_scale: nat,
) -> Option<(int, nat)>;

/// The number `mantissa / 10^scale`.
#[derive(Clone, Copy, Debug)]
pub struct Decimal {
    mantissa: i128,
    scale: u32,
}

impl Decimal {
    /// Mantissa and scale are within the limits of the representation. Every
    /// `Decimal` that a program holds is so.
    #[verifier::type_invariant]
    pub closed spec fn wf(self) -> bool {
        &&& self.scale <= MAX_SCALE
        &&& -MAX_MANTISSA <= self.mantissa <= MAX_MANTISSA
    }

    /// The mantissa.
    pub closed spec fn spec_mantissa(self) -> int {
        self.mantissa as int
    }

    /// The number of fractional digits.
    pub closed spec fn spec_scale(self) -> nat {
        self.scale as nat
    }

    /// Mantissa and scale together.
    pub open spec fn parts(self) -> (int, nat) {
        (self.spec_mantissa(), self.spec_scale())
    }

    /// The exact value, counted in units of `10^-28`.
    pub open spec fn value(self) -> int {
        parts_value(self.parts())
    }

    /// The decimal with this mantissa and scale, where both are within the
    /// limits of the representation.
    pub fn new(mantissa: i128, scale: u32) -> (r: Option<Decimal>)
        ensures
            r is Some <==> scale <= MAX_SCALE && -MAX_MANTISSA <= mantissa <= MAX_MANTISSA,
            r matches Some(d) ==> d.parts() == (mantissa as int, scale as nat),
    {
        if scale <= MAX_SCALE && -MAX_MANTISSA <= mantissa && mantissa <= MAX_MANTISSA {
            Some(Decimal { mantissa, scale })
        } else {
            None
        }
    }

    /// Zero, without fractional digits.
    pub fn zero() -> (r: Decimal)
        ensures
            r.parts() == (0int, 0nat),
            r.value() == 0,
    {
        Decimal { mantissa: 0, scale: 0 }
    }

    /// The largest decimal: `2^96 - 1`.
    pub fn max_value() -> (r: Decimal)
        ensures
            r.parts() == (MAX_MANTISSA as int, 0nat),
    {
        Decimal { mantissa: MAX_MANTISSA, scale: 0 }
    }

    /// The smallest decimal: `-(2^96 - 1)`.
    pub fn min_value() -> (r: Decimal)
        ensures
            r.parts() == (-(MAX_MANTISSA as int), 0nat),
    {
        Decimal { mantissa: -MAX_MANTISSA, scale: 0 }
    }

    /// The mantissa, which is within 96 bits.
    pub fn mantissa(&self) -> (m: i128)
        ensures
            m == self.spec_mantissa(),
            -MAX_MANTISSA <= m <= MAX_MANTISSA,
    {
        proof {
            use_type_invariant(self);
        }
        self.mantissa
    }

    /// The number of fractional digits, which is 28 at most.
    pub fn scale(&self) -> (s: u32)
        ensures
            s == self.spec_scale(),
            s <= MAX_SCALE,
    {
        proof {
            use_type_invariant(self);
        }
        self.scale
    }

    /// Reads a decimal from text, as `rust_decimal` does.
    pub fn from_str(text: &str) -> (r: Option<Decimal>)
        ensures
            r is Some <==> decimal_of_text(text@) is Some,
            r matches Some(d) ==> decimal_of_text(text@) == Some(d.parts()),
    {
        parse_decimal(text)
    }

    /// Writes the decimal as text, as `rust_decimal` does.
    pub fn to_string(&self) -> (r: String)
        ensures
            r@ == decimal_text(self.spec_mantissa(), self.spec_scale()),
    {
        format_decimal(self)
    }

    /// `self <= other`, by value.
    pub fn le(&self, other: &Decimal) -> (r: bool)
        ensures
            r == (self.value() <= other.value()),
    {
        decimal_le(self, other)
    }

    /// `self < other`, by value.
    pub fn lt(&self, other: &Decimal) -> (r: bool)
        ensures
            r == (self.value() < other.value()),
    {
        !decimal_le(other, self)
    }

    /// `self >= other`, by value.
    pub fn ge(&self, other: &Decimal) -> (r: bool)
        ensures
            r == (self.value() >= other.value()),
    {
        decimal_le(other, self)
    }

    /// `self > other`, by value.
    pub fn gt(&self, other: &Decimal) -> (r: bool)
        ensures
            r == (self.value() > other.value()),
    {
        !decimal_le(self, other)
    }

    /// Whether both stand for the same number, whatever their scales.
    pub fn same_value(&self, other: &Decimal) -> (r: bool)
        ensures
            r == (self.value() == other.value()),
    {
        decimal_le(self, other) && decimal_le(other, self)
    }

    /// Whether the number is below zero.
    pub fn is_negative(&self) -> (r: bool)
        ensures
            r == (self.value() < 0),
    {
        let zero = Decimal::zero();
        !decimal_le(&zero, self)
    }

    /// The decimal cut to at most `dp` fractional digits, toward zero.
    pub fn round_to_zero(&self, dp: u32) -> (r: Decimal)
        ensures
            r.parts() == round_toward_zero(self.spec_mantissa(), self.spec_scale(), dp as nat),
    {
        round_decimal(self, dp)
    }

    /// `self - other` as `rust_decimal` computes it; nothing on overflow.
    pub fn checked_sub(&self, other: &Decimal) -> (r: Option<Decimal>)
        ensures
            r is Some <==> decimal_difference(
                self.spec_mantissa(),
                self.spec_scale(),
                other.spec_mantissa(),
                other.spec_scale(),
            ) is Some,
            r matches Some(d) ==> decimal_difference(
                self.spec_mantissa(),
                self.spec_scale(),
                other.spec_mantissa(),
                other.spec_scale(),
            ) == Some(d.parts()),
    {
        subtract_decimal(self, other)
    }
}

impl PartialEq for Decimal {
    /// Equality by value: `1.0` equals `1.00`.
    fn eq(&self, other: &Decimal) -> (r: bool) {
        self.same_value(other)
    }
}

impl vstd::std_specs::cmp::PartialEqSpecImpl for Decimal {
    open spec fn obeys_eq_spec() -> bool {
        true
    }

    open spec fn eq_spec(&self, other: &Decimal) -> bool {
        self.value() == other.value()
    }
}

/// `<rust_decimal::Decimal as FromStr>::from_str`. The result depends on the
/// text alone; it is given as the mantissa and the scale of the number read,
/// which `rust_decimal` keeps within 96 bits and 28 digits.
#[verifier::external_body]
fn parse_decimal(text: &str) -> (r: Option<Decimal>)
    ensures
        r is Some <==> decimal_of_text(text@) is Some,
        r matches Some(d) ==> decimal_of_text(text@) == Some(d.parts()) && d.wf(),
{
    match text.parse::<rust_decimal::Decimal>() {
        Ok(d) => Some(Decimal { mantissa: d.mantissa(), scale: d.scale() }),
        Err(_) => None,
    }
}

/// `rust_decimal::Decimal::to_string`, on the number that
/// `rust_decimal::Decimal::from_i128_with_scale` makes of the mantissa and the
/// scale of `d`, both of which are within its limits. The text depends on
/// these two alone.
#[verifier::external_body]
fn format_decimal(d: &Decimal) -> (r: String)
    ensures
        r@ == decimal_text(d.spec_mantissa(), d.spec_scale()),
{
    rust_decimal::Decimal::from_i128_with_scale(d.mantissa, d.scale).to_string()
}

/// `<=` of `rust_decimal::Decimal`, on the numbers that
/// `rust_decimal::Decimal::from_i128_with_scale` makes of the two. It orders
/// decimals by their value: it brings both to one scale and compares the
/// mantissas, and where the smaller scale cannot be raised within 96 bits that
/// number is the larger one.
#[verifier::external_body]
fn decimal_le(a: &Decimal, b: &Decimal) -> (r: bool)
    ensures
        r == (a.value() <= b.value()),
{
    let x = rust_decimal::Decimal::from_i128_with_scale(a.mantissa, a.scale);
    let y = rust_decimal::Decimal::from_i128_with_scale(b.mantissa, b.scale);
    x <= y
}

/// `rust_decimal::Decimal::round_dp_with_strategy` with
/// `RoundingStrategy::ToZero`. A number of at most `dp` fractional digits
/// comes back unchanged; of any other the magnitude of the mantissa is divided
/// by the power of ten of the surplus digits, the remainder dropped, the sign
/// kept and the scale set to `dp`. The result is within the limits of a
/// decimal, as every number of `rust_decimal` is.
#[verifier::external_body]
fn round_decimal(d: &Decimal, dp: u32) -> (r: Decimal)
    ensures
        r.parts() == round_toward_zero(d.spec_mantissa(), d.spec_scale(), dp as nat),
        r.wf(),
{
    let x = rust_decimal::Decimal::from_i128_with_scale(d.mantissa, d.scale);
    let y = x.round_dp_with_strategy(dp, rust_decimal::RoundingStrategy::ToZero);
    Decimal { mantissa: y.mantissa(), scale: y.scale() }
}

/// `rust_decimal::Decimal::checked_sub`. The result depends on the mantissas
/// and scales of the two numbers alone, and is within the limits of a decimal,
/// as every number of `rust_decimal` is.
#[verifier::external_body]
fn subtract_decimal(a: &Decimal, b: &Decimal) -> (r: Option<Decimal>)
    ensures
        r is Some <==> decimal_difference(
            a.spec_mantissa(),
            a.spec_scale(),
            b.spec_mantissa(),
            b.spec_scale(),
        ) is Some,
        r matches Some(d) ==> d.wf() && decimal_difference(
            a.spec_mantissa(),
            a.spec_scale(),
            b.spec_mantissa(),
            b.spec_scale(),
        ) == Some(d.parts()),
{
    let x = rust_decimal::Decimal::from_i128_with_scale(a.mantissa, a.scale);
    let y = rust_decimal::Decimal::from_i128_with_scale(b.mantissa, b.scale);
    match x.checked_sub(y) {
        Some(d) => Some(Decimal { mantissa: d.mantissa(), scale: d.scale() }),
        None => None,
    }
}

} // verus!
