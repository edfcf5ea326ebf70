//! Exact decimal numbers: an integer mantissa and a count of fractional digits.
use vstd::prelude::*;

verus! {

/// Largest number of fractional digits a [`Decimal`] carries. `10^18` is the
/// largest power of ten that fits in 63 bits.
pub const MAX_SCALE: u8 = 18;

/// `10^n`.
pub open spec fn pow10(n: nat) -> int
    decreases n,
{
    if n == 0 {
        1
    } else {
        10 * pow10((n - 1) as nat)
    }
}

/// The number a [`Decimal`] stands for: `mantissa / 10^scale`.
pub struct DecimalValue {
    pub mantissa: int,
    pub scale: nat,
}

impl DecimalValue {
    /// Two representations denote the same number: `12.50` and `12.5` do.
    pub open spec fn same_value(self, other: DecimalValue) -> bool {
        self.mantissa * pow10(other.scale) == other.mantissa * pow10(self.scale)
    }
}

/// A decimal number with at most [`MAX_SCALE`] fractional digits.
#[derive(Clone, Copy, Debug, PartialEq, Eq)]
pub struct Decimal {
    mantissa: i64,
    scale: u8,
}

impl View for Decimal {
    type V = DecimalValue;

    closed spec fn view(&self) -> DecimalValue {
        DecimalValue { mantissa: self.mantissa as int, scale: self.scale as nat }
    }
}

/// `pow10` is positive and grows with its argument.
pub proof fn lemma_pow10_monotonic(a: nat, b: nat)
    requires
        a <= b,
    ensures
        1 <= pow10(a) <= pow10(b),
    decreases b,
{
    if b == 0 {
    } else if a == b {
        lemma_pow10_monotonic(0, (b - 1) as nat);
    } else {
        lemma_pow10_monotonic(a, (b - 1) as nat);
    }
}

/// Powers of ten multiply as their exponents add.
pub proof fn lemma_pow10_add(a: nat, b: nat)
    ensures
        pow10(a + b) == pow10(a) * pow10(b),
    decreases b,
{
    if b == 0 {
        assert(pow10(a) * 1 == pow10(a));
    } else {
        lemma_pow10_add(a, (b - 1) as nat);
        assert(pow10(a + b) == 10 * pow10((a + b - 1) as nat));
        assert(10 * (pow10(a) * pow10((b - 1) as nat)) == pow10(a) * (10 * pow10((b - 1) as nat)))
            by (nonlinear_arith);
    }
}

/// The largest power of ten a scale can call for.
pub proof fn lemma_pow10_max()
    ensures
        pow10(MAX_SCALE as nat) == 1_000_000_000_000_000_000,
{
    reveal_with_fuel(pow10, 19);
}

/// `10^scale` for a scale a [`Decimal`] can have.
pub(crate) fn pow10_i128(scale: u8) -> (r: i128)
    requires
        scale <= MAX_SCALE,
    ensures
        r == pow10(scale as nat),
        1 <= r <= 1_000_000_000_000_000_000,
{
    let mut r: i128 = 1;
    let mut i: u8 = 0;
    while i < scale
        invariant
            i <= scale <= MAX_SCALE,
            r == pow10(i as nat),
            1 <= r <= 1_000_000_000_000_000_000,
        decreases scale - i,
    {
        proof {
            lemma_pow10_monotonic((i + 1) as nat, MAX_SCALE as nat);
            lemma_pow10_max();
        }
        r = r * 10;
        i = i + 1;
    }
    r
}

impl Decimal {
    #[verifier::type_invariant]
    spec fn scale_in_range(&self) -> bool {
        self.scale <= MAX_SCALE
    }

    /// The decimal `mantissa / 10^scale`, or `None` where `scale` exceeds
    /// [`MAX_SCALE`].
    pub fn new(mantissa: i64, scale: u8) -> (r: Option<Decimal>)
        ensures
            r is Some <==> scale <= MAX_SCALE,
            r matches Some(d) ==> d@ == (DecimalValue {
                mantissa: mantissa as int,
                scale: scale as nat,
            }),
    {
        if scale <= MAX_SCALE {
            Some(Decimal { mantissa, scale })
        } else {
            None
        }
    }

    /// The whole number `n`.
    pub fn from_int(n: i64) -> (d: Decimal)
        ensures
            d@ == (DecimalValue { mantissa: n as int, scale: 0 }),
    {
        Decimal { mantissa: n, scale: 0 }
    }

    /// The decimal with the scale of `self` and the mantissa `mantissa`.
    pub fn with_mantissa(&self, mantissa: i64) -> (d: Decimal)
        ensures
            d@ == (DecimalValue { mantissa: mantissa as int, scale: self@.scale }),
    {
        proof {
            use_type_invariant(self);
        }
        Decimal { mantissa, scale: self.scale }
    }

    pub fn mantissa(&self) -> (m: i64)
        ensures
            m == self@.mantissa,
    {
        self.mantissa
    }

    pub fn scale(&self) -> (s: u8)
        ensures
            s == self@.scale,
            s <= MAX_SCALE,
    {
        proof {
            use_type_invariant(self);
        }
        self.scale
    }

    /// Whether two decimals denote the same number, whatever their scales.
    pub fn same_value(&self, other: &Decimal) -> (b: bool)
        ensures
            b == self@.same_value(other@),
    {
        let lhs_scale = self.scale();
        let rhs_scale = other.scale();
        let lhs_pow = pow10_i128(rhs_scale);
        let rhs_pow = pow10_i128(lhs_scale);
        assert(-0x8000_0000_0000_0000 * 1_000_000_000_000_000_000 <= self.mantissa * lhs_pow
            <= 0x8000_0000_0000_0000 * 1_000_000_000_000_000_000) by (nonlinear_arith)
            requires
                -0x8000_0000_0000_0000 <= self.mantissa < 0x8000_0000_0000_0000,
                1 <= lhs_pow <= 1_000_000_000_000_000_000,
        ;
        assert(-0x8000_0000_0000_0000 * 1_000_000_000_000_000_000 <= other.mantissa * rhs_pow
            <= 0x8000_0000_0000_0000 * 1_000_000_000_000_000_000) by (nonlinear_arith)
            requires
                -0x8000_0000_0000_0000 <= other.mantissa < 0x8000_0000_0000_0000,
                1 <= rhs_pow <= 1_000_000_000_000_000_000,
        ;
        (self.mantissa as i128) * lhs_pow == (other.mantissa as i128) * rhs_pow
    }
}

} // verus!
