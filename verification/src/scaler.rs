//! Conversion between exact decimals and integer ticks.
//!
//! A tick counts granules: tick sizes for a price, step sizes for a
//! quantity. The conversion works on integers only, so a value that is a
//! multiple of its granule comes back unchanged.
use crate::decimal::{lemma_pow10_add, lemma_pow10_monotonic, pow10, pow10_i128, Decimal, DecimalValue};
use vstd::arithmetic::div_mod::{
    lemma_fundamental_div_mod, lemma_fundamental_div_mod_converse, lemma_mod_pos_bound,
};
use vstd::prelude::*;

verus! {

/// A tolerance counts billionths of a granule.
pub const TOLERANCE_UNIT: u32 = 1_000_000_000;

/// Half a granule as a tolerance. No value stands farther from a whole
/// number of granules, so this tolerance and any above it take every value.
pub const HALF_GRANULE: u32 = 500_000_000;

/// What becomes of a value that stands outside the tolerance.
#[derive(Clone, Copy, Debug, PartialEq, Eq)]
pub enum OffGrid {
    /// The value is refused.
    Reject,
    /// The value goes to the next whole number of granules downwards.
    Floor,
}

/// How values are brought to whole ticks. A value within `tolerance` of a
/// whole number of granules goes to that number, the nearest one, where a
/// value half-way between two goes away from zero. Any other value is dealt
/// with as `off_grid` says.
#[derive(Clone, Copy, Debug, PartialEq, Eq)]
pub struct Policy {
    /// How far from a whole number of granules a value may stand, in
    /// billionths of a granule.
    pub tolerance: u32,
    pub off_grid: OffGrid,
}

impl Policy {
    pub open spec fn nearest_spec() -> Policy {
        Policy { tolerance: HALF_GRANULE, off_grid: OffGrid::Reject }
    }

    /// Every value goes to the nearest tick.
    #[verifier::when_used_as_spec(nearest_spec)]
    pub fn nearest() -> (p: Policy)
        ensures
            p == Policy::nearest_spec(),
    {
        Policy { tolerance: HALF_GRANULE, off_grid: OffGrid::Reject }
    }

    /// Only whole numbers of granules have a tick.
    pub fn exact() -> (p: Policy)
        ensures
            p == (Policy { tolerance: 0, off_grid: OffGrid::Reject }),
    {
        Policy { tolerance: 0, off_grid: OffGrid::Reject }
    }

    /// Every value goes to the tick at or below it.
    pub fn floor() -> (p: Policy)
        ensures
            p == (Policy { tolerance: 0, off_grid: OffGrid::Floor }),
    {
        Policy { tolerance: 0, off_grid: OffGrid::Floor }
    }
}

/// Why a scaling operation failed.
#[derive(Clone, Copy, Debug, PartialEq, Eq)]
pub enum ScaleError {
    /// A tick size or step size that is not above zero.
    InvalidGranularity,
    /// A value that has no tick under the policy in force, or whose tick or
    /// decimal does not fit in 64 bits.
    UnscalableValue,
}

/// `|x|`.
pub open spec fn magnitude(x: int) -> int {
    if x < 0 {
        -x
    } else {
        x
    }
}

/// The smaller of the two scales.
pub open spec fn shared_scale(value: DecimalValue, granule: DecimalValue) -> nat {
    if value.scale <= granule.scale {
        value.scale
    } else {
        granule.scale
    }
}

/// The numerator of `value / granule` as a fraction of whole numbers.
pub open spec fn ratio_num(value: DecimalValue, granule: DecimalValue) -> int {
    value.mantissa * pow10((granule.scale - shared_scale(value, granule)) as nat)
}

/// The denominator of `value / granule` as a fraction of whole numbers.
pub open spec fn ratio_den(value: DecimalValue, granule: DecimalValue) -> int {
    granule.mantissa * pow10((value.scale - shared_scale(value, granule)) as nat)
}

/// `value` is a whole number of granules.
pub open spec fn is_multiple(value: DecimalValue, granule: DecimalValue) -> bool {
    magnitude(ratio_num(value, granule)) % ratio_den(value, granule) == 0
}

/// The whole number nearest to `num / den`, for `den > 0`; from half-way
/// between two, the one farther from zero.
pub open spec fn nearest_whole(num: int, den: int) -> int {
    let half_up = (2 * magnitude(num) + den) / (2 * den);
    if num < 0 {
        -half_up
    } else {
        half_up
    }
}

/// The largest whole number not above `num / den`, for `den > 0`.
pub open spec fn floor_whole(num: int, den: int) -> int {
    let a = magnitude(num);
    if num >= 0 {
        a / den
    } else if a % den == 0 {
        -(a / den)
    } else {
        -(a / den) - 1
    }
}

/// `num / den` stands no farther than `tolerance` from the whole number
/// nearest to it.
pub open spec fn within_tolerance(num: int, den: int, tolerance: u32) -> bool {
    TOLERANCE_UNIT * magnitude(num - nearest_whole(num, den) * den) <= tolerance * den
}

/// `num / den` as a whole number under `policy`, for `den > 0`; `None`
/// where the policy refuses it.
pub open spec fn rounded(num: int, den: int, policy: Policy) -> Option<int> {
    if within_tolerance(num, den, policy.tolerance) {
        Some(nearest_whole(num, den))
    } else {
        match policy.off_grid {
            OffGrid::Reject => None,
            OffGrid::Floor => Some(floor_whole(num, den)),
        }
    }
}

/// The tick of `value` in granules of `granule`, where it has one that fits
/// in 64 bits.
pub open spec fn ticks_of(value: DecimalValue, granule: DecimalValue, policy: Policy) -> Option<
    i64,
> {
    match rounded(ratio_num(value, granule), ratio_den(value, granule), policy) {
        Some(t) => if i64::MIN <= t <= i64::MAX {
            Some(t as i64)
        } else {
            None
        },
        None => None,
    }
}

/// The number that `ticks` granules come to.
pub open spec fn value_of(ticks: int, granule: DecimalValue) -> DecimalValue {
    DecimalValue { mantissa: ticks * granule.mantissa, scale: granule.scale }
}

/// The state of a [`Scaler`] as plain values.
pub struct ScalerView {
    pub tick_size: DecimalValue,
    pub step_size: DecimalValue,
    pub policy: Policy,
}

impl ScalerView {
    pub open spec fn price_ticks(self, price: DecimalValue) -> Option<i64> {
        ticks_of(price, self.tick_size, self.policy)
    }

    pub open spec fn qty_ticks(self, qty: DecimalValue) -> Option<i64> {
        ticks_of(qty, self.step_size, self.policy)
    }

    /// The ticks of one `(price, quantity)` level, where both have one.
    pub open spec fn level_ticks(self, level: (Decimal, Decimal)) -> Option<(i64, i64)> {
        match (self.price_ticks(level.0@), self.qty_ticks(level.1@)) {
            (Some(p), Some(q)) => Some((p, q)),
            _ => None,
        }
    }

    /// The ticks of every level, in order, where every level has them.
    pub open spec fn levels_ticks(self, levels: Seq<(Decimal, Decimal)>) -> Option<
        Seq<(i64, i64)>,
    > {
        if forall|i: int| 0 <= i < levels.len() ==> self.level_ticks(#[trigger] levels[i]) is Some {
            Some(Seq::new(levels.len(), |i: int| self.level_ticks(levels[i])->0))
        } else {
            None
        }
    }

    /// Both numbers of a tick level fit a [`Decimal`].
    pub open spec fn level_fits(self, level: (i64, i64)) -> bool {
        &&& i64::MIN <= level.0 * self.tick_size.mantissa <= i64::MAX
        &&& i64::MIN <= level.1 * self.step_size.mantissa <= i64::MAX
    }
}

/// The denominator of a ratio is above zero where the granule is.
proof fn lemma_ratio_den_positive(value: DecimalValue, granule: DecimalValue)
    requires
        granule.mantissa > 0,
    ensures
        ratio_den(value, granule) > 0,
{
    let e = (value.scale - shared_scale(value, granule)) as nat;
    lemma_pow10_monotonic(e, e);
    assert(granule.mantissa * pow10(e) > 0) by (nonlinear_arith)
        requires
            granule.mantissa > 0,
            pow10(e) >= 1,
    ;
}

/// A tick times the denominator, against the numerator, is the tick's value
/// against the value itself, both brought to one scale.
proof fn lemma_ratio_scales(value: DecimalValue, granule: DecimalValue, t: int)
    ensures
        value.mantissa * pow10(granule.scale) - (t * granule.mantissa) * pow10(value.scale) == (
        ratio_num(value, granule) - t * ratio_den(value, granule)) * pow10(
            shared_scale(value, granule),
        ),
        pow10(shared_scale(value, granule)) >= 1,
        granule.mantissa * pow10(value.scale) == ratio_den(value, granule) * pow10(
            shared_scale(value, granule),
        ),
{
    let shared = shared_scale(value, granule);
    let up = (granule.scale - shared) as nat;
    let down = (value.scale - shared) as nat;
    lemma_pow10_add(up, shared);
    lemma_pow10_add(down, shared);
    lemma_pow10_monotonic(shared, shared);
    assert(up + shared == granule.scale);
    assert(down + shared == value.scale);
    let c = pow10(shared);
    let pu = pow10(up);
    let pd = pow10(down);
    let vm = value.mantissa;
    let gm = granule.mantissa;
    assert(vm * (pu * c) == (vm * pu) * c) by (nonlinear_arith);
    assert(gm * (pd * c) == (gm * pd) * c) by (nonlinear_arith);
    let den = gm * pd;
    assert((t * gm) * (pd * c) == (t * den) * c) by (nonlinear_arith)
        requires
            den == gm * pd,
    ;
    let x = vm * pu;
    let y = t * den;
    assert(x * c - y * c == (x - y) * c) by (nonlinear_arith);
}

/// The nearest whole number stands at most half a unit from the quotient,
/// and no farther from it than the quotient stands from zero. A whole
/// quotient is its own nearest whole number.
pub proof fn lemma_nearest_whole(num: int, den: int)
    requires
        den > 0,
    ensures
        2 * magnitude(num - nearest_whole(num, den) * den) <= den,
        magnitude(num - nearest_whole(num, den) * den) <= magnitude(num),
        magnitude(num) % den == 0 ==> nearest_whole(num, den) * den == num,
        magnitude(num) % den == 0 ==> nearest_whole(num, den) == floor_whole(num, den),
        magnitude(num) % den != 0 ==> nearest_whole(num, den) * den != num,
{
    let a = magnitude(num);
    let h = (2 * a + den) / (2 * den);
    let hr = (2 * a + den) % (2 * den);
    lemma_fundamental_div_mod(2 * a + den, 2 * den);
    lemma_mod_pos_bound(2 * a + den, 2 * den);
    lemma_fundamental_div_mod(a, den);
    lemma_mod_pos_bound(a, den);
    let t = nearest_whole(num, den);
    assert(h >= 0 && (h >= 1 ==> den <= 2 * a)) by (nonlinear_arith)
        requires
            2 * a + den == (2 * den) * h + hr,
            0 <= hr < 2 * den,
            0 <= a,
            den > 0,
    ;
    assert(2 * (a - h * den) == hr - den) by (nonlinear_arith)
        requires
            2 * a + den == (2 * den) * h + hr,
    ;
    assert(magnitude(num - t * den) == magnitude(a - h * den)) by (nonlinear_arith)
        requires
            a == magnitude(num),
            t == if num < 0 {
                -h
            } else {
                h
            },
    ;
    if h == 0 {
        assert(a - h * den == a) by (nonlinear_arith)
            requires
                h == 0,
        ;
    }
    if a % den == 0 {
        let w = a / den;
        assert(2 * a + den == w * (2 * den) + den) by (nonlinear_arith)
            requires
                a == den * w + 0,
        ;
        lemma_fundamental_div_mod_converse(2 * a + den, 2 * den, w, den);
        assert(t * den == num) by (nonlinear_arith)
            requires
                a == den * w + 0,
                a == magnitude(num),
                t == if num < 0 {
                    -w
                } else {
                    w
                },
        ;
    } else {
        if t * den == num {
            assert(a == h * den) by (nonlinear_arith)
                requires
                    t * den == num,
                    a == magnitude(num),
                    t == if num < 0 {
                        -h
                    } else {
                        h
                    },
            ;
            lemma_fundamental_div_mod_converse(a, den, h, 0);
        }
    }
}

/// The floor stands below the quotient by less than a unit, and never above.
pub proof fn lemma_floor_whole(num: int, den: int)
    requires
        den > 0,
    ensures
        0 <= num - floor_whole(num, den) * den < den,
{
    let a = magnitude(num);
    let q = a / den;
    let r = a % den;
    lemma_fundamental_div_mod(a, den);
    lemma_mod_pos_bound(a, den);
    let t = floor_whole(num, den);
    assert(0 <= num - t * den < den) by (nonlinear_arith)
        requires
            a == den * q + r,
            0 <= r < den,
            a == magnitude(num),
            t == if num >= 0 {
                q
            } else if r == 0 {
                -q
            } else {
                -q - 1
            },
    ;
}

/// A tolerance of half a granule or more takes every value.
pub proof fn lemma_half_granule_takes_all(num: int, den: int, tolerance: u32)
    requires
        den > 0,
        tolerance >= HALF_GRANULE,
    ensures
        within_tolerance(num, den, tolerance),
{
    lemma_nearest_whole(num, den);
    let off = magnitude(num - nearest_whole(num, den) * den);
    assert(TOLERANCE_UNIT * off <= tolerance * den) by (nonlinear_arith)
        requires
            2 * off <= den,
            tolerance >= 500_000_000,
            TOLERANCE_UNIT == 1_000_000_000,
            den > 0,
            off >= 0,
    ;
}

/// What a policy makes of a quotient. A whole quotient is kept under every
/// policy. A tick that the policy gives stands within the tolerance and at
/// most half a unit from the quotient, or, where the policy floors, below
/// it by less than a unit. A quotient is refused exactly when it stands
/// outside the tolerance and the policy rejects such.
pub proof fn lemma_rounding_error(num: int, den: int, policy: Policy)
    requires
        den > 0,
    ensures
        magnitude(num) % den == 0 ==> (rounded(num, den, policy) matches Some(t) && t * den == num),
        rounded(num, den, policy) matches Some(t) ==> {
            ||| TOLERANCE_UNIT * magnitude(num - t * den) <= policy.tolerance * den && 2
                * magnitude(num - t * den) <= den
            ||| policy.off_grid is Floor && 0 <= num - t * den < den
        },
        rounded(num, den, policy) is None <==> policy.off_grid is Reject && !within_tolerance(
            num,
            den,
            policy.tolerance,
        ),
{
    lemma_nearest_whole(num, den);
    lemma_floor_whole(num, den);
    if magnitude(num) % den == 0 {
        assert(policy.tolerance * den >= 0) by (nonlinear_arith)
            requires
                policy.tolerance >= 0,
                den > 0,
        ;
    }
}

/// A value that is a whole number of granules has that number as its tick
/// under every policy, and the tick comes to the value again.
pub proof fn lemma_round_trip(value: DecimalValue, granule: DecimalValue, policy: Policy)
    requires
        granule.mantissa > 0,
        is_multiple(value, granule),
    ensures
        rounded(ratio_num(value, granule), ratio_den(value, granule), policy) matches Some(t)
            && value_of(t, granule).same_value(value),
        ticks_of(value, granule, policy) matches Some(t) ==> value_of(
            t as int,
            granule,
        ).same_value(value),
{
    let num = ratio_num(value, granule);
    let den = ratio_den(value, granule);
    lemma_ratio_den_positive(value, granule);
    lemma_rounding_error(num, den, policy);
    let t = rounded(num, den, policy)->0;
    lemma_ratio_scales(value, granule, t);
    assert((num - t * den) * pow10(shared_scale(value, granule)) == 0) by (nonlinear_arith)
        requires
            t * den == num,
    ;
}

/// A tick reproduces its value to the granule's precision: brought to one
/// scale, the value and what its tick comes to differ by at most half a
/// granule where the value was within the tolerance, and by less than a
/// granule, the value never the smaller one, where it was floored.
pub proof fn lemma_tick_precision(value: DecimalValue, granule: DecimalValue, policy: Policy)
    requires
        granule.mantissa > 0,
    ensures
        rounded(ratio_num(value, granule), ratio_den(value, granule), policy) matches Some(t) ==> {
            let back = value_of(t, granule);
            let gap = value.mantissa * pow10(back.scale) - back.mantissa * pow10(value.scale);
            let whole = granule.mantissa * pow10(value.scale);
            ||| 2 * magnitude(gap) <= whole
            ||| policy.off_grid is Floor && 0 <= gap < whole
        },
{
    let num = ratio_num(value, granule);
    let den = ratio_den(value, granule);
    lemma_ratio_den_positive(value, granule);
    lemma_rounding_error(num, den, policy);
    if rounded(num, den, policy) is Some {
        let t = rounded(num, den, policy)->0;
        lemma_ratio_scales(value, granule, t);
        let c = pow10(shared_scale(value, granule));
        let off = num - t * den;
        assert(magnitude(off * c) == magnitude(off) * c) by (nonlinear_arith)
            requires
                c >= 1,
        ;
        if 2 * magnitude(off) <= den {
            assert(2 * (magnitude(off) * c) <= den * c) by (nonlinear_arith)
                requires
                    2 * magnitude(off) <= den,
                    c >= 1,
            ;
        } else {
            assert(0 <= off * c < den * c) by (nonlinear_arith)
                requires
                    0 <= off < den,
                    c >= 1,
            ;
        }
    }
}

/// The tick of `value` in granules of `granule`.
fn to_ticks(value: &Decimal, granule: &Decimal, policy: Policy) -> (r: Result<i64, ScaleError>)
    requires
        granule@.mantissa > 0,
    ensures
        r == (match ticks_of(value@, granule@, policy) {
            Some(t) => Ok::<i64, ScaleError>(t),
            None => Err::<i64, ScaleError>(ScaleError::UnscalableValue),
        }),
{
    let value_mantissa = value.mantissa();
    let granule_mantissa = granule.mantissa();
    let value_scale = value.scale();
    let granule_scale = granule.scale();
    let (num_pow, den_pow): (i128, i128) = if value_scale <= granule_scale {
        (pow10_i128(granule_scale - value_scale), 1)
    } else {
        (1, pow10_i128(value_scale - granule_scale))
    };
    assert(-0x8000_0000_0000_0000 * 1_000_000_000_000_000_000 <= value_mantissa * num_pow
        <= 0x8000_0000_0000_0000 * 1_000_000_000_000_000_000) by (nonlinear_arith)
        requires
            -0x8000_0000_0000_0000 <= value_mantissa < 0x8000_0000_0000_0000,
            1 <= num_pow <= 1_000_000_000_000_000_000,
    ;
    assert(1 <= granule_mantissa * den_pow <= 0x8000_0000_0000_0000 * 1_000_000_000_000_000_000)
        by (nonlinear_arith)
        requires
            1 <= granule_mantissa < 0x8000_0000_0000_0000,
            1 <= den_pow <= 1_000_000_000_000_000_000,
    ;
    let num: i128 = (value_mantissa as i128) * num_pow;
    let den: i128 = (granule_mantissa as i128) * den_pow;
    assert(num == ratio_num(value@, granule@));
    assert(den == ratio_den(value@, granule@));
    let negative = num < 0;
    let a: i128 = if negative {
        -num
    } else {
        num
    };
    let whole: i128 = a / den;
    let near: i128 = (2 * a + den) / (2 * den);
    proof {
        let rest = a % den;
        lemma_nearest_whole(num as int, den as int);
        lemma_floor_whole(num as int, den as int);
        lemma_fundamental_div_mod(a as int, den as int);
        lemma_mod_pos_bound(a as int, den as int);
        lemma_fundamental_div_mod(2 * a + den, 2 * den);
        lemma_mod_pos_bound(2 * a + den, 2 * den);
        let hr = (2 * a + den) % (2 * den);
        assert(0 <= whole <= a) by (nonlinear_arith)
            requires
                a == den * whole + rest,
                0 <= rest < den,
                0 <= a,
                den >= 1,
        ;
        assert(0 <= near <= a + 1 && 0 <= near * den <= 2 * a + den) by (nonlinear_arith)
            requires
                2 * a + den == (2 * den) * near + hr,
                0 <= hr < 2 * den,
                0 <= a,
                den >= 1,
        ;
    }
    let back: i128 = near * den;
    let off: i128 = if back >= a {
        back - a
    } else {
        a - back
    };
    proof {
        assert(off == magnitude(num - nearest_whole(num as int, den as int) * den)) by (nonlinear_arith)
            requires
                back == near * den,
                off == magnitude(back - a),
                a == magnitude(num as int),
                nearest_whole(num as int, den as int) == if num < 0 {
                    -(near as int)
                } else {
                    near as int
                },
        ;
        // Either the denominator or the numerator is a 64-bit mantissa.
        assert(off <= 0x8000_0000_0000_0000);
    }
    let within = match (policy.tolerance as i128).checked_mul(den) {
        Some(limit) => 1_000_000_000 * off <= limit,
        None => true,
    };
    assert(within == within_tolerance(num as int, den as int, policy.tolerance));
    let size: i128 = if within {
        near
    } else {
        match policy.off_grid {
            OffGrid::Reject => {
                return Err(ScaleError::UnscalableValue);
            },
            OffGrid::Floor => if negative {
                whole + 1
            } else {
                whole
            },
        }
    };
    let ticks: i128 = if negative {
        -size
    } else {
        size
    };
    assert(Some(ticks as int) == rounded(num as int, den as int, policy));
    if ticks < -0x8000_0000_0000_0000 || ticks > 0x7fff_ffff_ffff_ffff {
        Err(ScaleError::UnscalableValue)
    } else {
        Ok(ticks as i64)
    }
}

/// The decimal that `ticks` granules come to.
fn from_ticks(ticks: i64, granule: &Decimal) -> (r: Result<Decimal, ScaleError>)
    ensures
        r is Ok <==> i64::MIN <= ticks * granule@.mantissa <= i64::MAX,
        r matches Ok(d) ==> d@ == value_of(ticks as int, granule@),
        r matches Err(e) ==> e == ScaleError::UnscalableValue,
{
    let granule_mantissa = granule.mantissa();
    assert(-0x8000_0000_0000_0000 * 0x8000_0000_0000_0000 <= ticks * granule_mantissa
        <= 0x8000_0000_0000_0000 * 0x8000_0000_0000_0000) by (nonlinear_arith)
        requires
            -0x8000_0000_0000_0000 <= ticks < 0x8000_0000_0000_0000,
            -0x8000_0000_0000_0000 <= granule_mantissa < 0x8000_0000_0000_0000,
    ;
    let product: i128 = (ticks as i128) * (granule_mantissa as i128);
    if product < -0x8000_0000_0000_0000 || product > 0x7fff_ffff_ffff_ffff {
        Err(ScaleError::UnscalableValue)
    } else {
        Ok(granule.with_mantissa(product as i64))
    }
}

/// Converts prices by a tick size and quantities by a step size.
#[derive(Clone, Copy, Debug)]
pub struct Scaler {
    tick_size: Decimal,
    step_size: Decimal,
    policy: Policy,
}

impl View for Scaler {
    type V = ScalerView;

    closed spec fn view(&self) -> ScalerView {
        ScalerView {
            tick_size: self.tick_size@,
            step_size: self.step_size@,
            policy: self.policy,
        }
    }
}

impl Scaler {
    #[verifier::type_invariant]
    spec fn granules_positive(&self) -> bool {
        self.tick_size@.mantissa > 0 && self.step_size@.mantissa > 0
    }

    /// A scaler that rounds every value to the nearest tick, as
    /// [`Policy::nearest`] says. Fails where a granularity is zero or below.
    pub fn new(tick_size: Decimal, step_size: Decimal) -> (r: Result<Scaler, ScaleError>)
        ensures
            r is Ok <==> tick_size@.mantissa > 0 && step_size@.mantissa > 0,
            r matches Ok(s) ==> s@ == (ScalerView {
                tick_size: tick_size@,
                step_size: step_size@,
                policy: Policy::nearest_spec(),
            }),
            r matches Err(e) ==> e == ScaleError::InvalidGranularity,
    {
        Scaler::with_policy(tick_size, step_size, Policy::nearest())
    }

    /// A scaler with the policy named. Fails where a granularity is zero or
    /// below.
    pub fn with_policy(tick_size: Decimal, step_size: Decimal, policy: Policy) -> (r: Result<
        Scaler,
        ScaleError,
    >)
        ensures
            r is Ok <==> tick_size@.mantissa > 0 && step_size@.mantissa > 0,
            r matches Ok(s) ==> s@ == (ScalerView {
                tick_size: tick_size@,
                step_size: step_size@,
                policy,
            }),
            r matches Err(e) ==> e == ScaleError::InvalidGranularity,
    {
        if tick_size.mantissa() <= 0 || step_size.mantissa() <= 0 {
            Err(ScaleError::InvalidGranularity)
        } else {
            Ok(Scaler { tick_size, step_size, policy })
        }
    }

    pub fn tick_size(&self) -> (d: Decimal)
        ensures
            d@ == self@.tick_size,
            d@.mantissa > 0,
    {
        proof {
            use_type_invariant(self);
        }
        self.tick_size
    }

    pub fn step_size(&self) -> (d: Decimal)
        ensures
            d@ == self@.step_size,
            d@.mantissa > 0,
    {
        proof {
            use_type_invariant(self);
        }
        self.step_size
    }

    pub fn policy(&self) -> (p: Policy)
        ensures
            p == self@.policy,
    {
        self.policy
    }

    /// The price in ticks: `price / tick_size` as a whole number.
    pub fn price_to_ticks(&self, price: &Decimal) -> (r: Result<i64, ScaleError>)
        ensures
            r == (match self@.price_ticks(price@) {
                Some(t) => Ok::<i64, ScaleError>(t),
                None => Err::<i64, ScaleError>(ScaleError::UnscalableValue),
            }),
    {
        proof {
            use_type_invariant(self);
        }
        to_ticks(price, &self.tick_size, self.policy)
    }

    /// The quantity in ticks: `qty / step_size` as a whole number.
    pub fn qty_to_ticks(&self, qty: &Decimal) -> (r: Result<i64, ScaleError>)
        ensures
            r == (match self@.qty_ticks(qty@) {
                Some(t) => Ok::<i64, ScaleError>(t),
                None => Err::<i64, ScaleError>(ScaleError::UnscalableValue),
            }),
    {
        proof {
            use_type_invariant(self);
        }
        to_ticks(qty, &self.step_size, self.policy)
    }

    /// The price that `ticks` stands for: `ticks * tick_size`, exactly.
    /// Fails where its mantissa leaves 64 bits.
    pub fn ticks_to_price(&self, ticks: i64) -> (r: Result<Decimal, ScaleError>)
        ensures
            r is Ok <==> i64::MIN <= ticks * self@.tick_size.mantissa <= i64::MAX,
            r matches Ok(d) ==> d@ == value_of(ticks as int, self@.tick_size),
            r matches Err(e) ==> e == ScaleError::UnscalableValue,
    {
        from_ticks(ticks, &self.tick_size)
    }

    /// The quantity that `ticks` stands for: `ticks * step_size`, exactly.
    /// Fails where its mantissa leaves 64 bits.
    pub fn ticks_to_qty(&self, ticks: i64) -> (r: Result<Decimal, ScaleError>)
        ensures
            r is Ok <==> i64::MIN <= ticks * self@.step_size.mantissa <= i64::MAX,
            r matches Ok(d) ==> d@ == value_of(ticks as int, self@.step_size),
            r matches Err(e) ==> e == ScaleError::UnscalableValue,
    {
        from_ticks(ticks, &self.step_size)
    }

    /// Every level in ticks, in order. Fails, with nothing converted, where
    /// one price or quantity has no tick.
    pub fn levels_to_ticks(&self, levels: &Vec<(Decimal, Decimal)>) -> (r: Result<
        Vec<(i64, i64)>,
        ScaleError,
    >)
        ensures
            r is Ok <==> self@.levels_ticks(levels@) is Some,
            r matches Ok(out) ==> Some(out@) == self@.levels_ticks(levels@),
            r matches Err(e) ==> e == ScaleError::UnscalableValue,
    {
        let mut out: Vec<(i64, i64)> = Vec::new();
        let mut i: usize = 0;
        while i < levels.len()
            invariant
                i <= levels.len(),
                out.len() == i,
                forall|j: int| 0 <= j < i ==> self@.level_ticks(#[trigger] levels[j]) == Some(out[j]),
            decreases levels.len() - i,
        {
            let level = levels[i];
            let price = match self.price_to_ticks(&level.0) {
                Ok(p) => p,
                Err(e) => {
                    assert(self@.level_ticks(levels[i as int]) is None);
                    return Err(e);
                },
            };
            let qty = match self.qty_to_ticks(&level.1) {
                Ok(q) => q,
                Err(e) => {
                    assert(self@.level_ticks(levels[i as int]) is None);
                    return Err(e);
                },
            };
            out.push((price, qty));
            i = i + 1;
        }
        assert(self@.levels_ticks(levels@)->0 =~= out@);
        Ok(out)
    }

    /// Every tick level as decimals, in order. Fails, with nothing
    /// converted, where one of them leaves 64 bits.
    pub fn ticks_to_levels(&self, levels: &Vec<(i64, i64)>) -> (r: Result<
        Vec<(Decimal, Decimal)>,
        ScaleError,
    >)
        ensures
            r is Ok <==> forall|i: int|
                0 <= i < levels.len() ==> self@.level_fits(#[trigger] levels[i]),
            r matches Ok(out) ==> out.len() == levels.len() && forall|i: int|
                0 <= i < out.len() ==> (#[trigger] out[i]).0@ == value_of(
                    levels[i].0 as int,
                    self@.tick_size,
                ) && out[i].1@ == value_of(levels[i].1 as int, self@.step_size),
            r matches Err(e) ==> e == ScaleError::UnscalableValue,
    {
        let mut out: Vec<(Decimal, Decimal)> = Vec::new();
        let mut i: usize = 0;
        while i < levels.len()
            invariant
                i <= levels.len(),
                out.len() == i,
                forall|j: int| 0 <= j < i ==> self@.level_fits(#[trigger] levels[j]),
                forall|j: int|
                    0 <= j < i ==> (#[trigger] out[j]).0@ == value_of(
                        levels[j].0 as int,
                        self@.tick_size,
                    ) && out[j].1@ == value_of(levels[j].1 as int, self@.step_size),
            decreases levels.len() - i,
        {
            let level = levels[i];
            let price = match self.ticks_to_price(level.0) {
                Ok(p) => p,
                Err(e) => {
                    assert(!self@.level_fits(levels[i as int]));
                    return Err(e);
                },
            };
            let qty = match self.ticks_to_qty(level.1) {
                Ok(q) => q,
                Err(e) => {
                    assert(!self@.level_fits(levels[i as int]));
                    return Err(e);
                },
            };
            out.push((price, qty));
            i = i + 1;
        }
        Ok(out)
    }
}

} // verus!
