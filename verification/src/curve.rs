//! Curve parameters and the cumulative-sale function of the bonding curve.
//!
//! The curve is described by three constants fixed at token creation:
//! the total issuable supply `A`, a virtual reserve offset `K`, and a scale
//! factor `C`. The exact curve attributes `A * C * x / (K + x)` virtual token
//! units to a reserve of `x`: a monotonically increasing, concave function,
//! so the marginal price per token rises as the reserve grows. The offset
//! `K` is added to the real reserve, which keeps the price of the very first
//! trade finite and non-zero. `sold` floors that exact value; the engine
//! uses it to account for the remaining issuable supply and for how many
//! token units a sell can hand back, while the quotes themselves floor the
//! exact curve differences directly.

use vstd::prelude::*;
use vstd::arithmetic::div_mod::lemma_fundamental_div_mod;
use vstd::arithmetic::mul::lemma_mul_inequality;

verus! {

/// The typed failures of the pricing engine. Every error is returned to the
/// immediate caller; the engine mutates nothing, so no partial state exists.
#[derive(Clone, Copy, Debug, PartialEq, Eq, Structural)]
pub enum PricingError {
    /// Curve constants failed validation at initialization.
    InvalidParameters,
    /// A fixed-width intermediate arithmetic step would exceed its domain.
    MathOverflow,
    /// A buy would mint more tokens than the declared issuable supply.
    CurveExhausted,
    /// A sell would pay out more than the real escrowed reserve holds.
    InsufficientReserve,
}

/// Immutable calibration constants of one curve instance. Set once at token
/// creation; trading never mutates them, and no mutator is exposed.
#[derive(Clone, Copy, Debug, PartialEq, Eq, Structural)]
pub struct CurveParameters {
    /// Fixed total token supply the curve is calibrated against.
    pub total_issuable_tokens: u64,
    /// Virtual payment-asset amount added to the real reserve, so the curve
    /// starts with a bounded slope and a non-zero initial price.
    pub virtual_reserve_offset: u128,
    /// Curvature coefficient: how steeply price rises as the reserve grows.
    pub scale_factor: u128,
}

impl CurveParameters {
    /// Total issuable supply as a mathematical integer.
    pub open spec fn supply(self) -> int {
        self.total_issuable_tokens as int
    }

    /// Virtual reserve offset as a mathematical integer.
    pub open spec fn offset(self) -> int {
        self.virtual_reserve_offset as int
    }

    /// Scale factor as a mathematical integer.
    pub open spec fn scale(self) -> int {
        self.scale_factor as int
    }

    /// Well-formed parameters: a curve with no supply or no curvature is
    /// rejected at initialization and never reaches the engine.
    pub open spec fn wf(self) -> bool {
        self.total_issuable_tokens >= 1 && self.scale_factor >= 1
    }

    /// Validates and assembles the curve constants.
    ///
    /// Fails with `InvalidParameters` exactly when the supply or the scale
    /// factor is zero; otherwise returns the parameter record unchanged.
    pub fn initialize(
        total_issuable_tokens: u64,
        virtual_reserve_offset: u128,
        scale_factor: u128,
    ) -> (result: Result<CurveParameters, PricingError>)
        ensures
            result == (if total_issuable_tokens == 0 || scale_factor == 0 {
                Err::<CurveParameters, PricingError>(PricingError::InvalidParameters)
            } else {
                Ok::<CurveParameters, PricingError>(CurveParameters {
                    total_issuable_tokens,
                    virtual_reserve_offset,
                    scale_factor,
                })
            }),
            result matches Ok(p) ==> p.wf(),
    {
        if total_issuable_tokens == 0 || scale_factor == 0 {
            Err(PricingError::InvalidParameters)
        } else {
            Ok(CurveParameters { total_issuable_tokens, virtual_reserve_offset, scale_factor })
        }
    }
}

/// Cumulative virtual token units sold once reserve `x` has accumulated:
/// `floor(A * C * x / (K + x))`, and `0` at the origin. The engine measures
/// the remaining issuable supply and the token units a sell may return
/// against this figure.
pub open spec fn sold(p: CurveParameters, x: int) -> int {
    if x <= 0 {
        0
    } else {
        (p.supply() * p.scale() * x) / (p.offset() + x)
    }
}

/// Fraction ordering under floor division: if `p/q <= r/s` as rationals
/// (cross-multiplied), the floored quotients are ordered the same way.
pub proof fn lemma_frac_le(p: int, q: int, r: int, s: int)
    requires
        0 <= p,
        1 <= q,
        0 <= r,
        1 <= s,
        p * s <= r * q,
    ensures
        p / q <= r / s,
{
    let dp = p / q;
    let dr = r / s;
    lemma_fundamental_div_mod(p, q);
    lemma_fundamental_div_mod(r, s);
    assert(q * dp <= p);
    assert(0 <= dp) by (nonlinear_arith)
        requires q * dp <= p, 0 <= p, 1 <= q, dp == p / q,
    {
        vstd::arithmetic::div_mod::lemma_div_pos_is_pos(p, q);
    }
    lemma_mul_inequality(q * dp, p, s);
    assert(q * dp * s <= p * s);
    assert(dp * s <= r) by (nonlinear_arith)
        requires q * dp * s <= r * q, 1 <= q,
    ;
    assert(dp <= dr) by (nonlinear_arith)
        requires dp * s <= r, r < s * dr + s, 1 <= s,
    ;
}

/// The cumulative-sale function never goes negative.
pub proof fn lemma_sold_nonneg(p: CurveParameters, x: int)
    requires
        p.wf(),
    ensures
        0 <= sold(p, x),
{
    if x > 0 {
        vstd::arithmetic::div_mod::lemma_div_pos_is_pos(
            p.supply() * p.scale() * x,
            p.offset() + x,
        );
        assert(0 <= p.supply() * p.scale() * x) by (nonlinear_arith)
            requires 1 <= p.supply(), 1 <= p.scale(), 0 < x,
        ;
    }
}

/// The arithmetic of a buy quote stays inside the fixed-width domains: the
/// post-trade reserve fits `u64`, and every intermediate the quote computes
/// (the cumulative product, the marginal numerator, the shifted reserves and
/// the marginal denominator) fits `u128`. The first three conjuncts also
/// imply `sell_fits` at the post-trade reserve, so a round trip that bought
/// successfully can always be quoted back.
pub open spec fn buy_fits(p: CurveParameters, reserve: int, base_in: int) -> bool {
    &&& reserve + base_in <= u64::MAX
    &&& p.supply() * p.scale() * (reserve + base_in) <= u128::MAX
    &&& p.supply() * p.scale() * p.offset() * (reserve + base_in) <= u128::MAX
    &&& p.offset() + (reserve + base_in) <= u128::MAX
    &&& (p.offset() + reserve) * (p.offset() + (reserve + base_in)) <= u128::MAX
}

/// The arithmetic of a sell quote stays inside the fixed-width domains at
/// reserve `reserve`: the cumulative product, the marginal numerator at the
/// deepest possible rollback, and the shifted reserve all fit `u128`.
pub open spec fn sell_fits(p: CurveParameters, reserve: int) -> bool {
    &&& p.supply() * p.scale() * reserve <= u128::MAX
    &&& p.supply() * p.scale() * p.offset() * reserve <= u128::MAX
    &&& p.offset() + reserve <= u128::MAX
}

/// Evaluates `sold` on machine integers.
pub(crate) fn sold_exec(p: &CurveParameters, x: u64) -> (result: u128)
    requires
        p.wf(),
        p.supply() * p.scale() * x <= u128::MAX,
        p.offset() + x <= u128::MAX,
    ensures
        result == sold(*p, x as int),
{
    if x == 0 {
        0
    } else {
        proof {
            assert(1 <= p.supply() * p.scale()) by (nonlinear_arith)
                requires 1 <= p.supply(), 1 <= p.scale(),
            ;
            assert(p.supply() * p.scale() <= p.supply() * p.scale() * x) by (nonlinear_arith)
                requires 1 <= p.supply() * p.scale(), 1 <= x,
            ;
        }
        let ac: u128 = (p.total_issuable_tokens as u128) * p.scale_factor;
        let num: u128 = ac * (x as u128);
        let den: u128 = p.virtual_reserve_offset + (x as u128);
        num / den
    }
}

} // verus!
