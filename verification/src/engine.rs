//! The pricing engine: pure buy and sell quotes over the bonding curve.
//!
//! Both quotes floor the exact rational curve, never the other way around.
//! A buy of `b` at reserve `r` pays out the exact curve difference
//! `A·C·x/(K+x)` between `x = r+b` and `x = r`, which has the closed form
//! `A·C·K·b / ((K+r)(K+r+b))`, floored. A sell of `t` token units pays the
//! largest whole payout `d` whose exact absorbed amount
//! `A·C·K·d / ((K+ρ)(K+ρ-d))` still stays within `t`. Both roundings favor
//! the pool: quoted tokens never exceed the exact curve difference, and a
//! payout never exceeds the exact rollback. Because the exact difference
//! falls as the reserve grows and flooring preserves that order, the quoted
//! price per token never drops as the reserve rises.

use vstd::prelude::*;
use crate::curve::CurveParameters;
use crate::curve::PricingError;
use crate::curve::buy_fits;
use crate::curve::sell_fits;
use crate::curve::sold;
use crate::curve::sold_exec;
use crate::curve::lemma_frac_le;
use crate::curve::lemma_sold_nonneg;

verus! {

/// A quoted trade: the counter-amount owed to the trader, and the curve's
/// reference reserve after the trade. The position is diagnostic output;
/// authoritative state is always re-derived from the real reserve.
#[derive(Clone, Copy, Debug, PartialEq, Eq, Structural)]
pub struct TradeQuote {
    /// Tokens (for a buy) or payment-asset units (for a sell) the trader receives.
    pub counter_amount: u64,
    /// The reserve level the curve stands at once the trade is applied.
    pub new_virtual_position: u64,
}

/// Token units a buy of `base_in` hands out at reserve `reserve`: the floor
/// of the exact curve difference `A·C·K·b / ((K+r)(K+r+b))`. When the offset
/// and the reserve are both zero the curve's starting price is unbounded and
/// nothing is handed out.
pub open spec fn buy_tokens(p: CurveParameters, reserve: int, base_in: int) -> int {
    if p.offset() + reserve <= 0 {
        0
    } else {
        (p.supply() * p.scale() * p.offset() * base_in) / ((p.offset() + reserve) * (p.offset()
            + reserve + base_in))
    }
}

/// A payout `d` is admissible for a sell of `tokens_in` at reserve `reserve`
/// when the exact token amount the curve absorbs by rolling the reserve back
/// by `d` stays within `tokens_in` — cross-multiplied, so the comparison is
/// exact. Rolling back to the origin (offset zero, `d == reserve`) absorbs
/// the curve's whole exact sale `A·C·ρ/(K+ρ)`, compared the same way.
pub open spec fn sell_admissible(p: CurveParameters, reserve: int, tokens_in: int, d: int) -> bool {
    if p.offset() + reserve - d <= 0 {
        p.supply() * p.scale() * reserve <= tokens_in * (p.offset() + reserve)
    } else {
        p.supply() * p.scale() * p.offset() * d <= tokens_in * ((p.offset() + reserve) * (
        p.offset() + reserve - d))
    }
}

/// The largest admissible payout at or below `d`.
pub open spec fn sell_payout_search(p: CurveParameters, reserve: int, tokens_in: int, d: int) -> int
    decreases d,
{
    if d <= 0 {
        0
    } else if sell_admissible(p, reserve, tokens_in, d) {
        d
    } else {
        sell_payout_search(p, reserve, tokens_in, d - 1)
    }
}

/// The payout of a sell: the largest `d` in `[0, reserve]` whose exact
/// absorbed amount stays within the tokens handed in.
pub open spec fn sell_payout(p: CurveParameters, reserve: int, tokens_in: int) -> int {
    sell_payout_search(p, reserve, tokens_in, reserve)
}

/// The complete result of a buy quote, case by case. A zero trade is a
/// valid no-op; arithmetic that would leave the fixed-width domain is
/// `MathOverflow`; a buy that would push cumulative sales past the issuable
/// supply is `CurveExhausted`; everything else succeeds with the floored
/// exact curve difference.
pub open spec fn buy_quote(p: CurveParameters, reserve: u64, base_in: u64) -> Result<
    TradeQuote,
    PricingError,
> {
    if base_in == 0 {
        Ok(TradeQuote { counter_amount: 0, new_virtual_position: reserve })
    } else if !buy_fits(p, reserve as int, base_in as int) {
        Err(PricingError::MathOverflow)
    } else if sold(p, reserve as int) + buy_tokens(p, reserve as int, base_in as int)
        > p.supply() {
        Err(PricingError::CurveExhausted)
    } else {
        Ok(TradeQuote {
            counter_amount: buy_tokens(p, reserve as int, base_in as int) as u64,
            new_virtual_position: (reserve + base_in) as u64,
        })
    }
}

/// The complete result of a sell quote, case by case. A zero trade is a
/// valid no-op; arithmetic that would leave the fixed-width domain is
/// `MathOverflow`; selling more token units than the curve's cumulative sale
/// at this reserve is `InsufficientReserve`; everything else succeeds with
/// the largest admissible payout.
pub open spec fn sell_quote(p: CurveParameters, reserve: u64, tokens_in: u64) -> Result<
    TradeQuote,
    PricingError,
> {
    if tokens_in == 0 {
        Ok(TradeQuote { counter_amount: 0, new_virtual_position: reserve })
    } else if !sell_fits(p, reserve as int) {
        Err(PricingError::MathOverflow)
    } else if tokens_in > sold(p, reserve as int) {
        Err(PricingError::InsufficientReserve)
    } else {
        Ok(TradeQuote {
            counter_amount: sell_payout(p, reserve as int, tokens_in as int) as u64,
            new_virtual_position: (reserve - sell_payout(
                p,
                reserve as int,
                tokens_in as int,
            )) as u64,
        })
    }
}

/// Quoted tokens are never negative.
pub proof fn lemma_buy_tokens_nonneg(p: CurveParameters, reserve: int, base_in: int)
    requires
        p.wf(),
        0 <= reserve,
        0 <= base_in,
    ensures
        0 <= buy_tokens(p, reserve, base_in),
{
    if p.offset() + reserve > 0 {
        let num = p.supply() * p.scale() * p.offset() * base_in;
        let den = (p.offset() + reserve) * (p.offset() + reserve + base_in);
        assert(0 <= num && 1 <= den) by (nonlinear_arith)
            requires
                1 <= p.supply(),
                1 <= p.scale(),
                0 <= p.offset(),
                0 <= base_in,
                1 <= p.offset() + reserve,
                0 <= base_in,
                num == p.supply() * p.scale() * p.offset() * base_in,
                den == (p.offset() + reserve) * (p.offset() + reserve + base_in),
        ;
        vstd::arithmetic::div_mod::lemma_div_pos_is_pos(num, den);
    }
}

/// Quoted tokens for a fixed payment never increase as the reserve grows:
/// the exact marginal fraction has a fixed numerator and a growing
/// denominator, and flooring preserves the order.
pub proof fn lemma_buy_tokens_monotone(p: CurveParameters, r1: int, r2: int, base_in: int)
    requires
        p.wf(),
        0 <= r1 <= r2,
        0 <= base_in,
    ensures
        buy_tokens(p, r2, base_in) <= buy_tokens(p, r1, base_in),
{
    if p.offset() + r1 <= 0 {
        // Offset and low reserve both zero: the marginal numerator is zero,
        // so the richer quote is zero as well.
        if p.offset() + r2 > 0 {
            let num = p.supply() * p.scale() * p.offset() * base_in;
            let den = (p.offset() + r2) * (p.offset() + r2 + base_in);
            assert(num == 0) by (nonlinear_arith)
                requires p.offset() == 0, num == p.supply() * p.scale() * p.offset() * base_in,
            ;
            assert(1 <= den) by (nonlinear_arith)
                requires 1 <= p.offset() + r2, 0 <= base_in,
                    den == (p.offset() + r2) * (p.offset() + r2 + base_in),
            ;
            vstd::arithmetic::div_mod::lemma_div_of0(den);
        }
    } else {
        let num = p.supply() * p.scale() * p.offset() * base_in;
        let den1 = (p.offset() + r1) * (p.offset() + r1 + base_in);
        let den2 = (p.offset() + r2) * (p.offset() + r2 + base_in);
        assert(0 <= num && 1 <= den1 && den1 <= den2) by (nonlinear_arith)
            requires
                1 <= p.supply(),
                1 <= p.scale(),
                0 <= p.offset(),
                0 <= base_in,
                1 <= p.offset() + r1,
                r1 <= r2,
                num == p.supply() * p.scale() * p.offset() * base_in,
                den1 == (p.offset() + r1) * (p.offset() + r1 + base_in),
                den2 == (p.offset() + r2) * (p.offset() + r2 + base_in),
        ;
        assert(num * den1 <= num * den2) by (nonlinear_arith)
            requires 0 <= num, den1 <= den2,
        ;
        lemma_frac_le(num, den2, num, den1);
    }
}

/// Admissibility is downward closed: any payout below an admissible one is
/// admissible too.
pub proof fn lemma_admissible_downward(
    p: CurveParameters,
    reserve: int,
    tokens_in: int,
    d1: int,
    d2: int,
)
    requires
        p.wf(),
        0 <= d1 <= d2 <= reserve,
        0 <= tokens_in,
        sell_admissible(p, reserve, tokens_in, d2),
    ensures
        sell_admissible(p, reserve, tokens_in, d1),
{
    if d1 == d2 {
    } else if p.offset() + reserve - d1 <= 0 {
        // d1 < d2 <= reserve forces offset + reserve - d1 > 0; unreachable.
        assert(false);
    } else if p.offset() + reserve - d2 <= 0 {
        // The deeper rollback reaches the origin, so the offset is zero and
        // the marginal numerator vanishes for the shallower one.
        assert(p.offset() == 0);
        assert(p.supply() * p.scale() * p.offset() * d1 <= tokens_in * ((p.offset() + reserve) * (
        p.offset() + reserve - d1))) by (nonlinear_arith)
            requires
                p.offset() == 0,
                0 <= tokens_in,
                1 <= p.offset() + reserve - d1,
                0 <= p.offset() + reserve,
        ;
    } else {
        assert(p.supply() * p.scale() * p.offset() * d1 <= tokens_in * ((p.offset() + reserve) * (
        p.offset() + reserve - d1))) by (nonlinear_arith)
            requires
                1 <= p.supply(),
                1 <= p.scale(),
                0 <= p.offset(),
                0 <= tokens_in,
                0 <= d1 <= d2,
                1 <= p.offset() + reserve - d2,
                p.supply() * p.scale() * p.offset() * d2 <= tokens_in * ((p.offset() + reserve) * (
                p.offset() + reserve - d2)),
        ;
    }
}

/// The payout search lands on an admissible payout in `[0, d]`, above which
/// everything up to `d` is inadmissible.
pub proof fn lemma_payout_search_props(p: CurveParameters, reserve: int, tokens_in: int, d: int)
    requires
        p.wf(),
        1 <= reserve,
        0 <= tokens_in,
        0 <= d <= reserve,
    ensures
        0 <= sell_payout_search(p, reserve, tokens_in, d) <= d,
        sell_admissible(p, reserve, tokens_in, sell_payout_search(p, reserve, tokens_in, d)),
        forall|e: int|
            sell_payout_search(p, reserve, tokens_in, d) < e <= d ==> !sell_admissible(
                p,
                reserve,
                tokens_in,
                e,
            ),
    decreases d,
{
    if d <= 0 {
        assert(p.offset() + reserve - 0 > 0);
        assert(p.supply() * p.scale() * p.offset() * 0 <= tokens_in * ((p.offset() + reserve) * (
        p.offset() + reserve - 0))) by (nonlinear_arith)
            requires
                1 <= p.offset() + reserve,
                0 <= tokens_in,
        ;
    } else if sell_admissible(p, reserve, tokens_in, d) {
    } else {
        lemma_payout_search_props(p, reserve, tokens_in, d - 1);
    }
}

/// An admissible payout above which everything is inadmissible is exactly
/// the payout the sell settles on.
pub proof fn lemma_payout_is_max(p: CurveParameters, reserve: int, tokens_in: int, x: int)
    requires
        p.wf(),
        1 <= reserve,
        0 <= tokens_in,
        0 <= x <= reserve,
        sell_admissible(p, reserve, tokens_in, x),
        forall|d: int| x < d <= reserve ==> !sell_admissible(p, reserve, tokens_in, d),
    ensures
        sell_payout(p, reserve, tokens_in) == x,
{
    lemma_payout_search_is_max(p, reserve, tokens_in, x, reserve);
}

proof fn lemma_payout_search_is_max(p: CurveParameters, reserve: int, tokens_in: int, x: int, d: int)
    requires
        p.wf(),
        0 <= x <= d,
        sell_admissible(p, reserve, tokens_in, x),
        forall|e: int| x < e <= d ==> !sell_admissible(p, reserve, tokens_in, e),
    ensures
        sell_payout_search(p, reserve, tokens_in, d) == x,
    decreases d,
{
    if d <= 0 {
    } else if sell_admissible(p, reserve, tokens_in, d) {
        assert(x == d);
    } else {
        lemma_payout_search_is_max(p, reserve, tokens_in, x, d - 1);
    }
}

/// Quotes the tokens received for a fixed payment-asset input at the current
/// escrowed reserve. Pure: no state is read or written.
///
/// The result is exactly `buy_quote(params, reserve, base_in)`: zero input
/// is a no-op quote of zero at an unchanged position; intermediate overflow
/// yields `MathOverflow`; pushing cumulative sales past the issuable supply
/// yields `CurveExhausted`; otherwise the floor of the exact curve
/// difference is returned together with the post-trade reserve.
pub fn quote_buy_exact_input(
    reserve: u64,
    base_in: u64,
    params: &CurveParameters,
) -> (result: Result<TradeQuote, PricingError>)
    requires
        params.wf(),
    ensures
        result == buy_quote(*params, reserve, base_in),
{
    if base_in == 0 {
        return Ok(TradeQuote { counter_amount: 0, new_virtual_position: reserve });
    }
    let after: u64 = match reserve.checked_add(base_in) {
        Some(v) => v,
        None => {
            return Err(PricingError::MathOverflow);
        },
    };
    let ac: u128 = match (params.total_issuable_tokens as u128).checked_mul(params.scale_factor) {
        Some(v) => v,
        None => {
            proof {
                assert(params.supply() * params.scale() <= params.supply() * params.scale()
                    * after) by (nonlinear_arith)
                    requires 0 <= params.supply() * params.scale(), 1 <= after,
                ;
            }
            return Err(PricingError::MathOverflow);
        },
    };
    let ack: u128 = match ac.checked_mul(params.virtual_reserve_offset) {
        Some(v) => v,
        None => {
            proof {
                assert(params.supply() * params.scale() * params.offset() <= params.supply()
                    * params.scale() * params.offset() * after) by (nonlinear_arith)
                    requires 0 <= params.supply() * params.scale() * params.offset(), 1 <= after,
                ;
            }
            return Err(PricingError::MathOverflow);
        },
    };
    if ac.checked_mul(after as u128).is_none() {
        return Err(PricingError::MathOverflow);
    }
    if ack.checked_mul(after as u128).is_none() {
        return Err(PricingError::MathOverflow);
    }
    let offset_after: u128 = match params.virtual_reserve_offset.checked_add(after as u128) {
        Some(v) => v,
        None => {
            return Err(PricingError::MathOverflow);
        },
    };
    let offset_before: u128 = params.virtual_reserve_offset + (reserve as u128);
    let den: u128 = match offset_before.checked_mul(offset_after) {
        Some(v) => v,
        None => {
            return Err(PricingError::MathOverflow);
        },
    };
    proof {
        assert(params.supply() * params.scale() * params.offset() * base_in <= params.supply()
            * params.scale() * params.offset() * after) by (nonlinear_arith)
            requires 0 <= params.supply() * params.scale() * params.offset(), base_in <= after,
        ;
    }
    let num: u128 = ack * (base_in as u128);
    let tokens: u128 = if offset_before == 0 {
        0
    } else {
        proof {
            assert(1 <= offset_before * offset_after) by (nonlinear_arith)
                requires 1 <= offset_before, 1 <= offset_after,
            ;
        }
        num / den
    };
    proof {
        assert(params.supply() * params.scale() * reserve <= params.supply() * params.scale()
            * after) by (nonlinear_arith)
            requires 0 <= params.supply() * params.scale(), reserve <= after,
        ;
        lemma_sold_nonneg(*params, reserve as int);
        lemma_buy_tokens_nonneg(*params, reserve as int, base_in as int);
    }
    let sold_before: u128 = sold_exec(params, reserve);
    let supply: u128 = params.total_issuable_tokens as u128;
    if sold_before > supply {
        return Err(PricingError::CurveExhausted);
    }
    if tokens > supply - sold_before {
        return Err(PricingError::CurveExhausted);
    }
    Ok(TradeQuote { counter_amount: tokens as u64, new_virtual_position: after })
}

/// Quotes the payment-asset received for a fixed token input at the current
/// escrowed reserve. Pure: no state is read or written.
///
/// The result is exactly `sell_quote(params, reserve, tokens_in)`: zero
/// input is a no-op quote of zero at an unchanged position; intermediate
/// overflow yields `MathOverflow`; selling more token units than the curve's
/// cumulative sale yields `InsufficientReserve`; otherwise the payout is the
/// largest amount whose exact absorbed tokens stay within the input — never
/// more than the reserve itself, and never rounded up.
pub fn quote_sell_exact_input(
    reserve: u64,
    tokens_in: u64,
    params: &CurveParameters,
) -> (result: Result<TradeQuote, PricingError>)
    requires
        params.wf(),
    ensures
        result == sell_quote(*params, reserve, tokens_in),
{
    if tokens_in == 0 {
        return Ok(TradeQuote { counter_amount: 0, new_virtual_position: reserve });
    }
    if reserve == 0 {
        return Err(PricingError::InsufficientReserve);
    }
    let ac: u128 = match (params.total_issuable_tokens as u128).checked_mul(params.scale_factor) {
        Some(v) => v,
        None => {
            proof {
                assert(params.supply() * params.scale() <= params.supply() * params.scale()
                    * reserve) by (nonlinear_arith)
                    requires 0 <= params.supply() * params.scale(), 1 <= reserve,
                ;
            }
            return Err(PricingError::MathOverflow);
        },
    };
    let ack: u128 = match ac.checked_mul(params.virtual_reserve_offset) {
        Some(v) => v,
        None => {
            proof {
                assert(params.supply() * params.scale() * params.offset() <= params.supply()
                    * params.scale() * params.offset() * reserve) by (nonlinear_arith)
                    requires 0 <= params.supply() * params.scale() * params.offset(), 1 <= reserve,
                ;
            }
            return Err(PricingError::MathOverflow);
        },
    };
    if ac.checked_mul(reserve as u128).is_none() {
        return Err(PricingError::MathOverflow);
    }
    if ack.checked_mul(reserve as u128).is_none() {
        return Err(PricingError::MathOverflow);
    }
    let offset_reserve: u128 = match params.virtual_reserve_offset.checked_add(reserve as u128) {
        Some(v) => v,
        None => {
            return Err(PricingError::MathOverflow);
        },
    };
    let sold_here: u128 = sold_exec(params, reserve);
    if (tokens_in as u128) > sold_here {
        return Err(PricingError::InsufficientReserve);
    }
    let mut lo: u64 = 0;
    let mut hi: u64 = reserve;
    proof {
        assert(sell_admissible(*params, reserve as int, tokens_in as int, 0)) by (nonlinear_arith)
            requires 1 <= params.offset() + reserve, 0 <= tokens_in,
        ;
    }
    while lo < hi
        invariant
            params.wf(),
            1 <= reserve,
            lo <= hi <= reserve,
            sell_fits(*params, reserve as int),
            ac == params.supply() * params.scale(),
            ack == params.supply() * params.scale() * params.offset(),
            offset_reserve == params.offset() + reserve,
            sell_admissible(*params, reserve as int, tokens_in as int, lo as int),
            forall|d: int|
                hi < d <= reserve ==> !sell_admissible(*params, reserve as int, tokens_in as int, d),
        decreases hi - lo,
    {
        let mid: u64 = lo + ((hi - lo) / 2 + 1);
        let mid_ok: bool = sell_admissible_exec(params, ac, ack, offset_reserve, reserve, tokens_in, mid);
        if mid_ok {
            lo = mid;
        } else {
            proof {
                assert forall|d: int| (mid - 1) < d <= reserve implies !sell_admissible(
                    *params,
                    reserve as int,
                    tokens_in as int,
                    d,
                ) by {
                    if d <= reserve && sell_admissible(*params, reserve as int, tokens_in as int, d) {
                        lemma_admissible_downward(
                            *params,
                            reserve as int,
                            tokens_in as int,
                            mid as int,
                            d,
                        );
                    }
                }
            }
            hi = mid - 1;
        }
    }
    proof {
        lemma_payout_is_max(*params, reserve as int, tokens_in as int, lo as int);
    }
    Ok(TradeQuote { counter_amount: lo, new_virtual_position: reserve - lo })
}

/// Evaluates `sell_admissible` on machine integers. A right-hand side that
/// leaves `u128` can only be larger than the (in-domain) left-hand side, so
/// overflow there means admissible.
fn sell_admissible_exec(
    params: &CurveParameters,
    ac: u128,
    ack: u128,
    offset_reserve: u128,
    reserve: u64,
    tokens_in: u64,
    d: u64,
) -> (result: bool)
    requires
        params.wf(),
        1 <= reserve,
        d <= reserve,
        ac == params.supply() * params.scale(),
        ack == params.supply() * params.scale() * params.offset(),
        offset_reserve == params.offset() + reserve,
        sell_fits(*params, reserve as int),
    ensures
        result == sell_admissible(*params, reserve as int, tokens_in as int, d as int),
{
    if params.virtual_reserve_offset == 0 && d == reserve {
        // Rollback to the origin: compare the curve's whole exact sale.
        proof {
            assert(params.supply() * params.scale() <= params.supply() * params.scale() * reserve)
                by (nonlinear_arith)
                requires 0 <= params.supply() * params.scale(), 1 <= reserve,
            ;
            assert((tokens_in as int) * (offset_reserve as int) <= u128::MAX) by (nonlinear_arith)
                requires
                    tokens_in <= u64::MAX,
                    offset_reserve <= u64::MAX,
                    u128::MAX == u64::MAX * u64::MAX + u64::MAX + u64::MAX,
            ;
            assert(params.supply() * params.scale() * reserve <= u128::MAX);
            assert(ac * reserve == params.supply() * params.scale() * reserve);
        }
        let lhs: u128 = ac * (reserve as u128);
        let rhs: u128 = (tokens_in as u128) * offset_reserve;
        lhs <= rhs
    } else {
        proof {
            assert(ack * d <= ack * reserve) by (nonlinear_arith)
                requires 0 <= ack, d <= reserve,
            ;
            assert(ack * reserve == params.supply() * params.scale() * params.offset() * reserve);
        }
        let lhs: u128 = ack * (d as u128);
        let rem: u128 = offset_reserve - (d as u128);
        let rhs1: u128 = match (tokens_in as u128).checked_mul(offset_reserve) {
            Some(v) => v,
            None => {
                proof {
                    assert((tokens_in as int) * (offset_reserve as int) <= (tokens_in as int) * (
                    offset_reserve as int) * (rem as int)) by (nonlinear_arith)
                        requires 0 <= (tokens_in as int) * (offset_reserve as int), 1 <= rem,
                    ;
                    assert((tokens_in as int) * ((offset_reserve as int) * (rem as int)) == (
                    tokens_in as int) * (offset_reserve as int) * (rem as int)) by (nonlinear_arith);
                }
                return true;
            },
        };
        match rhs1.checked_mul(rem) {
            Some(rhs) => {
                proof {
                    assert((tokens_in as int) * ((offset_reserve as int) * (rem as int)) == (
                    tokens_in as int) * (offset_reserve as int) * (rem as int)) by (nonlinear_arith);
                }
                lhs <= rhs
            },
            None => {
                proof {
                    assert((tokens_in as int) * ((offset_reserve as int) * (rem as int)) == (
                    tokens_in as int) * (offset_reserve as int) * (rem as int)) by (nonlinear_arith);
                }
                true
            },
        }
    }
}

} // verus!
