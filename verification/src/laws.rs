//! The engine's global guarantees, stated and proved once over the spec-level
//! quote functions: price monotonicity of the quotes themselves, diminishing
//! sequential buys, round-down on both quote sides, the no-arbitrage round
//! trip, the zero-trade no-op, the reserve bound on sells, and the overflow
//! guard.

use vstd::prelude::*;
use vstd::arithmetic::div_mod::lemma_fundamental_div_mod;
use crate::curve::CurveParameters;
use crate::curve::PricingError;
use crate::curve::sold;
use crate::curve::lemma_frac_le;
use crate::curve::lemma_sold_nonneg;
use crate::engine::TradeQuote;
use crate::engine::buy_quote;
use crate::engine::sell_quote;
use crate::engine::buy_tokens;
use crate::engine::sell_admissible;
use crate::engine::sell_payout;
use crate::engine::lemma_buy_tokens_nonneg;
use crate::engine::lemma_buy_tokens_monotone;
use crate::engine::lemma_payout_search_props;

verus! {

/// Monotonicity of the quoted price: the same payment buys no more tokens at
/// a richer reserve than at a poorer one — buy pressure only ever raises the
/// price per token, down to the quoted integer amounts.
pub proof fn lemma_price_monotone(p: CurveParameters, r1: u64, r2: u64, base_in: u64)
    requires
        p.wf(),
        r1 <= r2,
    ensures
        buy_quote(p, r1, base_in) matches Ok(q1) ==> (buy_quote(p, r2, base_in) matches Ok(q2)
            ==> q2.counter_amount <= q1.counter_amount),
{
    if buy_quote(p, r1, base_in) matches Ok(_) {
        if buy_quote(p, r2, base_in) matches Ok(_) {
            if base_in == 0 {
            } else {
                lemma_buy_tokens_monotone(p, r1 as int, r2 as int, base_in as int);
                lemma_buy_tokens_nonneg(p, r2 as int, base_in as int);
                lemma_sold_nonneg(p, r1 as int);
            }
        }
    }
}

/// Diminishing sequential buys: a second buy of the same size, made at the
/// reserve the first buy left behind, never yields more tokens than the
/// first.
pub proof fn lemma_sequential_buys_diminish(p: CurveParameters, reserve: u64, base_in: u64)
    requires
        p.wf(),
    ensures
        buy_quote(p, reserve, base_in) matches Ok(q1) ==> (buy_quote(
            p,
            q1.new_virtual_position,
            base_in,
        ) matches Ok(q2) ==> q2.counter_amount <= q1.counter_amount),
{
    if buy_quote(p, reserve, base_in) matches Ok(_) {
        if base_in == 0 {
            lemma_price_monotone(p, reserve, reserve, base_in);
        } else {
            lemma_price_monotone(p, reserve, (reserve + base_in) as u64, base_in);
        }
    }
}

/// Buy quotes round down: the quoted tokens, multiplied back by the marginal
/// denominator `(K+r)(K+r+b)`, never exceed the exact marginal numerator
/// `A·C·K·b` — the trader receives at most the exact curve difference.
pub proof fn lemma_buy_rounds_down(p: CurveParameters, reserve: u64, base_in: u64)
    requires
        p.wf(),
    ensures
        buy_quote(p, reserve, base_in) matches Ok(q) ==> (q.counter_amount as int) * ((p.offset()
            + reserve) * (p.offset() + reserve + base_in)) <= p.supply() * p.scale() * p.offset()
            * base_in,
{
    if buy_quote(p, reserve, base_in) matches Ok(_) {
        let num = p.supply() * p.scale() * p.offset() * base_in;
        let den = (p.offset() + reserve) * (p.offset() + reserve + base_in);
        if base_in == 0 {
            assert(0 * den == 0) by (nonlinear_arith);
            assert(p.supply() * p.scale() * p.offset() * 0 == 0) by (nonlinear_arith);
        } else if p.offset() + reserve <= 0 {
            assert(p.offset() == 0);
            assert(0 * den == 0) by (nonlinear_arith);
            assert(num == 0) by (nonlinear_arith)
                requires p.offset() == 0, num == p.supply() * p.scale() * p.offset() * base_in,
            ;
        } else {
            assert(1 <= den) by (nonlinear_arith)
                requires 1 <= p.offset() + reserve, 1 <= base_in, 0 <= reserve,
                    den == (p.offset() + reserve) * (p.offset() + reserve + base_in),
            ;
            lemma_fundamental_div_mod(num, den);
            vstd::arithmetic::div_mod::lemma_mod_division_less_than_divisor(num, den);
            assert((num / den) * den <= num) by (nonlinear_arith)
                requires num == den * (num / den) + num % den, 0 <= num % den,
            ;
            lemma_buy_tokens_nonneg(p, reserve as int, base_in as int);
            lemma_sold_nonneg(p, reserve as int);
        }
    }
}

/// Sell quotes round down: the paid-out amount is admissible — the exact
/// token amount the curve absorbs by rolling the reserve back by the payout
/// stays within the tokens the trader handed in (cross-multiplied, so the
/// comparison is exact). The pool never pays past the exact rollback.
pub proof fn lemma_sell_rounds_down(p: CurveParameters, reserve: u64, tokens_in: u64)
    requires
        p.wf(),
    ensures
        sell_quote(p, reserve, tokens_in) matches Ok(q) ==> sell_admissible(
            p,
            reserve as int,
            tokens_in as int,
            q.counter_amount as int,
        ),
{
    if sell_quote(p, reserve, tokens_in) matches Ok(q) {
        if tokens_in == 0 {
            if p.offset() + reserve <= 0 {
                assert(p.supply() * p.scale() * reserve <= 0 * (p.offset() + reserve))
                    by (nonlinear_arith)
                    requires reserve == 0,
                ;
            } else {
                assert(p.supply() * p.scale() * p.offset() * 0 <= tokens_in * ((p.offset()
                    + reserve) * (p.offset() + reserve - 0))) by (nonlinear_arith)
                    requires 0 <= tokens_in, 1 <= p.offset() + reserve,
                ;
            }
        } else {
            lemma_payout_search_props(p, reserve as int, tokens_in as int, reserve as int);
        }
    }
}

/// No-arbitrage round trip: selling back exactly the tokens a buy just
/// produced, at the post-buy reserve, succeeds and pays out at most the
/// payment-asset amount the buy took in. The trader can never round a
/// profit out of the curve.
pub proof fn lemma_no_arbitrage_round_trip(p: CurveParameters, reserve: u64, base_in: u64)
    requires
        p.wf(),
    ensures
        buy_quote(p, reserve, base_in) matches Ok(q) ==> (sell_quote(
            p,
            q.new_virtual_position,
            q.counter_amount,
        ) matches Ok(w) && w.counter_amount <= base_in),
{
    if buy_quote(p, reserve, base_in) matches Ok(q) {
        if base_in == 0 {
        } else {
            let r = reserve as int;
            let b = base_in as int;
            let rho = r + b;
            let t = buy_tokens(p, r, b);
            lemma_buy_tokens_nonneg(p, r, b);
            if t == 0 {
            } else {
                // A positive quote forces a positive offset: with offset
                // zero the marginal numerator vanishes.
                if p.offset() == 0 {
                    if p.offset() + r > 0 {
                        let den0 = (p.offset() + r) * (p.offset() + r + b);
                        assert(p.supply() * p.scale() * p.offset() * b == 0) by (nonlinear_arith)
                            requires p.offset() == 0,
                        ;
                        assert(1 <= den0) by (nonlinear_arith)
                            requires 1 <= p.offset() + r, 1 <= b,
                                den0 == (p.offset() + r) * (p.offset() + r + b),
                        ;
                        vstd::arithmetic::div_mod::lemma_div_of0(den0);
                    }
                    assert(false);
                }
                let num = p.supply() * p.scale() * p.offset() * b;
                let den = (p.offset() + r) * (p.offset() + rho);
                assert(1 <= den) by (nonlinear_arith)
                    requires 1 <= p.offset() + r, 1 <= b, 0 <= r,
                        den == (p.offset() + r) * (p.offset() + rho), rho == r + b,
                ;
                lemma_fundamental_div_mod(num, den);
                vstd::arithmetic::div_mod::lemma_mod_division_less_than_divisor(num, den);
                assert(t * den <= num) by (nonlinear_arith)
                    requires t == num / den, num == den * (num / den) + num % den, 0 <= num % den,
                ;
                // The tokens of the buy never exceed the cumulative sale at
                // the post-trade reserve, so the sell is accepted.
                let csum_num = p.supply() * p.scale() * rho;
                assert(num * (p.offset() + rho) <= csum_num * den) by (nonlinear_arith)
                    requires
                        1 <= p.supply(),
                        1 <= p.scale(),
                        1 <= p.offset(),
                        0 <= r,
                        1 <= b,
                        rho == r + b,
                        num == p.supply() * p.scale() * p.offset() * b,
                        den == (p.offset() + r) * (p.offset() + rho),
                        csum_num == p.supply() * p.scale() * rho,
                ;
                lemma_frac_le(num, den, csum_num, p.offset() + rho);
                assert(t <= sold(p, rho));
                // Every payout beyond the amount paid in is inadmissible.
                assert forall|d: int| b < d <= rho implies !sell_admissible(
                    p,
                    rho,
                    t,
                    d,
                ) by {
                    assert(p.offset() + rho - d >= 1);
                    assert(p.supply() * p.scale() * p.offset() * d > t * ((p.offset() + rho) * (
                    p.offset() + rho - d))) by (nonlinear_arith)
                        requires
                            1 <= p.supply(),
                            1 <= p.scale(),
                            1 <= p.offset(),
                            0 <= r,
                            1 <= b,
                            1 <= t,
                            rho == r + b,
                            b + 1 <= d <= rho,
                            t * ((p.offset() + r) * (p.offset() + rho)) <= p.supply() * p.scale()
                                * p.offset() * b,
                    ;
                }
                lemma_payout_search_props(p, rho, t, rho);
                assert(sell_payout(p, rho, t) <= b);
            }
        }
    }
}

/// Zero-trade idempotence: a zero-size buy or sell is a valid no-op, quoting
/// a counter-amount of zero at an unchanged virtual position.
pub proof fn lemma_zero_trade(p: CurveParameters, reserve: u64)
    requires
        p.wf(),
    ensures
        buy_quote(p, reserve, 0) == Ok::<TradeQuote, PricingError>(TradeQuote {
            counter_amount: 0,
            new_virtual_position: reserve,
        }),
        sell_quote(p, reserve, 0) == Ok::<TradeQuote, PricingError>(TradeQuote {
            counter_amount: 0,
            new_virtual_position: reserve,
        }),
{
}

/// Reserve bound: a successful sell never pays out more than the real
/// escrowed reserve, and settles at a virtual position no higher than the
/// reserve it started from.
pub proof fn lemma_reserve_bound(p: CurveParameters, reserve: u64, tokens_in: u64)
    requires
        p.wf(),
    ensures
        sell_quote(p, reserve, tokens_in) matches Ok(q) ==> q.counter_amount <= reserve
            && q.new_virtual_position <= reserve,
{
    if sell_quote(p, reserve, tokens_in) matches Ok(q) {
        if tokens_in == 0 {
        } else {
            lemma_payout_search_props(p, reserve as int, tokens_in as int, reserve as int);
        }
    }
}

/// Overflow guard: with any escrowed reserve at all, a buy of the maximum
/// representable trade size cannot be represented and is refused with
/// `MathOverflow`; nothing is ever silently wrapped or truncated.
pub proof fn lemma_overflow_guard(p: CurveParameters, reserve: u64)
    requires
        p.wf(),
        1 <= reserve,
    ensures
        buy_quote(p, reserve, u64::MAX) == Err::<TradeQuote, PricingError>(
            PricingError::MathOverflow,
        ),
{
}

} // verus!
