use bonding_curve::curve::CurveParameters;
use bonding_curve::curve::PricingError;
use bonding_curve::engine::quote_buy_exact_input;
use bonding_curve::engine::quote_sell_exact_input;
use bonding_curve::engine::TradeQuote;

fn params(a: u64, k: u128, c: u128) -> CurveParameters {
    CurveParameters::initialize(a, k, c).unwrap()
}

#[test]
fn initialize_accepts_valid_constants() {
    let p = CurveParameters::initialize(1_000_000, 1000, 1).unwrap();
    assert_eq!(p.total_issuable_tokens, 1_000_000);
    assert_eq!(p.virtual_reserve_offset, 1000);
    assert_eq!(p.scale_factor, 1);
}

#[test]
fn initialize_rejects_zero_supply() {
    assert_eq!(
        CurveParameters::initialize(0, 1000, 1),
        Err(PricingError::InvalidParameters)
    );
}

#[test]
fn initialize_rejects_zero_scale_factor() {
    assert_eq!(
        CurveParameters::initialize(1_000_000, 1000, 0),
        Err(PricingError::InvalidParameters)
    );
}

#[test]
fn zero_trades_are_no_ops() {
    let p = params(1_000_000, 1000, 1);
    assert_eq!(
        quote_buy_exact_input(5, 0, &p),
        Ok(TradeQuote { counter_amount: 0, new_virtual_position: 5 })
    );
    assert_eq!(
        quote_sell_exact_input(7, 0, &p),
        Ok(TradeQuote { counter_amount: 0, new_virtual_position: 7 })
    );
}

#[test]
fn first_buy_from_empty_reserve_is_deterministic_and_priced_by_offset() {
    let p = params(1_000_000, 1000, 1);
    let q = quote_buy_exact_input(0, 100, &p).unwrap();
    assert_eq!(q.counter_amount, 90_909);
    assert_eq!(q.new_virtual_position, 100);
    // Reproducible: the same inputs always quote the same amount.
    assert_eq!(quote_buy_exact_input(0, 100, &p).unwrap(), q);
    // The same input at a higher reserve yields strictly fewer tokens:
    // the price rose with the reserve.
    let later = quote_buy_exact_input(10_000, 100, &p).unwrap();
    assert_eq!(later.counter_amount, 819);
    assert_eq!(later.new_virtual_position, 10_100);
    assert!(later.counter_amount > 0);
    assert!(later.counter_amount < q.counter_amount);
}

#[test]
fn sequential_buys_yield_diminishing_tokens() {
    let p = params(1_000_000, 1000, 1);
    let first = quote_buy_exact_input(0, 100, &p).unwrap();
    let second = quote_buy_exact_input(first.new_virtual_position, 100, &p).unwrap();
    assert_eq!(first.counter_amount, 90_909);
    assert_eq!(second.counter_amount, 75_757);
    assert!(second.counter_amount <= first.counter_amount);
}

#[test]
fn selling_back_a_buy_never_profits() {
    let p = params(1_000_000, 1000, 1);
    let bought = quote_buy_exact_input(0, 100, &p).unwrap();
    let sold_back =
        quote_sell_exact_input(bought.new_virtual_position, bought.counter_amount, &p).unwrap();
    assert!(sold_back.counter_amount <= 100);
    // The floored buy left the trader 0.09 token units short of the exact
    // curve, so the payout stops one unit below the full round trip.
    assert_eq!(sold_back.counter_amount, 99);
    assert_eq!(sold_back.new_virtual_position, 1);
}

#[test]
fn partial_sell_pays_the_floored_exact_rollback() {
    let p = params(1_000_000, 1000, 1);
    // The exact rollback for 900 token units at reserve 100 is about 1.088
    // payment units; the payout floors it.
    let q = quote_sell_exact_input(100, 900, &p).unwrap();
    assert_eq!(q.counter_amount, 1);
    assert_eq!(q.new_virtual_position, 99);
}

#[test]
fn quoted_tokens_never_rise_with_the_reserve() {
    let p = params(1_000_000, 1000, 1);
    let mut previous = u64::MAX;
    for reserve in [0u64, 100, 1_000, 10_000, 100_000] {
        let q = quote_buy_exact_input(reserve, 100, &p).unwrap();
        assert!(q.counter_amount <= previous);
        previous = q.counter_amount;
    }
}

#[test]
fn tiny_buys_round_down_to_zero() {
    let p = params(2, 2, 1);
    // The exact curve difference for one payment unit here is below one
    // token at either reserve; both quotes floor to zero, and the richer
    // reserve never quotes more.
    assert_eq!(
        quote_buy_exact_input(0, 1, &p),
        Ok(TradeQuote { counter_amount: 0, new_virtual_position: 1 })
    );
    assert_eq!(
        quote_buy_exact_input(1, 1, &p),
        Ok(TradeQuote { counter_amount: 0, new_virtual_position: 2 })
    );
}

#[test]
fn tiny_sells_round_down_to_zero() {
    let p = params(10, 1, 1);
    // The exact rollback for one token unit at reserve 1 is a third of a
    // payment unit; the payout floors to zero.
    assert_eq!(
        quote_sell_exact_input(1, 1, &p),
        Ok(TradeQuote { counter_amount: 0, new_virtual_position: 1 })
    );
}

#[test]
fn sell_payout_never_exceeds_the_reserve() {
    let p = params(1_000_000, 1000, 1);
    for tokens in [1u64, 10, 900, 5_000, 90_909] {
        let q = quote_sell_exact_input(100, tokens, &p).unwrap();
        assert!(q.counter_amount <= 100);
        assert!(q.new_virtual_position <= 100);
    }
}

#[test]
fn max_trade_size_overflows_instead_of_wrapping() {
    let p = params(1_000_000, 1000, 1);
    assert_eq!(
        quote_buy_exact_input(1, u64::MAX, &p),
        Err(PricingError::MathOverflow)
    );
}

#[test]
fn wide_scale_factor_overflows_the_intermediate_product() {
    let p = params(1, 1, u128::MAX);
    assert_eq!(
        quote_buy_exact_input(0, 2, &p),
        Err(PricingError::MathOverflow)
    );
}

#[test]
fn sell_overflows_when_the_offset_saturates_the_domain() {
    let p = params(1, u128::MAX, 1);
    assert_eq!(
        quote_sell_exact_input(1, 1, &p),
        Err(PricingError::MathOverflow)
    );
}

#[test]
fn buying_past_the_issuable_supply_is_exhausted() {
    let p = params(100, 10, 200);
    assert_eq!(
        quote_buy_exact_input(0, 1000, &p),
        Err(PricingError::CurveExhausted)
    );
}

#[test]
fn selling_more_than_was_ever_sold_is_insufficient() {
    let p = params(1_000_000, 1000, 1);
    assert_eq!(
        quote_sell_exact_input(0, 5, &p),
        Err(PricingError::InsufficientReserve)
    );
    assert_eq!(
        quote_sell_exact_input(100, 90_910, &p),
        Err(PricingError::InsufficientReserve)
    );
}

#[test]
fn zero_offset_curve_never_sells_tokens() {
    // With no virtual offset the starting price is unbounded: every buy
    // quotes zero tokens, at any reserve.
    let p = params(5, 0, 1);
    assert_eq!(
        quote_buy_exact_input(0, 10, &p),
        Ok(TradeQuote { counter_amount: 0, new_virtual_position: 10 })
    );
    assert_eq!(
        quote_buy_exact_input(7, 10, &p),
        Ok(TradeQuote { counter_amount: 0, new_virtual_position: 17 })
    );
}

#[test]
fn round_trips_never_profit_across_a_grid() {
    for a in [1u64, 7, 1_000, 1_000_000] {
        for k in [0u128, 1, 13, 1000, 1 << 40] {
            for c in [1u128, 2, 9, 5_000] {
                let p = params(a, k, c);
                for reserve in [0u64, 1, 99, 12_345] {
                    for amount in [1u64, 2, 100, 54_321] {
                        let Ok(bought) = quote_buy_exact_input(reserve, amount, &p) else {
                            continue;
                        };
                        let sold_back = quote_sell_exact_input(
                            bought.new_virtual_position,
                            bought.counter_amount,
                            &p,
                        )
                        .unwrap();
                        // Selling back what was just bought never pays out
                        // more than the buy took in, and never more than the
                        // escrowed reserve.
                        assert!(sold_back.counter_amount <= amount);
                        assert!(sold_back.counter_amount <= bought.new_virtual_position);
                    }
                }
            }
        }
    }
}

#[test]
fn zero_offset_sell_follows_the_step_curve() {
    let p = params(5, 0, 1);
    // The zero-offset curve's exact sale at reserve 10 is all 5 token
    // units, attributed entirely to the first payment unit. Returning fewer
    // than all of them releases everything but that first step; returning
    // all of them releases the whole reserve.
    assert_eq!(
        quote_sell_exact_input(10, 3, &p),
        Ok(TradeQuote { counter_amount: 9, new_virtual_position: 1 })
    );
    assert_eq!(
        quote_sell_exact_input(10, 5, &p),
        Ok(TradeQuote { counter_amount: 10, new_virtual_position: 0 })
    );
    assert_eq!(
        quote_sell_exact_input(10, 6, &p),
        Err(PricingError::InsufficientReserve)
    );
}
