use bonding_curve::curve::CurveParameters;
use bonding_curve::curve::PricingError;
use bonding_curve::trade::sell_exact_input_plan;
use bonding_curve::trade::SellPlan;
use bonding_curve::trade::TradeError;

fn params() -> CurveParameters {
    CurveParameters::initialize(1_000_000, 1000, 1).unwrap()
}

#[test]
fn graduated_token_refuses_sells() {
    let p = params();
    assert_eq!(
        sell_exact_input_plan(&p, true, true, 6, 900, 0, 100),
        Err(TradeError::TokenIsGraduated)
    );
}

#[test]
fn mismatched_payment_mint_is_refused() {
    let p = params();
    assert_eq!(
        sell_exact_input_plan(&p, false, false, 6, 900, 0, 100),
        Err(TradeError::WrongPaymentMint)
    );
}

#[test]
fn decimal_scaling_overflow_is_refused() {
    let p = params();
    assert_eq!(
        sell_exact_input_plan(&p, false, true, 20, 1, 0, 100),
        Err(TradeError::MathOverflow)
    );
}

#[test]
fn slippage_below_the_minimum_is_refused() {
    let p = params();
    // A sell of 900 token units at reserve 100 pays out exactly 1.
    assert_eq!(
        sell_exact_input_plan(&p, false, true, 6, 900, 2, 100),
        Err(TradeError::SlippageExceeded)
    );
}

#[test]
fn engine_errors_pass_through() {
    let p = params();
    assert_eq!(
        sell_exact_input_plan(&p, false, true, 6, 5, 0, 0),
        Err(TradeError::Pricing(PricingError::InsufficientReserve))
    );
}

#[test]
fn accepted_sell_plans_both_transfers() {
    let p = params();
    assert_eq!(
        sell_exact_input_plan(&p, false, true, 6, 900, 1, 100),
        Ok(SellPlan {
            tokens_to_transfer: 900_000_000,
            base_amount_out: 1,
            new_virtual_position: 99,
        })
    );
}

#[test]
fn zero_amount_sell_is_a_no_op_plan() {
    let p = params();
    assert_eq!(
        sell_exact_input_plan(&p, false, true, 9, 0, 0, 100),
        Ok(SellPlan {
            tokens_to_transfer: 0,
            base_amount_out: 0,
            new_virtual_position: 100,
        })
    );
}
