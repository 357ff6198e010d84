//! The decision core of a sell instruction: everything the ledger layer must
//! compute and check between reading balances and moving them.
//!
//! Given the validated facts of the accounts involved (graduation flag,
//! whether the payment mint matches the accepted one, the token mint's
//! decimals) and the trade request, this produces either the complete
//! transfer plan or the exact rejection, in the same order the checks are
//! applied on chain: graduation, payment mint, decimal scaling, curve quote,
//! slippage guard, escrow balance. Applying the plan's two transfers is the
//! caller's concern; nothing here touches storage.

use vstd::prelude::*;
use crate::curve::CurveParameters;
use crate::curve::PricingError;
use crate::engine::TradeQuote;
use crate::engine::sell_quote;
use crate::engine::quote_sell_exact_input;
use crate::laws::lemma_reserve_bound;

verus! {

/// The rejections of a sell instruction, in the order they are checked.
#[derive(Clone, Copy, Debug, PartialEq, Eq, Structural)]
pub enum TradeError {
    /// The token has graduated; its escrowed assets are locked.
    TokenIsGraduated,
    /// The payment mint offered is not the accepted base mint.
    WrongPaymentMint,
    /// Scaling the token amount by the mint's decimals leaves `u64`.
    MathOverflow,
    /// The quoted payout fell below the caller's acceptable minimum.
    SlippageExceeded,
    /// The escrow does not hold the quoted payout. The engine's reserve
    /// bound proves this can never be reached; the check is kept as defense
    /// in depth.
    InsufficientEscrowBalance,
    /// The pricing engine refused the quote; its error is passed through.
    Pricing(PricingError),
}

/// The two transfers a validated sell performs, plus the diagnostic curve
/// position after the trade.
#[derive(Clone, Copy, Debug, PartialEq, Eq, Structural)]
pub struct SellPlan {
    /// Raw token units (scaled by the mint's decimals) the user sends to the vault.
    pub tokens_to_transfer: u64,
    /// Payment-asset units the escrow pays out to the user.
    pub base_amount_out: u64,
    /// The curve's reference reserve once the payout is applied.
    pub new_virtual_position: u64,
}

/// Ten to the `n`th power.
pub open spec fn pow10(n: nat) -> int
    decreases n,
{
    if n == 0 {
        1
    } else {
        10 * pow10((n - 1) as nat)
    }
}

/// Powers of ten are positive and grow with the exponent.
pub proof fn lemma_pow10_monotone(n1: nat, n2: nat)
    requires
        n1 <= n2,
    ensures
        1 <= pow10(n1) <= pow10(n2),
    decreases n2,
{
    if n2 == 0 {
    } else if n1 == n2 {
        lemma_pow10_monotone(0, (n2 - 1) as nat);
    } else {
        lemma_pow10_monotone(n1, (n2 - 1) as nat);
    }
}

/// Scales a whole-token amount into raw units by the mint's decimals:
/// `amount * 10^decimals`, or `None` exactly when that product leaves `u64`.
fn scale_by_decimals(amount: u64, decimals: u8) -> (result: Option<u64>)
    ensures
        result matches Some(v) ==> v == amount * pow10(decimals as nat),
        result is None <==> amount * pow10(decimals as nat) > u64::MAX,
{
    let mut acc: u64 = amount;
    let mut i: u8 = 0;
    while i < decimals
        invariant
            i <= decimals,
            acc == amount * pow10(i as nat),
        decreases decimals - i,
    {
        proof {
            lemma_pow10_monotone((i + 1) as nat, decimals as nat);
            assert(amount * pow10((i + 1) as nat) <= amount * pow10(decimals as nat))
                by (nonlinear_arith)
                requires
                    0 <= amount,
                    pow10((i + 1) as nat) <= pow10(decimals as nat),
            ;
            assert(amount * pow10(i as nat) * 10 == amount * pow10((i + 1) as nat))
                by (nonlinear_arith);
        }
        acc = match acc.checked_mul(10) {
            Some(v) => v,
            None => {
                return None;
            },
        };
        i = i + 1;
    }
    Some(acc)
}

/// The complete result of a sell instruction's decision sequence, case by
/// case, in the order the checks run on chain.
pub open spec fn sell_plan(
    p: CurveParameters,
    is_graduated: bool,
    payment_mint_matches: bool,
    mint_decimals: u8,
    user_token_amount: u64,
    min_base_amount_out: u64,
    escrow_reserve: u64,
) -> Result<SellPlan, TradeError> {
    if is_graduated {
        Err(TradeError::TokenIsGraduated)
    } else if !payment_mint_matches {
        Err(TradeError::WrongPaymentMint)
    } else if user_token_amount * pow10(mint_decimals as nat) > u64::MAX {
        Err(TradeError::MathOverflow)
    } else {
        match sell_quote(p, escrow_reserve, user_token_amount) {
            Err(e) => Err(TradeError::Pricing(e)),
            Ok(q) => if q.counter_amount < min_base_amount_out {
                Err(TradeError::SlippageExceeded)
            } else {
                Ok(SellPlan {
                    tokens_to_transfer: (user_token_amount * pow10(mint_decimals as nat)) as u64,
                    base_amount_out: q.counter_amount,
                    new_virtual_position: q.new_virtual_position,
                })
            },
        }
    }
}

/// Decides a sell of an exact token input: validates the accounts' facts,
/// scales the token amount to raw units, quotes the payout on the curve,
/// and enforces the caller's slippage guard. Returns the transfer plan or
/// the exact rejection; the result is precisely `sell_plan` applied to the
/// same inputs. The escrow-balance check of the on-chain path is kept, and
/// proved unreachable: a quoted payout never exceeds the escrowed reserve.
pub fn sell_exact_input_plan(
    params: &CurveParameters,
    is_graduated: bool,
    payment_mint_matches: bool,
    mint_decimals: u8,
    user_token_amount: u64,
    min_base_amount_out: u64,
    escrow_reserve: u64,
) -> (result: Result<SellPlan, TradeError>)
    requires
        params.wf(),
    ensures
        result == sell_plan(
            *params,
            is_graduated,
            payment_mint_matches,
            mint_decimals,
            user_token_amount,
            min_base_amount_out,
            escrow_reserve,
        ),
{
    if is_graduated {
        return Err(TradeError::TokenIsGraduated);
    }
    if !payment_mint_matches {
        return Err(TradeError::WrongPaymentMint);
    }
    let tokens_to_transfer: u64 = match scale_by_decimals(user_token_amount, mint_decimals) {
        Some(v) => v,
        None => {
            return Err(TradeError::MathOverflow);
        },
    };
    let quote: TradeQuote = match quote_sell_exact_input(escrow_reserve, user_token_amount, params)
        {
        Ok(q) => q,
        Err(e) => {
            return Err(TradeError::Pricing(e));
        },
    };
    if quote.counter_amount < min_base_amount_out {
        return Err(TradeError::SlippageExceeded);
    }
    if quote.counter_amount > escrow_reserve {
        proof {
            lemma_reserve_bound(*params, escrow_reserve, user_token_amount);
        }
        return Err(TradeError::InsufficientEscrowBalance);
    }
    Ok(SellPlan {
        tokens_to_transfer,
        base_amount_out: quote.counter_amount,
        new_virtual_position: quote.new_virtual_position,
    })
}

} // verus!
