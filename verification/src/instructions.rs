//! Decision logic of the instruction handlers.
//!
//! The handlers read vault balances and the LP supply from accounts,
//! compute transfer amounts, and move tokens. Reading and moving stay
//! with the caller; the decisions in between — genesis handling and
//! slippage enforcement — live here, over plain integers.
use vstd::prelude::*;

use crate::errors::CurveError;
use crate::errors::MegaAmmProgramError;
use crate::numerical_ops::pro_rata_share;

verus! {

use vstd::arithmetic::div_mod::lemma_div_multiples_vanish;
use vstd::arithmetic::div_mod::lemma_div_is_ordered;
use vstd::arithmetic::mul::lemma_mul_inequality;

/// Pro-rata token amounts that `lp_amount` LP shares stand for at the
/// current vault balances and supply, floored per asset. A share that
/// does not fit the native width (possible only when `lp_amount`
/// exceeds the supply) is rejected rather than truncated.
pub fn pro_rata_amounts(vault_x: u64, vault_y: u64, lp_supply: u64, lp_amount: u64) -> (r: Result<
    (u64, u64),
    CurveError,
>)
    requires
        lp_supply > 0,
    ensures
        r is Ok <==> (pro_rata_share(vault_x, lp_amount, lp_supply) <= u64::MAX && pro_rata_share(
            vault_y,
            lp_amount,
            lp_supply,
        ) <= u64::MAX),
        r is Ok ==> r->Ok_0.0 == pro_rata_share(vault_x, lp_amount, lp_supply) && r->Ok_0.1
            == pro_rata_share(vault_y, lp_amount, lp_supply),
        r is Err ==> r->Err_0 == CurveError::ScalingOverflow,
        lp_amount <= lp_supply ==> r is Ok,
{
    proof {
        assert(vault_x as int * lp_amount as int <= u128::MAX && vault_y as int * lp_amount as int
            <= u128::MAX) by (nonlinear_arith)
            requires
                vault_x <= u64::MAX,
                vault_y <= u64::MAX,
                lp_amount <= u64::MAX,
        ;
        if lp_amount <= lp_supply {
            lemma_mul_inequality(lp_amount as int, lp_supply as int, vault_x as int);
            lemma_div_is_ordered(
                vault_x as int * lp_amount as int,
                lp_supply as int * vault_x as int,
                lp_supply as int,
            );
            lemma_div_multiples_vanish(vault_x as int, lp_supply as int);
            lemma_mul_inequality(lp_amount as int, lp_supply as int, vault_y as int);
            lemma_div_is_ordered(
                vault_y as int * lp_amount as int,
                lp_supply as int * vault_y as int,
                lp_supply as int,
            );
            lemma_div_multiples_vanish(vault_y as int, lp_supply as int);
        }
    }
    let x_wide: u128 = (vault_x as u128) * (lp_amount as u128) / (lp_supply as u128);
    let y_wide: u128 = (vault_y as u128) * (lp_amount as u128) / (lp_supply as u128);
    if x_wide > u64::MAX as u128 || y_wide > u64::MAX as u128 {
        return Err(CurveError::ScalingOverflow);
    }
    Ok((x_wide as u64, y_wide as u64))
}

/// Decides what a deposit moves into the vaults.
///
/// On the very first deposit (no supply, both vaults empty) the caller's
/// limits are taken as the deposit itself, bootstrapping the pool.
/// Otherwise the curve-derived amounts `curve_x`/`curve_y` (the token
/// amounts that back the requested LP mint) are used, and each one is
/// checked against its own limit: a deposit that would exceed either
/// side's bound is rejected.
pub fn deposit_amounts(
    vault_x: u64,
    vault_y: u64,
    lp_supply: u64,
    max_x: u64,
    max_y: u64,
    curve_x: u64,
    curve_y: u64,
) -> (r: Result<(u64, u64), MegaAmmProgramError>)
    ensures
        (lp_supply == 0 && vault_x == 0 && vault_y == 0) ==> r == Ok::<
            (u64, u64),
            MegaAmmProgramError,
        >((max_x, max_y)),
        !(lp_supply == 0 && vault_x == 0 && vault_y == 0) && curve_x <= max_x && curve_y <= max_y
            ==> r == Ok::<(u64, u64), MegaAmmProgramError>((curve_x, curve_y)),
        !(lp_supply == 0 && vault_x == 0 && vault_y == 0) && (curve_x > max_x || curve_y > max_y)
            ==> r == Err::<(u64, u64), MegaAmmProgramError>(
            MegaAmmProgramError::InvalidInstructionData,
        ),
{
    if lp_supply == 0 && vault_x == 0 && vault_y == 0 {
        return Ok((max_x, max_y));
    }
    if curve_x <= max_x && curve_y <= max_y {
        Ok((curve_x, curve_y))
    } else {
        Err(MegaAmmProgramError::InvalidInstructionData)
    }
}

/// Decides what a withdrawal pays out of the vaults.
///
/// Burning the entire supply empties both vaults exactly; any other burn
/// uses the curve-derived amounts. A zero burn, a burn above the supply,
/// or a payout below either of the caller's minimum bounds is rejected.
pub fn withdraw_amounts(
    vault_x: u64,
    vault_y: u64,
    lp_supply: u64,
    burn_amount: u64,
    min_x: u64,
    min_y: u64,
    curve_x: u64,
    curve_y: u64,
) -> (r: Result<(u64, u64), MegaAmmProgramError>)
    ensures
        burn_amount == 0 || burn_amount > lp_supply ==> r == Err::<
            (u64, u64),
            MegaAmmProgramError,
        >(MegaAmmProgramError::InvalidInstructionData),
        0 < burn_amount == lp_supply && vault_x >= min_x && vault_y >= min_y ==> r == Ok::<
            (u64, u64),
            MegaAmmProgramError,
        >((vault_x, vault_y)),
        0 < burn_amount < lp_supply && curve_x >= min_x && curve_y >= min_y ==> r == Ok::<
            (u64, u64),
            MegaAmmProgramError,
        >((curve_x, curve_y)),
        0 < burn_amount == lp_supply && (vault_x < min_x || vault_y < min_y) ==> r is Err,
        0 < burn_amount < lp_supply && (curve_x < min_x || curve_y < min_y) ==> r is Err,
        r is Err ==> r->Err_0 == MegaAmmProgramError::InvalidInstructionData,
{
    if burn_amount == 0 || burn_amount > lp_supply {
        return Err(MegaAmmProgramError::InvalidInstructionData);
    }
    let x: u64;
    let y: u64;
    if burn_amount == lp_supply {
        x = vault_x;
        y = vault_y;
    } else {
        x = curve_x;
        y = curve_y;
    }
    if x >= min_x && y >= min_y {
        Ok((x, y))
    } else {
        Err(MegaAmmProgramError::InvalidInstructionData)
    }
}

} // verus!
