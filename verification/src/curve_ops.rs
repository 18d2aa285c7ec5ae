//! Liquidity-curve operations: deposit, withdrawal dispatch and swap,
//! built on the solvers of `numerical_ops`.
use vstd::prelude::*;

use crate::errors::CurveError;
use crate::numerical_ops::balanced_pair_fits;
use crate::numerical_ops::balanced_withdraw_spec;
use crate::numerical_ops::deposit_liquidity;
use crate::numerical_ops::imbalanced_payout;
use crate::numerical_ops::newton_solver_scaled;
use crate::numerical_ops::sum_u64;
use crate::numerical_ops::withdraw_balanced;
use crate::numerical_ops::withdraw_imbalanced;
use crate::numerical_ops::withdraw_imbalanced_spec;
use crate::numerical_ops::y_solver_spec;

verus! {

use vstd::arithmetic::div_mod::lemma_div_multiples_vanish;
use vstd::arithmetic::div_mod::lemma_div_is_ordered;
use vstd::arithmetic::div_mod::lemma_div_plus_one;
use vstd::arithmetic::mul::lemma_mul_inequality;
use vstd::arithmetic::mul::lemma_mul_is_distributive_add;

/// The swap fee in basis points taken from a raw payout: floor of
/// `raw * fee_bps / 10000`.
pub open spec fn swap_fee(raw: u64, fee_bps: u64) -> int {
    (raw * fee_bps) / 10000
}

/// Net amount delivered to the trader once the basis-point fee is
/// deducted from the raw payout.
pub open spec fn net_after_fee(raw: u64, fee_bps: u64) -> int {
    raw - swap_fee(raw, fee_bps)
}

/// Raising the fee never raises the net output, and a zero fee passes
/// the raw payout through untouched.
pub proof fn lemma_swap_fee_monotonic(raw: u64, fee_low: u64, fee_high: u64)
    requires
        fee_low <= fee_high,
    ensures
        net_after_fee(raw, fee_high) <= net_after_fee(raw, fee_low),
        fee_low == 0 ==> net_after_fee(raw, fee_low) == raw,
{
    lemma_mul_inequality(fee_low as int, fee_high as int, raw as int);
    lemma_div_is_ordered(raw as int * fee_low as int, raw as int * fee_high as int, 10000);
}

/// On a payout of at least one fee unit (10000), a strictly higher fee
/// rate strictly lowers the net output. (For smaller payouts the two
/// floored fees can coincide, so the strict claim needs this bound.)
pub proof fn lemma_swap_fee_strictly_monotonic(raw: u64, fee_low: u64, fee_high: u64)
    requires
        fee_low < fee_high <= 9999,
        raw >= 10000,
    ensures
        net_after_fee(raw, fee_high) < net_after_fee(raw, fee_low),
{
    let r = raw as int;
    let fl = fee_low as int;
    let fh = fee_high as int;
    lemma_mul_inequality(fl + 1, fh, r);
    lemma_mul_is_distributive_add(r, fl, 1);
    assert(r * fh >= r * fl + r);
    lemma_div_is_ordered(r * fl + 10000, r * fh, 10000);
    lemma_div_plus_one(r * fl, 10000);
    assert((r * fl + 10000) / 10000 == (r * fl) / 10000 + 1);
}

/// A basis-point fee below 100% keeps both the fee and the net payout
/// within `[0, raw]`.
proof fn lemma_swap_fee_in_range(raw: u64, fee_bps: u64)
    requires
        fee_bps <= 9999,
    ensures
        0 <= swap_fee(raw, fee_bps) <= raw,
        0 <= net_after_fee(raw, fee_bps) <= raw,
{
    assert(raw as int * fee_bps as int >= 0) by (nonlinear_arith);
    lemma_div_is_ordered(0, raw as int * fee_bps as int, 10000);
    lemma_mul_inequality(fee_bps as int, 10000, raw as int);
    lemma_div_is_ordered(raw as int * fee_bps as int, raw as int * 10000, 10000);
    lemma_div_multiples_vanish(raw as int, 10000);
}

/// The whole swap, as a value: solve the output side's new balance at
/// the target invariant, reject a solution above the old balance as
/// infeasible (`NegativeSwap`), and otherwise deliver the balance drop
/// net of the basis-point fee.
pub open spec fn stableswap_spec(x_i: u64, y_old: u64, fee: u64, amp: u64, d: u64, n: u32) -> Result<
    u64,
    CurveError,
> {
    match y_solver_spec(amp, x_i, d, n) {
        Err(e) => Err(e),
        Ok(yv) => if yv > y_old {
            Err(CurveError::NegativeSwap)
        } else {
            Ok((net_after_fee((y_old - yv) as u64, fee) as u64))
        },
    }
}

/// For the same reserves, amplification, target invariant and asset
/// count, the swap succeeds for one fee exactly when it succeeds for
/// any other, a higher fee never yields a higher output, and a zero fee
/// delivers the whole balance drop — the maximum over all fees.
pub proof fn lemma_stableswap_fee_monotonic(
    x_i: u64,
    y_old: u64,
    fee_low: u64,
    fee_high: u64,
    amp: u64,
    d: u64,
    n: u32,
)
    requires
        fee_low <= fee_high <= 9999,
    ensures
        stableswap_spec(x_i, y_old, fee_low, amp, d, n) is Ok <==> stableswap_spec(
            x_i,
            y_old,
            fee_high,
            amp,
            d,
            n,
        ) is Ok,
        stableswap_spec(x_i, y_old, fee_high, amp, d, n) is Ok ==> stableswap_spec(
            x_i,
            y_old,
            fee_high,
            amp,
            d,
            n,
        )->Ok_0 <= stableswap_spec(x_i, y_old, fee_low, amp, d, n)->Ok_0,
        (stableswap_spec(x_i, y_old, fee_low, amp, d, n) is Ok && fee_low == 0) ==> stableswap_spec(
            x_i,
            y_old,
            fee_low,
            amp,
            d,
            n,
        )->Ok_0 == y_old - y_solver_spec(amp, x_i, d, n)->Ok_0,
{
    match y_solver_spec(amp, x_i, d, n) {
        Err(_) => {},
        Ok(yv) => {
            if yv <= y_old {
                lemma_swap_fee_in_range((y_old - yv) as u64, fee_low);
                lemma_swap_fee_in_range((y_old - yv) as u64, fee_high);
                lemma_swap_fee_monotonic((y_old - yv) as u64, fee_low, fee_high);
            }
        },
    }
}

/// On a balance drop of at least one fee unit (10000), a strictly
/// higher fee strictly lowers the swap output.
pub proof fn lemma_stableswap_fee_strict(
    x_i: u64,
    y_old: u64,
    fee_low: u64,
    fee_high: u64,
    amp: u64,
    d: u64,
    n: u32,
)
    requires
        fee_low < fee_high <= 9999,
        stableswap_spec(x_i, y_old, fee_low, amp, d, n) is Ok,
        y_old - y_solver_spec(amp, x_i, d, n)->Ok_0 >= 10000,
    ensures
        stableswap_spec(x_i, y_old, fee_high, amp, d, n) is Ok,
        stableswap_spec(x_i, y_old, fee_high, amp, d, n)->Ok_0 < stableswap_spec(
            x_i,
            y_old,
            fee_low,
            amp,
            d,
            n,
        )->Ok_0,
{
    match y_solver_spec(amp, x_i, d, n) {
        Err(_) => {},
        Ok(yv) => {
            if yv <= y_old {
                lemma_swap_fee_in_range((y_old - yv) as u64, fee_low);
                lemma_swap_fee_in_range((y_old - yv) as u64, fee_high);
                lemma_swap_fee_strictly_monotonic((y_old - yv) as u64, fee_low, fee_high);
            }
        },
    }
}

/// Settlement of a swap: the raw payout is the drop of the output
/// asset's balance, and the basis-point fee is deducted from it.
///
/// A solver balance above the old one means the requested invariant
/// exceeds what the reserves support: the trade is rejected as
/// `NegativeSwap` instead of wrapping into a huge unsigned payout.
pub fn swap_payout(y_old: u64, y_new: u64, fee_bps: u64) -> (r: Result<u64, CurveError>)
    requires
        fee_bps <= 9999,
    ensures
        (y_new > y_old) <==> (r is Err && r->Err_0 == CurveError::NegativeSwap),
        y_new <= y_old ==> r is Ok && r->Ok_0 == net_after_fee((y_old - y_new) as u64, fee_bps),
{
    let amount_out_raw: u64 = match y_old.checked_sub(y_new) {
        Some(v) => v,
        None => {
            return Err(CurveError::NegativeSwap);
        },
    };
    proof {
        assert(amount_out_raw as int * fee_bps as int <= u128::MAX) by (nonlinear_arith)
            requires
                amount_out_raw <= u64::MAX,
                fee_bps <= 9999,
        ;
        lemma_mul_inequality(fee_bps as int, 10000, amount_out_raw as int);
        lemma_div_is_ordered(
            amount_out_raw as int * fee_bps as int,
            amount_out_raw as int * 10000,
            10000,
        );
        lemma_div_multiples_vanish(amount_out_raw as int, 10000);
    }
    let fee_wide: u128 = (amount_out_raw as u128) * (fee_bps as u128) / 10000;
    let fee: u64 = fee_wide as u64;
    Ok(amount_out_raw - fee)
}

/// LP shares minted for growing the invariant from `d_old` to `d_new`.
///
/// A genesis deposit (`d_old == 0`) bootstraps the pool and mints
/// exactly `d_new` shares. Afterwards the mint is the supply scaled by
/// the relative invariant growth, and a deposit that fails to strictly
/// grow the invariant is rejected outright — there is no silent
/// zero-mint.
pub fn lp_mint_amount(d_old: u64, d_new: u64, total_lp_supply: u64) -> (r: Result<u64, CurveError>)
    ensures
        d_old == 0 ==> r == Ok::<u64, CurveError>(d_new),
        (d_old > 0 && d_new <= d_old) <==> (r is Err && r->Err_0
            == CurveError::NegativeOrZeroSpread),
        (d_old > 0 && d_new > d_old && total_lp_supply * (d_new - d_old) > u64::MAX) <==> (r is Err
            && r->Err_0 == CurveError::Overflow),
        (d_old > 0 && d_new > d_old && total_lp_supply * (d_new - d_old) <= u64::MAX) ==> (r is Ok
            && r->Ok_0 == total_lp_supply * (d_new - d_old) / (d_old as int)),
{
    if d_old == 0 {
        return Ok(d_new);
    }
    if d_new <= d_old {
        return Err(CurveError::NegativeOrZeroSpread);
    }
    let spread: u64 = d_new - d_old;
    let scaled: u64 = match total_lp_supply.checked_mul(spread) {
        Some(v) => v,
        None => {
            return Err(CurveError::Overflow);
        },
    };
    Ok(scaled / d_old)
}

/// A perfectly proportional deposit — scaling balanced reserves of `r0`
/// per asset by the factor `k` — mints exactly `supply * (k - 1)`
/// shares: the floor division in the mint formula loses nothing.
pub proof fn lemma_proportional_deposit_mint(r0: u64, k: nat, supply: u64)
    requires
        r0 > 0,
        k >= 1,
    ensures
        supply * (2 * k * r0 - 2 * r0) / ((2 * r0) as int) == supply * (k - 1),
{
    assert(supply * (2 * k * r0 - 2 * r0) == (supply * (k - 1)) * (2 * r0)) by (nonlinear_arith);
    lemma_div_multiples_vanish(supply as int * (k - 1), 2 * r0 as int);
}

/// The StableSwap liquidity curve bound to a pool's reserves and swap
/// fee (in basis points).
pub struct MegaAmmStableSwapCurve {
    pub balances: Vec<u64>,
    pub fee: u64,
}

impl MegaAmmStableSwapCurve {
    /// LP shares to mint for bringing the pool from the bound reserves
    /// to `balances`: both invariants are solved and the mint follows
    /// `lp_mint_amount`. For balanced pools both invariants are pinned
    /// to the reserve sums, which makes genesis and proportional
    /// deposits exact.
    pub fn deposit_to_amm(
        &self,
        amp: u64,
        total_lp_supply: u64,
        n: u32,
        balances: &[u64],
    ) -> (r: Result<u64, CurveError>)
        ensures
            (sum_u64(self.balances@) == 0 && 1 <= self.balances@.len() <= 2 && balanced_pair_fits(
                balances@,
                amp,
                n,
            )) ==> (r is Ok && r->Ok_0 == 2 * balances@[0]),
            (balanced_pair_fits(self.balances@, amp, n) && balanced_pair_fits(balances@, amp, n))
                ==> {
                let d_old = 2 * self.balances@[0];
                let d_new = 2 * balances@[0];
                &&& d_new <= d_old ==> (r is Err && r->Err_0 == CurveError::NegativeOrZeroSpread)
                &&& (d_new > d_old && total_lp_supply * (d_new - d_old) <= u64::MAX) ==> (r is Ok
                    && r->Ok_0 == total_lp_supply * (d_new - d_old) / d_old)
                &&& (d_new > d_old && total_lp_supply * (d_new - d_old) > u64::MAX) ==> (r is Err
                    && r->Err_0 == CurveError::Overflow)
            },
    {
        let d_old: u64 = match deposit_liquidity(amp, self.balances.as_slice(), n) {
            Ok(v) => v,
            Err(e) => {
                return Err(e);
            },
        };
        let d_new: u64 = match deposit_liquidity(amp, balances, n) {
            Ok(v) => v,
            Err(e) => {
                return Err(e);
            },
        };
        lp_mint_amount(d_old, d_new, total_lp_supply)
    }

    /// Withdrawal dispatch. Mode 0 is the proportional path and honours
    /// `balanced_withdraw_spec` on the bound reserves; mode 1 is the
    /// single-asset path, which needs the current invariant and the
    /// amplification and pays everything out in the first asset; any
    /// other mode is rejected.
    pub fn withdraw_from_amm(
        &self,
        lp_to_burn: u64,
        total_lp_supply: u64,
        balanced_state: u8,
        d_current: Option<u64>,
        amp: Option<u64>,
    ) -> (r: Result<Vec<u64>, CurveError>)
        requires
            balanced_state == 1 ==> d_current is Some && amp is Some && self.balances@.len() == 2,
        ensures
            balanced_state > 1 <==> (r is Err && r->Err_0 == CurveError::InvalidWithdrawMode),
            r is Ok ==> r->Ok_0@.len() == 2,
            balanced_state == 0 ==> balanced_withdraw_spec(
                self.balances@,
                lp_to_burn,
                total_lp_supply,
                r,
            ),
            balanced_state == 1 && r is Ok ==> r->Ok_0@[1] == 0 && r->Ok_0@[0]
                <= self.balances@[0],
            balanced_state == 1 && (lp_to_burn == 0 || total_lp_supply == 0) ==> (r is Ok
                && r->Ok_0@[0] == 0 && r->Ok_0@[1] == 0),
            balanced_state == 1 ==> {
                let w = withdraw_imbalanced_spec(
                    lp_to_burn,
                    total_lp_supply,
                    self.balances@[0],
                    self.balances@[1],
                    d_current->0,
                    amp->0,
                );
                &&& (w is Err ==> r == Err::<Vec<u64>, CurveError>(w->Err_0))
                &&& (w is Ok ==> r is Ok && r->Ok_0@ =~= seq![w->Ok_0, 0u64])
            },
    {
        if balanced_state == 0 {
            withdraw_balanced(self.balances.as_slice(), lp_to_burn, total_lp_supply)
        } else if balanced_state == 1 {
            let d: u64 = match d_current {
                Some(v) => v,
                None => {
                    return Err(CurveError::InvalidWithdrawMode);
                },
            };
            let a: u64 = match amp {
                Some(v) => v,
                None => {
                    return Err(CurveError::InvalidWithdrawMode);
                },
            };
            let amount_out: u64 = match withdraw_imbalanced(
                lp_to_burn,
                total_lp_supply,
                self.balances.as_slice(),
                d,
                a,
            ) {
                Ok(v) => v,
                Err(e) => {
                    return Err(e);
                },
            };
            let mut out: Vec<u64> = Vec::new();
            out.push(amount_out);
            out.push(0);
            Ok(out)
        } else {
            Err(CurveError::InvalidWithdrawMode)
        }
    }

    /// Swap against the bound reserves, whose input side must already
    /// reflect the incoming amount: the combined balance of all assets
    /// but the last is fixed, the last asset's new balance is solved at
    /// the target invariant, and the balance drop minus the
    /// basis-point fee is delivered.
    ///
    /// An invariant beyond what the reserves support surfaces as
    /// `NegativeSwap` through `swap_payout`, never as a wrapped value,
    /// and the net output never exceeds the output asset's balance. The
    /// result is pinned completely: it equals `stableswap_spec`, and the
    /// fee-monotonicity laws hold of that value.
    pub fn stableswap(&self, amp: u64, target_token_balance: u64, n: u32) -> (r: Result<
        u64,
        CurveError,
    >)
        requires
            self.balances@.len() == 2,
            self.fee <= 9999,
        ensures
            r == stableswap_spec(
                self.balances@[0],
                self.balances@[1],
                self.fee,
                amp,
                target_token_balance,
                n,
            ),
            r is Ok ==> r->Ok_0 <= self.balances@[1],
            (r is Err && r->Err_0 == CurveError::ZeroBalance) <==> self.balances@[0] == 0,
    {
        let x_i: u64 = self.balances[0];
        let y_old: u64 = self.balances[1];
        let y_new: u64 = match newton_solver_scaled(amp, x_i, target_token_balance, n) {
            Ok(v) => v,
            Err(e) => {
                return Err(e);
            },
        };
        swap_payout(y_old, y_new, self.fee)
    }
}

} // verus!
