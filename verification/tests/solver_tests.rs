use mega_amm_protocol::errors::CurveError;
use mega_amm_protocol::numerical_ops::deposit_liquidity;
use mega_amm_protocol::numerical_ops::newton_solver_scaled;
use mega_amm_protocol::numerical_ops::withdraw_balanced;
use mega_amm_protocol::numerical_ops::withdraw_imbalanced;

const PRECISION: u128 = 1_000_000_000_000_000_000; // 1e18

#[test]
fn test_perfect_balance() {
    // Pool: 100 USDC, 100 USDT. D = 200. Amp = 100.
    // If x_i is 100, y must be 100.
    let d = 200;
    let x_i = 100;
    let amp = 100;
    let n = 2;

    let result = newton_solver_scaled(amp, x_i, d, n).expect("Should converge");

    // In a perfectly balanced pool, y should be exactly equal to x_i
    assert!(
        (result as i128 - x_i as i128).abs() <= 100,
        "Result {} too far from 100",
        result
    );
}

#[test]
fn test_imbalance_high_amp() {
    // High Amp (1000) makes the curve flatter (like x + y = D)
    // D = 2000. If x = 500, y should be close to 1500.
    let d = 2000;
    let x_i = 500;
    let amp = 1000;
    let n = 2;

    let result = newton_solver_scaled(amp, x_i, d, n).expect("Should converge");

    // 500 + 1500 = 2000. Because it's StableSwap, it should be very close to 1500.
    let expected = 1500;
    let diff = result - expected;
    assert!(diff < 1, "Diff {} too high for high amp", diff);
}

#[test]
fn test_imbalance_low_amp() {
    // Low Amp (1) makes it behave more like Constant Product (xy = k)
    let d = 200;
    let x_i = 50; // 1/4 of D
    let amp = 1;
    let n = 2;

    let result = newton_solver_scaled(amp, x_i, d, n).expect("Should converge");

    // In Constant Product, if x is small, y must be much larger to maintain D.
    assert!(result > (d / 2).into(), "y should be larger than half of D when x is small");
    assert!(result < (d * 2).into(), "y should not explode to infinity");
}

#[test]
fn test_extreme_imbalance_protection() {
    // Test where x_i is nearly the entire D.
    let d = 1000;
    let x_i = 999;
    let amp = 100;
    let n = 2;

    let result = newton_solver_scaled(amp, x_i, d, n);
    // Should either converge to a tiny y or fail gracefully, not panic.
    assert!(result.is_ok());
    assert!(u128::from(result.unwrap()) < PRECISION);
}

#[test]
fn test_zero_balance_fails() {
    let d = 100;
    let x_i = 0; // Invalid input
    let amp = 100;
    let n = 2;

    let result = newton_solver_scaled(amp, x_i, d, n);
    assert!(result.is_err(), "Should fail when balance is zero");
}

// ====================== TESTING DEPOSITING Liquidity ============================
//
// Helper to simulate the D-invariant formula for verification
// LHS: Ann * S + D
// RHS: Ann * D + D^(n+1) / (n^n * Prod(x))
fn verify_invariant_error(balances: &[u64], amp: u64, d_found: u64) -> i128 {
    let n = balances.len() as u128;
    let d = d_found as u128;
    let sum_x: u128 = balances.iter().map(|&x| x as u128).sum();

    let mut ann = amp as u128;
    for _ in 0..n {
        ann *= n;
    }

    let mut d_p = d;
    for &x in balances {
        // d_p = d_p * D / (x * n)
        d_p = (d_p * d) / (x as u128 * n);
    }

    let lhs = (ann * sum_x) + d;
    let rhs = (ann * d) + d_p;

    lhs as i128 - rhs as i128
}

#[test]
fn test_deposit_balanced_pool() {
    // 1:1 Pool: D should exactly equal the sum of balances
    let balances = [1_000_000u64, 1_000_000u64];
    let amp = 100u64;
    let n = 2u32;

    let d = deposit_liquidity(amp, &balances, n).expect("Should converge");

    assert_eq!(d, 2_000_000);
    assert!(verify_invariant_error(&balances, amp, d).abs() <= 1);
}

#[test]
fn test_deposit_imbalanced_pool() {
    // High imbalance: 1M vs 100k
    let balances = [1_000_000u64, 100_000u64];
    let amp = 100u64;
    let n = 2u32;

    let d = deposit_liquidity(amp, &balances, n).expect("Should converge");

    // Property: In StableSwap, D is always >= sum(x)
    assert!(d <= 1_100_000 && d > 1_000_000);

    // For 18 decimal math, make residual error under 1000 as it is still highly precise.
    let error = verify_invariant_error(&balances, amp, d);
    assert!(error.abs() <= 1000, "Residual error too high: {}", error);
}

#[test]
fn test_high_amplification_behavior() {
    // With very high A, the curve becomes a straight line (Constant Sum)
    // D should stay very close to the sum even with imbalance
    let balances = [1_000_000u64, 500_000u64];
    let amp_low = 1u64;
    let amp_high = 10_000u64;
    let n = 2u32;

    let d_low = deposit_liquidity(amp_low, &balances, n).unwrap();
    let d_high = deposit_liquidity(amp_high, &balances, n).unwrap();

    // High A pushes D closer to the sum_x, increasing its value
    // Checking if amplification parameter A increases D.
    assert!(d_high > d_low);
    assert!(d_high <= 1_500_000);
}

#[test]
fn test_zero_balances() {
    let balances = [0u64, 0u64];
    let d = deposit_liquidity(100, &balances, 2).unwrap();
    assert_eq!(d, 0);
}

#[test]
fn test_single_token_deposit() {
    // Pool with liquidity only in one side
    let balances = [1_000_000u64, 0u64];
    let amp = 100u64;
    let d = deposit_liquidity(amp, &balances, 2).expect("Should handle one zero balance");

    // D should be sightly less than 1_000_000 due to the imbalance
    assert!(d > 0);
    assert!(d <= 1_000_000);
}

#[test]
fn test_max_u64_limits() {
    // Testing large values that might cause internal overflows if math is fragile
    let balances = [u64::MAX / 1000, u64::MAX / 1000];
    let amp = 100u64;

    let result = deposit_liquidity(amp, &balances, 2);
    // This will either succeed or return a clean Error, not a panic.
    assert!(result.is_ok() || result.is_err());
}

// =============== TESTING WITHDRAWALS ==============
//
//
#[test]
fn test_withdraw_half_supply() {
    // Setup: Balanced pool [1M, 1M] -> D = 2M
    let current_balances = [1_000_000u64, 1_000_000u64];
    let total_lp_supply = 2_000_000u64;
    let d_current = 2_000_000u64;
    let amp = 100u64;

    // User burns half the supply (1M LP tokens)
    let lp_to_burn = 1_000_000u64;

    let amount_out = withdraw_imbalanced(
        lp_to_burn,
        total_lp_supply,
        &current_balances,
        d_current,
        amp,
    )
    .expect("Withdrawal should converge");

    // Withdrawing 50% D from one side requires almost taking entire balance
    // from that side
    assert!(amount_out > 900_000, "Reflec hight convexity exit");
    assert!(amount_out < 1_000_000, "Cannot exceed current balance");
}

#[test]
fn test_withdraw_from_imbalanced_pool() {
    // Setup: Imbalanced pool [1M, 500k]
    // From previous tests, we know D will be < 1.5M (approx 1,470,000 for low A)
    let current_balances = [1_000_000u64, 500_000u64];
    let total_lp_supply = 1_470_000u64;
    let d_current = 1_470_000u64;
    let amp = 10u64;

    let lp_to_burn = 147_000u64; // Burning 10% of supply

    let amount_out = withdraw_imbalanced(
        lp_to_burn,
        total_lp_supply,
        &current_balances,
        d_current,
        amp,
    )
    .expect("Should handle imbalanced exit");

    // Withdrawing oversupplied tokens results in rebalancing bonus
    // The user should get roughly 10% of the first token's balance
    assert!(amount_out > 0);
    assert!(amount_out > 100_000, "Should receive rebalancing bonus"); // 10% of 1M is 100k; minus fees and slippage
    assert!(amount_out < 200_000, "Should not exceed reasonable bound");
}

#[test]
fn test_withdraw_too_much_fails() {
    let current_balances = [1_000_000u64, 1_000_000u64];
    let total_lp_supply = 2_000_000u64;

    // Attempt to burn more than exists
    let result = withdraw_imbalanced(2_000_001, total_lp_supply, &current_balances, 2_000_000, 100);

    assert_eq!(result, Err(CurveError::Underflow));
}

#[test]
fn test_zero_burn_returns_zero() {
    let current_balances = [1_000_000u64, 1_000_000u64];
    let amount = withdraw_imbalanced(0, 2_000_000, &current_balances, 2_000_000, 100).unwrap();
    assert_eq!(amount, 0);
}

// ======================== TESTING WITHDRAWAL FROM A BALANCED POOL ==========================
#[test]
fn test_balanced_withdrawal_half_supply() {
    // Setup: Balanced pool [1,000,000, 1,000,000]
    let reserves = [1_000_000u64, 1_000_000u64];
    let total_lp_supply = 2_000_000u64;
    let lp_to_burn = 1_000_000u64; // Burning exactly 50%

    let amounts_out = withdraw_balanced(&reserves, lp_to_burn, total_lp_supply)
        .expect("Should calculate proportional withdrawal");

    // In a balanced withdrawal, 50% LP burn = 50% of EACH asset.
    // Result should be [500,000, 500,000]
    assert_eq!(amounts_out[0], 500_000);
    assert_eq!(amounts_out[1], 500_000);
}

#[test]
fn test_balanced_withdrawal_imbalanced_pool() {
    // Setup: Imbalanced pool [1,000,000, 500,000]
    let reserves = [1_000_000u64, 500_000u64];
    let total_lp_supply = 1_500_000u64;
    let lp_to_burn = 150_000u64; // Burning exactly 10%

    let amounts_out = withdraw_balanced(&reserves, lp_to_burn, total_lp_supply)
        .expect("Should handle imbalanced pool proportional exit");

    // Result: 10% of 1M = 100k, 10% of 500k = 50k
    assert_eq!(amounts_out[0], 100_000);
    assert_eq!(amounts_out[1], 50_000);
}

#[test]
fn test_balanced_withdrawal_rounding() {
    // Setup: Testing precision with odd numbers
    let reserves = [100u64, 100u64];
    let total_lp_supply = 300u64;
    let lp_to_burn = 100u64; // 1/3rd of the supply

    let amounts_out = withdraw_balanced(&reserves, lp_to_burn, total_lp_supply).unwrap();

    // (100 * 100) / 300 = 33.33 -> rounds down to 33
    assert_eq!(amounts_out[0], 33);
    assert_eq!(amounts_out[1], 33);
}

#[test]
fn test_balanced_withdrawal_burn_exceeds_supply() {
    let reserves = [1_000_000u64, 1_000_000u64];
    let result = withdraw_balanced(&reserves, 11, 10);
    assert_eq!(result, Err(CurveError::BurnExceedsSupply));
}
