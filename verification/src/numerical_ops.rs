//! Primitive arithmetic helpers and the two Newton-Raphson solvers the
//! liquidity curve is built on.
//!
//! All solver arithmetic runs in `u128` (twice the native balance width)
//! and uses checked operations exclusively: overflow surfaces as an error,
//! never as a silent wrap. Results are narrowed back to `u64` at the
//! output boundary with an explicit range check.
use vstd::prelude::*;

use crate::errors::CurveError;

verus! {

use vstd::arithmetic::power::pow;
use vstd::arithmetic::power::lemma_pow1;
use vstd::arithmetic::power::lemma_pow_adds;
use vstd::arithmetic::power::lemma_pow_increases;
use vstd::arithmetic::power::lemma0_pow;
use vstd::arithmetic::div_mod::lemma_div_multiples_vanish;
use vstd::arithmetic::div_mod::lemma_div_is_ordered;
use vstd::arithmetic::mul::lemma_mul_inequality;

/// Mathematical sum of a sequence of wide reserves.
pub open spec fn sum_u128(s: Seq<u128>) -> int
    decreases s.len(),
{
    if s.len() == 0 {
        0
    } else {
        sum_u128(s.drop_last()) + s.last()
    }
}

/// Mathematical sum of a sequence of native-width reserves.
pub open spec fn sum_u64(s: Seq<u64>) -> int
    decreases s.len(),
{
    if s.len() == 0 {
        0
    } else {
        sum_u64(s.drop_last()) + s.last()
    }
}

/// Mathematical product of a sequence of wide reserves.
pub open spec fn prod_u128(s: Seq<u128>) -> int
    decreases s.len(),
{
    if s.len() == 0 {
        1
    } else {
        prod_u128(s.drop_last()) * s.last()
    }
}

/// Largest element of a non-empty sequence, 0 for the empty one.
pub open spec fn max_u128(s: Seq<u128>) -> int
    decreases s.len(),
{
    if s.len() == 0 {
        0
    } else if s.last() >= max_u128(s.drop_last()) {
        s.last() as int
    } else {
        max_u128(s.drop_last())
    }
}

/// Extending a prefix by one element adds that element to its sum.
pub proof fn lemma_sum_u128_take_succ(s: Seq<u128>, i: int)
    requires
        0 <= i < s.len(),
    ensures
        sum_u128(s.take(i + 1)) == sum_u128(s.take(i)) + s[i],
{
    assert(s.take(i + 1).drop_last() =~= s.take(i));
    assert(s.take(i + 1).last() == s[i]);
}

/// A prefix of non-negative values never sums to more than the whole.
pub proof fn lemma_sum_u128_take_le(s: Seq<u128>, i: int)
    requires
        0 <= i <= s.len(),
    ensures
        sum_u128(s.take(i)) <= sum_u128(s),
    decreases s.len() - i,
{
    if i == s.len() {
        assert(s.take(i) =~= s);
    } else {
        lemma_sum_u128_take_succ(s, i);
        lemma_sum_u128_take_le(s, i + 1);
    }
}

/// Same step fact for products.
pub proof fn lemma_prod_u128_take_succ(s: Seq<u128>, i: int)
    requires
        0 <= i < s.len(),
    ensures
        prod_u128(s.take(i + 1)) == prod_u128(s.take(i)) * s[i],
{
    assert(s.take(i + 1).drop_last() =~= s.take(i));
    assert(s.take(i + 1).last() == s[i]);
}

/// Checked fold-add over the reserve list in wide arithmetic.
///
/// Succeeds exactly when the mathematical sum fits in `u128`; an empty
/// list sums to 0.
pub fn constant_sum(reserves: &[u128]) -> (r: Result<u128, CurveError>)
    ensures
        r is Ok <==> sum_u128(reserves@) <= u128::MAX,
        r is Ok ==> r->Ok_0 == sum_u128(reserves@),
        r is Err ==> r->Err_0 == CurveError::Overflow,
{
    let ghost s = reserves@;
    let mut acc: u128 = 0;
    let mut i: usize = 0;
    while i < reserves.len()
        invariant
            0 <= i <= s.len(),
            reserves@ == s,
            acc == sum_u128(s.take(i as int)),
        decreases s.len() - i,
    {
        proof {
            lemma_sum_u128_take_succ(s, i as int);
        }
        acc = match acc.checked_add(reserves[i]) {
            Some(v) => v,
            None => {
                proof {
                    lemma_sum_u128_take_le(s, i + 1);
                }
                return Err(CurveError::Overflow);
            },
        };
        i = i + 1;
    }
    proof {
        assert(s.take(s.len() as int) =~= s);
    }
    Ok(acc)
}

/// Checked fold-multiply over the reserve list, starting from 1.
///
/// An empty list yields the empty-product identity 1. The fold fails
/// exactly when some prefix product exceeds the `u128` range, which is
/// where the running checked multiplication first overflows.
pub fn constant_product(reserves: &[u128]) -> (r: Result<u128, CurveError>)
    ensures
        r is Ok <==> (forall|k: int|
            0 <= k <= reserves@.len() ==> prod_u128(reserves@.take(k)) <= u128::MAX),
        r is Ok ==> r->Ok_0 == prod_u128(reserves@),
        r is Err ==> r->Err_0 == CurveError::Overflow,
{
    let ghost s = reserves@;
    let mut acc: u128 = 1;
    let mut i: usize = 0;
    while i < reserves.len()
        invariant
            0 <= i <= s.len(),
            reserves@ == s,
            acc == prod_u128(s.take(i as int)),
            forall|k: int| 0 <= k <= i ==> prod_u128(s.take(k)) <= u128::MAX,
        decreases s.len() - i,
    {
        proof {
            lemma_prod_u128_take_succ(s, i as int);
        }
        acc = match acc.checked_mul(reserves[i]) {
            Some(v) => v,
            None => {
                return Err(CurveError::Overflow);
            },
        };
        i = i + 1;
    }
    proof {
        assert(s.take(s.len() as int) =~= s);
    }
    Ok(acc)
}

/// Element-wise lossless widening of native reserves into a wide buffer.
///
/// Entries of `out` beyond the source length keep their previous values;
/// a destination with fewer slots than the source is rejected before any
/// write happens.
pub fn u64_to_u128_inplace(reserve: &[u64], out: &mut Vec<u128>) -> (r: Result<(), CurveError>)
    ensures
        final(out)@.len() == old(out)@.len(),
        r is Ok <==> old(out)@.len() >= reserve@.len(),
        r is Err ==> r->Err_0 == CurveError::BufferTooSmall && final(out)@ == old(out)@,
        r is Ok ==> forall|k: int|
            0 <= k < reserve@.len() ==> final(out)@[k] == reserve@[k] as u128,
        r is Ok ==> forall|k: int|
            reserve@.len() <= k < final(out)@.len() ==> final(out)@[k] == old(out)@[k],
{
    if out.len() < reserve.len() {
        return Err(CurveError::BufferTooSmall);
    }
    let mut i: usize = 0;
    while i < reserve.len()
        invariant
            0 <= i <= reserve@.len(),
            reserve@.len() <= out@.len(),
            out@.len() == old(out)@.len(),
            forall|k: int| 0 <= k < i ==> out@[k] == reserve@[k] as u128,
            forall|k: int| i <= k < out@.len() ==> out@[k] == old(out)@[k],
        decreases reserve@.len() - i,
    {
        out.set(i, reserve[i] as u128);
        i = i + 1;
    }
    Ok(())
}

/// Repeated checked multiplication: `base` to the power `exp`, or `None`
/// when the true power does not fit in `u128`.
fn checked_pow_u128(base: u128, exp: u32) -> (r: Option<u128>)
    ensures
        match r {
            Some(v) => v == pow(base as int, exp as nat),
            None => pow(base as int, exp as nat) > u128::MAX,
        },
{
    proof {
        vstd::arithmetic::power::lemma_pow0(base as int);
    }
    if exp == 0 {
        return Some(1);
    }
    if base == 0 {
        proof {
            lemma0_pow(exp as nat);
        }
        return Some(0);
    }
    let mut acc: u128 = 1;
    let mut i: u32 = 0;
    while i < exp
        invariant
            0 <= i <= exp,
            base >= 1,
            acc == pow(base as int, i as nat),
        decreases exp - i,
    {
        proof {
            lemma_pow_adds(base as int, i as nat, 1nat);
            lemma_pow1(base as int);
        }
        acc = match acc.checked_mul(base) {
            Some(v) => v,
            None => {
                proof {
                    lemma_pow_increases(base as nat, (i + 1) as nat, exp as nat);
                }
                return None;
            },
        };
        i = i + 1;
    }
    Some(acc)
}

/// The inputs for which the deposit-path invariant solver is pinned down
/// exactly: a two-asset pool with equal positive reserves, a positive
/// amplification, and sizes small enough that no intermediate product
/// leaves the `u128` range.
pub open spec fn balanced_pair_fits(balances: Seq<u64>, amp: u64, n: u32) -> bool {
    &&& balances.len() == 2
    &&& balances[0] == balances[1]
    &&& balances[0] > 0
    &&& n == 2
    &&& amp >= 1
    &&& 16 * amp * balances[0] * balances[0] + 8 * balances[0] * balances[0] <= u128::MAX
    &&& 2 * balances[0] <= u64::MAX
}

/// Sum of a sequence of at most two native reserves, spelled out.
proof fn lemma_sum_u64_small(s: Seq<u64>)
    requires
        s.len() <= 2,
    ensures
        s.len() == 0 ==> sum_u64(s) == 0,
        s.len() == 1 ==> sum_u64(s) == s[0],
        s.len() == 2 ==> sum_u64(s) == s[0] + s[1],
{
    assert(sum_u64(Seq::<u64>::empty()) == 0);
    if s.len() == 1 {
        assert(s.drop_last() =~= Seq::<u64>::empty());
        assert(sum_u64(s) == sum_u64(s.drop_last()) + s.last());
    }
    if s.len() == 2 {
        let s1 = s.drop_last();
        assert(s1.last() == s[0]);
        assert(s1.drop_last() =~= Seq::<u64>::empty());
        assert(sum_u64(s1) == sum_u64(s1.drop_last()) + s1.last());
        assert(sum_u64(s1) == s[0]);
    }
}

/// Invariant (`D`) solver of the deposit path.
///
/// Computes the StableSwap invariant for the given reserves and
/// amplification by the fixed-point iteration
/// `D <- D * (Ann*S + n*D_P) / (D*(Ann-1) + (n+1)*D_P)` with
/// `D_P = D^(n+1) / (n^n * prod(reserves))` (a zero reserve is replaced
/// by one inside `D_P`), starting from `D = S` and capped at 64 rounds.
/// Non-convergence within the cap returns the last iterate rather than an
/// error. All steps are checked; any overflow, impossible division or
/// failed narrowing is reported as the corresponding `CurveError`.
///
/// For a balanced pool of two equal reserves the iteration is a fixed
/// point and the result is exactly the reserve sum.
#[verifier::loop_isolation(false)]
pub fn deposit_liquidity(amp_param: u64, balances_param: &[u64], n_param: u32) -> (r: Result<
    u64,
    CurveError,
>)
    ensures
        (balances_param@.len() == 0) <==> (r is Err && r->Err_0 == CurveError::EmptyReserves),
        (balances_param@.len() > 2) <==> (r is Err && r->Err_0 == CurveError::BufferTooSmall),
        1 <= balances_param@.len() <= 2 && sum_u64(balances_param@) == 0 ==> r == Ok::<
            u64,
            CurveError,
        >(0u64),
        1 <= balances_param@.len() <= 2 && sum_u64(balances_param@) > 0 && amp_param == 0 ==> r
            is Err,
        balanced_pair_fits(balances_param@, amp_param, n_param) ==> (r is Ok && r->Ok_0 == 2
            * balances_param@[0]),
{
    let ghost bal = balances_param@;
    if balances_param.len() == 0 {
        return Err(CurveError::EmptyReserves);
    }
    let amp: u128 = amp_param as u128;
    let mut balances: Vec<u128> = Vec::new();
    balances.push(0);
    balances.push(0);
    match u64_to_u128_inplace(balances_param, &mut balances) {
        Ok(_) => (),
        Err(e) => {
            return Err(e);
        },
    }
    let n: u128 = n_param as u128;

    let sum_x: u128 = balances[0] + balances[1];
    proof {
        lemma_sum_u64_small(bal);
        assert(sum_x == sum_u64(bal));
    }
    if sum_x == 0 {
        return Ok(0);
    }

    proof {
        lemma_pow_adds(2, 1nat, 1nat);
        lemma_pow1(2);
        assert(pow(2, 2nat) == 4);
    }
    let npow: u128 = match checked_pow_u128(n, n_param) {
        Some(v) => v,
        None => {
            return Err(CurveError::Overflow);
        },
    };
    let ann: u128 = match amp.checked_mul(npow) {
        Some(v) => v,
        None => {
            proof {
                if balanced_pair_fits(bal, amp_param, n_param) {
                    assert(amp * npow <= u128::MAX) by (nonlinear_arith)
                        requires
                            npow == 4,
                            amp <= u64::MAX,
                    ;
                }
            }
            return Err(CurveError::Overflow);
        },
    };

    proof {
        if balanced_pair_fits(bal, amp_param, n_param) {
            assert(npow == 4);
            assert(ann == 4 * amp_param) by (nonlinear_arith)
                requires
                    npow == 4,
                    ann == amp * npow,
                    amp == amp_param,
            ;
        }
        if amp_param == 0 {
            assert(ann == 0) by (nonlinear_arith)
                requires
                    ann == amp * npow,
                    amp == 0,
            ;
        }
    }

    let ghost r0 = bal[0] as int;
    let mut d: u128 = sum_x;
    let mut iter: usize = 0;
    while iter < 64
        invariant
            balanced_pair_fits(bal, amp_param, n_param) ==> d == 2 * r0,
            amp_param == 0 ==> iter == 0,
        decreases 64 - iter,
    {
        proof {
            if balanced_pair_fits(bal, amp_param, n_param) {
                let a = amp_param as int;
                assert(4 * r0 * r0 <= u128::MAX) by (nonlinear_arith)
                    requires
                        16 * a * r0 * r0 + 8 * r0 * r0 <= u128::MAX,
                        a >= 1,
                        r0 >= 1,
                ;
            }
        }
        let mut d_p: u128 = d;
        let mut j: usize = 0;
        while j < 2
            invariant
                j <= 2,
                balanced_pair_fits(bal, amp_param, n_param) ==> d_p == 2 * r0,
            decreases 2 - j,
        {
            let x: u128 = balances[j];
            let safe_x: u128 = if x == 0 {
                1
            } else {
                x
            };
            let xn: u128 = match safe_x.checked_mul(n) {
                Some(v) => v,
                None => {
                    proof {
                        if balanced_pair_fits(bal, amp_param, n_param) {
                            assert(safe_x * n <= u128::MAX) by (nonlinear_arith)
                                requires
                                    safe_x == r0,
                                    n == 2,
                                    r0 <= u64::MAX,
                            ;
                        }
                    }
                    return Err(CurveError::Overflow);
                },
            };
            let num_dp: u128 = match d_p.checked_mul(d) {
                Some(v) => v,
                None => {
                    proof {
                        if balanced_pair_fits(bal, amp_param, n_param) {
                            assert(d_p * d <= u128::MAX) by (nonlinear_arith)
                                requires
                                    d_p == 2 * r0,
                                    d == 2 * r0,
                                    4 * r0 * r0 <= u128::MAX,
                            ;
                        }
                    }
                    return Err(CurveError::Overflow);
                },
            };
            proof {
                if balanced_pair_fits(bal, amp_param, n_param) {
                    assert(xn == 2 * r0) by (nonlinear_arith)
                        requires
                            safe_x == r0,
                            n == 2,
                            xn == safe_x * n,
                    ;
                    assert(num_dp == (2 * r0) * (2 * r0)) by (nonlinear_arith)
                        requires
                            num_dp == d_p * d,
                            d_p == 2 * r0,
                            d == 2 * r0,
                    ;
                    lemma_div_multiples_vanish(2 * r0, 2 * r0);
                }
            }
            d_p = match num_dp.checked_div(xn) {
                Some(v) => v,
                None => {
                    return Err(CurveError::DivisionByZero);
                },
            };
            proof {
                if balanced_pair_fits(bal, amp_param, n_param) {
                    assert(d_p == 2 * r0);
                }
            }
            j = j + 1;
        }

        let ghost a = amp_param as int;
        let d_prev: u128 = d;
        let t1: u128 = match ann.checked_mul(sum_x) {
            Some(v) => v,
            None => {
                proof {
                    if balanced_pair_fits(bal, amp_param, n_param) {
                        assert(ann * sum_x <= u128::MAX) by (nonlinear_arith)
                            requires
                                ann == 4 * a,
                                sum_x == 2 * r0,
                                16 * a * r0 * r0 + 8 * r0 * r0 <= u128::MAX,
                                a >= 1,
                                r0 >= 1,
                        ;
                    }
                }
                return Err(CurveError::Overflow);
            },
        };
        proof {
            if balanced_pair_fits(bal, amp_param, n_param) {
                assert(t1 == 8 * a * r0) by (nonlinear_arith)
                    requires
                        ann == 4 * a,
                        sum_x == 2 * r0,
                        t1 == ann * sum_x,
                ;
            }
        }
        let t2: u128 = match d_p.checked_mul(n) {
            Some(v) => v,
            None => {
                proof {
                    if balanced_pair_fits(bal, amp_param, n_param) {
                        assert(d_p * n <= u128::MAX) by (nonlinear_arith)
                            requires
                                d_p == 2 * r0,
                                n == 2,
                                r0 <= u64::MAX,
                        ;
                    }
                }
                return Err(CurveError::Overflow);
            },
        };
        proof {
            if balanced_pair_fits(bal, amp_param, n_param) {
                assert(t2 == 4 * r0) by (nonlinear_arith)
                    requires
                        d_p == 2 * r0,
                        n == 2,
                        t2 == d_p * n,
                ;
            }
        }
        let t3: u128 = match t1.checked_add(t2) {
            Some(v) => v,
            None => {
                proof {
                    if balanced_pair_fits(bal, amp_param, n_param) {
                        assert(8 * a * r0 + 4 * r0 <= u128::MAX) by (nonlinear_arith)
                            requires
                                16 * a * r0 * r0 + 8 * r0 * r0 <= u128::MAX,
                                a >= 1,
                                r0 >= 1,
                        ;
                    }
                }
                return Err(CurveError::Overflow);
            },
        };
        proof {
            if balanced_pair_fits(bal, amp_param, n_param) {
                assert(8 * a * r0 + 4 * r0 <= u128::MAX) by (nonlinear_arith)
                    requires
                        16 * a * r0 * r0 + 8 * r0 * r0 <= u128::MAX,
                        a >= 1,
                        r0 >= 1,
                ;
                assert(t3 == 8 * a * r0 + 4 * r0);
            }
        }
        let num: u128 = match d.checked_mul(t3) {
            Some(v) => v,
            None => {
                proof {
                    if balanced_pair_fits(bal, amp_param, n_param) {
                        assert(d * t3 <= u128::MAX) by (nonlinear_arith)
                            requires
                                d == 2 * r0,
                                t3 == 8 * a * r0 + 4 * r0,
                                16 * a * r0 * r0 + 8 * r0 * r0 <= u128::MAX,
                        ;
                    }
                }
                return Err(CurveError::Overflow);
            },
        };
        let a1: u128 = match ann.checked_sub(1) {
            Some(v) => v,
            None => {
                return Err(CurveError::Underflow);
            },
        };
        let t4: u128 = match d.checked_mul(a1) {
            Some(v) => v,
            None => {
                proof {
                    if balanced_pair_fits(bal, amp_param, n_param) {
                        assert(d * a1 <= u128::MAX) by (nonlinear_arith)
                            requires
                                d == 2 * r0,
                                a1 == 4 * a - 1,
                                16 * a * r0 * r0 + 8 * r0 * r0 <= u128::MAX,
                                a >= 1,
                                r0 >= 1,
                        ;
                    }
                }
                return Err(CurveError::Overflow);
            },
        };
        proof {
            if balanced_pair_fits(bal, amp_param, n_param) {
                assert(t4 == 8 * a * r0 - 2 * r0) by (nonlinear_arith)
                    requires
                        d == 2 * r0,
                        a1 == 4 * a - 1,
                        t4 == d * a1,
                ;
            }
        }
        let t5: u128 = match n.checked_add(1) {
            Some(v) => v,
            None => {
                return Err(CurveError::Overflow);
            },
        };
        let t6: u128 = match d_p.checked_mul(t5) {
            Some(v) => v,
            None => {
                proof {
                    if balanced_pair_fits(bal, amp_param, n_param) {
                        assert(d_p * t5 <= u128::MAX) by (nonlinear_arith)
                            requires
                                d_p == 2 * r0,
                                t5 == 3,
                                r0 <= u64::MAX,
                        ;
                    }
                }
                return Err(CurveError::Overflow);
            },
        };
        proof {
            if balanced_pair_fits(bal, amp_param, n_param) {
                assert(t6 == 6 * r0) by (nonlinear_arith)
                    requires
                        d_p == 2 * r0,
                        t5 == 3,
                        t6 == d_p * t5,
                ;
            }
        }
        let den: u128 = match t4.checked_add(t6) {
            Some(v) => v,
            None => {
                return Err(CurveError::Overflow);
            },
        };
        proof {
            if balanced_pair_fits(bal, amp_param, n_param) {
                assert(den == t3);
                assert(num == t3 * (2 * r0)) by (nonlinear_arith)
                    requires
                        num == d * t3,
                        d == 2 * r0,
                ;
                lemma_div_multiples_vanish(2 * r0, t3 as int);
            }
        }
        d = match num.checked_div(den) {
            Some(v) => v,
            None => {
                return Err(CurveError::DivisionByZero);
            },
        };
        proof {
            if balanced_pair_fits(bal, amp_param, n_param) {
                assert(d == 2 * r0);
            }
        }
        if d > d_prev && d - d_prev <= 1 {
            if d > u64::MAX as u128 {
                return Err(CurveError::ScalingOverflow);
            }
            return Ok(d as u64);
        }
        if d_prev > d && d_prev - d <= 1 {
            if d > u64::MAX as u128 {
                return Err(CurveError::ScalingOverflow);
            }
            return Ok(d as u64);
        }
        iter = iter + 1;
    }
    if d > u64::MAX as u128 {
        return Err(CurveError::ScalingOverflow);
    }
    Ok(d as u64)
}

/// Checked multiplication over the wide-integer range, as the solver's
/// executable code performs it.
pub open spec fn mul_ck(a: int, b: int) -> Option<int> {
    if a * b > u128::MAX {
        None
    } else {
        Some(a * b)
    }
}

/// Checked addition over the wide-integer range.
pub open spec fn add_ck(a: int, b: int) -> Option<int> {
    if a + b > u128::MAX {
        None
    } else {
        Some(a + b)
    }
}

/// Checked subtraction: fails below zero.
pub open spec fn sub_ck(a: int, b: int) -> Option<int> {
    if a - b < 0 {
        None
    } else {
        Some(a - b)
    }
}

/// Checked division: fails on a zero divisor.
pub open spec fn div_ck(a: int, b: int) -> Option<int> {
    if b == 0 {
        None
    } else {
        Some(a / b)
    }
}

/// The single-asset solver's `Ann` coefficient.
pub open spec fn y_solver_ann(amp: u64, n: u32) -> int {
    amp * n
}

/// The linear coefficient `b = x_i + d/Ann` of the rearranged root
/// equation `y^2 + (b - d)*y - c == 0`. Meaningful when `Ann > 0`.
pub open spec fn y_solver_b(amp: u64, x_i: u64, d: u64, n: u32) -> int {
    x_i + (d as int) / y_solver_ann(amp, n)
}

/// The constant term `c`, built exactly as the code builds it: two
/// chained floor divisions, `((d*d / (x_i*n)) * d) / (Ann*n)`.
/// Meaningful when `x_i*n > 0` and `Ann*n > 0`.
pub open spec fn y_solver_c(amp: u64, x_i: u64, d: u64, n: u32) -> int {
    ((((d * d) as int) / ((x_i * n) as int)) * d) / (y_solver_ann(amp, n) * n)
}

/// One-for-one transcription of the solver's hybrid Newton/bisection
/// loop: the state is the iterate `y`, the bracket `[y_low, y_high]`,
/// the previous step size, and the remaining rounds `k`. The result
/// carries the final iterate and whether the residual check (`diff <=
/// 1`) was reached (`true`) or the rounds ran out (`false`).
pub open spec fn y_iter(
    b: int,
    c: int,
    d: int,
    y: int,
    y_low: int,
    y_high: int,
    dy_prev: int,
    k: nat,
) -> Result<(int, bool), CurveError>
    decreases k,
{
    if k == 0 {
        Ok((y, false))
    } else {
        match mul_ck(y, y) {
            None => Err(CurveError::Overflow),
            Some(y_sq) => match mul_ck(y, b) {
                None => Err(CurveError::Overflow),
                Some(by) => match mul_ck(y, d) {
                    None => Err(CurveError::Overflow),
                    Some(dy) => match add_ck(y_sq, by) {
                        None => Err(CurveError::Overflow),
                        Some(lhs) => match add_ck(dy, c) {
                            None => Err(CurveError::Overflow),
                            Some(rhs) => {
                                let diff = if lhs > rhs {
                                    lhs - rhs
                                } else {
                                    rhs - lhs
                                };
                                if diff <= 1 {
                                    Ok((y, true))
                                } else {
                                    match mul_ck(y, 2) {
                                        None => Err(CurveError::Overflow),
                                        Some(y2) => match add_ck(y2, b) {
                                            None => Err(CurveError::Overflow),
                                            Some(y2b) => match sub_ck(y2b, d) {
                                                None => Err(CurveError::Underflow),
                                                Some(dfy) => {
                                                    let cand = if dfy > 0 {
                                                        if lhs > rhs {
                                                            sub_ck(y, diff / dfy)
                                                        } else {
                                                            add_ck(y, diff / dfy)
                                                        }
                                                    } else {
                                                        Some((y_low + y_high) / 2)
                                                    };
                                                    match cand {
                                                        None => if lhs > rhs {
                                                            Err(CurveError::Underflow)
                                                        } else {
                                                            Err(CurveError::Overflow)
                                                        },
                                                        Some(y_cand) => {
                                                            let step_size = if y_cand > y {
                                                                y_cand - y
                                                            } else {
                                                                y - y_cand
                                                            };
                                                            let y_next = if y_cand <= y_low
                                                                || y_cand >= y_high || step_size
                                                                >= dy_prev {
                                                                (y_low + y_high) / 2
                                                            } else {
                                                                y_cand
                                                            };
                                                            if lhs < rhs {
                                                                y_iter(
                                                                    b,
                                                                    c,
                                                                    d,
                                                                    y_next,
                                                                    y,
                                                                    y_high,
                                                                    step_size,
                                                                    (k - 1) as nat,
                                                                )
                                                            } else {
                                                                y_iter(
                                                                    b,
                                                                    c,
                                                                    d,
                                                                    y_next,
                                                                    y_low,
                                                                    y,
                                                                    step_size,
                                                                    (k - 1) as nat,
                                                                )
                                                            }
                                                        },
                                                    }
                                                },
                                            },
                                        },
                                    }
                                }
                            },
                        },
                    },
                },
            },
        }
    }
}

/// The whole single-asset solve, as a value: the domain check, the
/// checked build of `b` and `c`, then 64 rounds of `y_iter` starting
/// from `y = d` over the bracket `[0, 2d]`.
pub open spec fn y_solver_outcome(amp: u64, x_i: u64, d: u64, n: u32) -> Result<
    (int, bool),
    CurveError,
> {
    if x_i == 0 {
        Err(CurveError::ZeroBalance)
    } else {
        match mul_ck(amp as int, n as int) {
            None => Err(CurveError::Overflow),
            Some(ann) => match mul_ck(d as int, d as int) {
                None => Err(CurveError::Overflow),
                Some(dd) => match mul_ck(x_i as int, n as int) {
                    None => Err(CurveError::Overflow),
                    Some(xn) => match div_ck(dd, xn) {
                        None => Err(CurveError::DivisionByZero),
                        Some(c1) => match mul_ck(c1, d as int) {
                            None => Err(CurveError::Overflow),
                            Some(c1d) => match mul_ck(ann, n as int) {
                                None => Err(CurveError::Overflow),
                                Some(annn) => match div_ck(c1d, annn) {
                                    None => Err(CurveError::DivisionByZero),
                                    Some(c) => match div_ck(d as int, ann) {
                                        None => Err(CurveError::DivisionByZero),
                                        Some(dq) => match add_ck(x_i as int, dq) {
                                            None => Err(CurveError::Overflow),
                                            Some(b) => match mul_ck(d as int, 2) {
                                                None => Err(CurveError::Overflow),
                                                Some(yh) => y_iter(
                                                    b,
                                                    c,
                                                    d as int,
                                                    d as int,
                                                    0,
                                                    yh,
                                                    u128::MAX as int,
                                                    64,
                                                ),
                                            },
                                        },
                                    },
                                },
                            },
                        },
                    },
                },
            },
        }
    }
}

/// The solver's result: the outcome's final iterate narrowed to the
/// native width, or the error the outcome stopped with.
pub open spec fn y_solver_spec(amp: u64, x_i: u64, d: u64, n: u32) -> Result<u64, CurveError> {
    match y_solver_outcome(amp, x_i, d, n) {
        Err(e) => Err(e),
        Ok(p) => if p.0 > u64::MAX {
            Err(CurveError::ScalingOverflow)
        } else {
            Ok(p.0 as u64)
        },
    }
}

/// An iterate that `y_iter` accepted through the residual check
/// satisfies the rearranged root equation to within one unit:
/// `|y^2 + b*y - (d*y + c)| <= 1`.
pub proof fn lemma_y_iter_converged_residual(
    b: int,
    c: int,
    d: int,
    y: int,
    y_low: int,
    y_high: int,
    dy_prev: int,
    k: nat,
    yf: int,
)
    requires
        y_iter(b, c, d, y, y_low, y_high, dy_prev, k) == Ok::<(int, bool), CurveError>((yf, true)),
    ensures
        -1 <= yf * yf + b * yf - (d * yf + c) <= 1,
    decreases k,
{
    if k == 0 {
        assert(y_iter(b, c, d, y, y_low, y_high, dy_prev, k) == Ok::<(int, bool), CurveError>(
            (y, false),
        ));
    } else {
        match mul_ck(y, y) {
            None => {},
            Some(y_sq) => match mul_ck(y, b) {
                None => {},
                Some(by) => match mul_ck(y, d) {
                    None => {},
                    Some(dy) => match add_ck(y_sq, by) {
                        None => {},
                        Some(lhs) => match add_ck(dy, c) {
                            None => {},
                            Some(rhs) => {
                                let diff = if lhs > rhs {
                                    lhs - rhs
                                } else {
                                    rhs - lhs
                                };
                                if diff <= 1 {
                                    assert(y_iter(b, c, d, y, y_low, y_high, dy_prev, k) == Ok::<
                                        (int, bool),
                                        CurveError,
                                    >((y, true)));
                                    assert(yf == y);
                                    assert(lhs == y * y + b * y);
                                    assert(rhs == d * y + c);
                                } else {
                                    match mul_ck(y, 2) {
                                        None => {},
                                        Some(y2) => match add_ck(y2, b) {
                                            None => {},
                                            Some(y2b) => match sub_ck(y2b, d) {
                                                None => {},
                                                Some(dfy) => {
                                                    let cand = if dfy > 0 {
                                                        if lhs > rhs {
                                                            sub_ck(y, diff / dfy)
                                                        } else {
                                                            add_ck(y, diff / dfy)
                                                        }
                                                    } else {
                                                        Some((y_low + y_high) / 2)
                                                    };
                                                    match cand {
                                                        None => {},
                                                        Some(y_cand) => {
                                                            let step_size = if y_cand > y {
                                                                y_cand - y
                                                            } else {
                                                                y - y_cand
                                                            };
                                                            let y_next = if y_cand <= y_low
                                                                || y_cand >= y_high || step_size
                                                                >= dy_prev {
                                                                (y_low + y_high) / 2
                                                            } else {
                                                                y_cand
                                                            };
                                                            if lhs < rhs {
                                                                lemma_y_iter_converged_residual(
                                                                    b,
                                                                    c,
                                                                    d,
                                                                    y_next,
                                                                    y,
                                                                    y_high,
                                                                    step_size,
                                                                    (k - 1) as nat,
                                                                    yf,
                                                                );
                                                            } else {
                                                                lemma_y_iter_converged_residual(
                                                                    b,
                                                                    c,
                                                                    d,
                                                                    y_next,
                                                                    y_low,
                                                                    y,
                                                                    step_size,
                                                                    (k - 1) as nat,
                                                                    yf,
                                                                );
                                                            }
                                                        },
                                                    }
                                                },
                                            },
                                        },
                                    }
                                }
                            },
                        },
                    },
                },
            },
        }
    }
}

/// When the solve converges (the outcome's flag is `true`), the final
/// iterate satisfies the root equation for the solver's own `b` and
/// `c` to within one unit.
pub proof fn lemma_newton_solver_residual(amp: u64, x_i: u64, d: u64, n: u32, yf: int)
    requires
        y_solver_outcome(amp, x_i, d, n) == Ok::<(int, bool), CurveError>((yf, true)),
    ensures
        -1 <= yf * yf + y_solver_b(amp, x_i, d, n) * yf - (d * yf + y_solver_c(amp, x_i, d, n))
            <= 1,
{
    let ann = y_solver_ann(amp, n);
    let b = y_solver_b(amp, x_i, d, n);
    let c = y_solver_c(amp, x_i, d, n);
    assert(mul_ck(amp as int, n as int) == Some(ann));
    assert(y_iter(b, c, d as int, d as int, 0, 2 * d, u128::MAX as int, 64) == Ok::<
        (int, bool),
        CurveError,
    >((yf, true)));
    lemma_y_iter_converged_residual(b, c, d as int, d as int, 0, 2 * d, u128::MAX as int, 64, yf);
}

/// Single-asset (`y`) solver: finds the balance of one asset so that,
/// together with the combined balance `x_i` of the others, the pool sits
/// on the invariant `d`.
///
/// The invariant equation is rearranged into `y^2 + (b - d)*y - c == 0`
/// with `b = x_i + d/Ann` and `c` built from two chained scaled divisions,
/// so every term stays non-negative under unsigned arithmetic. The root is
/// found by a hybrid Newton/bisection iteration over `[0, 2d]`, capped at
/// 64 rounds, with a divergence guard that forces a bisection step when a
/// Newton step fails to shrink. A run that exhausts the cap returns the
/// last iterate. Every returned balance lies within the bisection bracket,
/// so it never exceeds `2*d`.
///
/// The result is pinned completely: it equals `y_solver_spec`, the
/// spec-level transcription of this computation, and a converged run's
/// iterate obeys the one-unit residual bound of
/// `lemma_newton_solver_residual`.
#[verifier::loop_isolation(false)]
#[verifier::rlimit(60)]
pub fn newton_solver_scaled(amp_param: u64, x_i_param: u64, d_param: u64, n_param: u32) -> (r:
    Result<u64, CurveError>)
    ensures
        r == y_solver_spec(amp_param, x_i_param, d_param, n_param),
        x_i_param == 0 <==> (r is Err && r->Err_0 == CurveError::ZeroBalance),
        r is Ok ==> r->Ok_0 <= 2 * d_param,
        r is Err ==> (r->Err_0 == CurveError::ZeroBalance || r->Err_0 == CurveError::Overflow
            || r->Err_0 == CurveError::DivisionByZero || r->Err_0 == CurveError::Underflow
            || r->Err_0 == CurveError::ScalingOverflow),
{
    if x_i_param == 0 {
        return Err(CurveError::ZeroBalance);
    }
    let amp: u128 = amp_param as u128;
    let x_i: u128 = x_i_param as u128;
    let d: u128 = d_param as u128;
    let n: u128 = n_param as u128;

    let ann: u128 = match amp.checked_mul(n) {
        Some(v) => v,
        None => {
            return Err(CurveError::Overflow);
        },
    };
    let s_: u128 = x_i;

    // c = d^(n+1) / (n^n * x_i * ann), built as (d*d / (x_i*n)) * d / (ann*n).
    let dd: u128 = match d.checked_mul(d) {
        Some(v) => v,
        None => {
            return Err(CurveError::Overflow);
        },
    };
    let xn: u128 = match x_i.checked_mul(n) {
        Some(v) => v,
        None => {
            return Err(CurveError::Overflow);
        },
    };
    let c1: u128 = match dd.checked_div(xn) {
        Some(v) => v,
        None => {
            return Err(CurveError::DivisionByZero);
        },
    };
    let c1d: u128 = match c1.checked_mul(d) {
        Some(v) => v,
        None => {
            return Err(CurveError::Overflow);
        },
    };
    let annn: u128 = match ann.checked_mul(n) {
        Some(v) => v,
        None => {
            return Err(CurveError::Overflow);
        },
    };
    let c: u128 = match c1d.checked_div(annn) {
        Some(v) => v,
        None => {
            return Err(CurveError::DivisionByZero);
        },
    };

    let dq: u128 = match d.checked_div(ann) {
        Some(v) => v,
        None => {
            return Err(CurveError::DivisionByZero);
        },
    };
    let b: u128 = match s_.checked_add(dq) {
        Some(v) => v,
        None => {
            return Err(CurveError::Overflow);
        },
    };

    let mut y_low: u128 = 0;
    let mut y_high: u128 = match d.checked_mul(2) {
        Some(v) => v,
        None => {
            return Err(CurveError::Overflow);
        },
    };
    let mut y: u128 = d;
    let mut dy_prev: u128 = u128::MAX;

    proof {
        assert(mul_ck(amp_param as int, n_param as int) == Some(ann as int));
        assert(mul_ck(d_param as int, d_param as int) == Some(dd as int));
        assert(mul_ck(x_i_param as int, n_param as int) == Some(xn as int));
        assert(div_ck(dd as int, xn as int) == Some(c1 as int));
        assert(mul_ck(c1 as int, d_param as int) == Some(c1d as int));
        assert(mul_ck(ann as int, n_param as int) == Some(annn as int));
        assert(div_ck(c1d as int, annn as int) == Some(c as int));
        assert(div_ck(d_param as int, ann as int) == Some(dq as int));
        assert(add_ck(x_i_param as int, dq as int) == Some(b as int));
        assert(mul_ck(d_param as int, 2) == Some(y_high as int));
        assert(y_solver_outcome(amp_param, x_i_param, d_param, n_param) == y_iter(
            b as int,
            c as int,
            d_param as int,
            d_param as int,
            0,
            y_high as int,
            u128::MAX as int,
            64,
        ));
    }

    let mut iter: usize = 0;
    while iter < 64
        invariant
            iter <= 64,
            y <= 2 * d_param,
            y_low <= 2 * d_param,
            y_high <= 2 * d_param,
            y_solver_outcome(amp_param, x_i_param, d_param, n_param) == y_iter(
                b as int,
                c as int,
                d_param as int,
                y as int,
                y_low as int,
                y_high as int,
                dy_prev as int,
                (64 - iter) as nat,
            ),
        decreases 64 - iter,
    {
        // Residual of y^2 + b*y == d*y + c, the rearranged f(y) = 0.
        let y_sq: u128 = match y.checked_mul(y) {
            Some(v) => v,
            None => {
                return Err(CurveError::Overflow);
            },
        };
        let by: u128 = match y.checked_mul(b) {
            Some(v) => v,
            None => {
                return Err(CurveError::Overflow);
            },
        };
        let dy: u128 = match y.checked_mul(d) {
            Some(v) => v,
            None => {
                return Err(CurveError::Overflow);
            },
        };
        let lhs: u128 = match y_sq.checked_add(by) {
            Some(v) => v,
            None => {
                return Err(CurveError::Overflow);
            },
        };
        let rhs: u128 = match dy.checked_add(c) {
            Some(v) => v,
            None => {
                return Err(CurveError::Overflow);
            },
        };

        let diff: u128 = if lhs > rhs {
            lhs - rhs
        } else {
            rhs - lhs
        };
        if diff <= 1 {
            proof {
                assert(y_iter(
                    b as int,
                    c as int,
                    d_param as int,
                    y as int,
                    y_low as int,
                    y_high as int,
                    dy_prev as int,
                    (64 - iter) as nat,
                ) == Ok::<(int, bool), CurveError>((y as int, true)));
            }
            if y > u64::MAX as u128 {
                return Err(CurveError::ScalingOverflow);
            }
            return Ok(y as u64);
        }

        // Derivative f'(y) = 2y + b - d.
        let y2: u128 = match y.checked_mul(2) {
            Some(v) => v,
            None => {
                return Err(CurveError::Overflow);
            },
        };
        let y2b: u128 = match y2.checked_add(b) {
            Some(v) => v,
            None => {
                return Err(CurveError::Overflow);
            },
        };
        let dfy: u128 = match y2b.checked_sub(d) {
            Some(v) => v,
            None => {
                return Err(CurveError::Underflow);
            },
        };

        let y_cand: u128;
        if dfy > 0 {
            let step: u128 = diff / dfy;
            if lhs > rhs {
                y_cand = match y.checked_sub(step) {
                    Some(v) => v,
                    None => {
                        return Err(CurveError::Underflow);
                    },
                };
            } else {
                y_cand = match y.checked_add(step) {
                    Some(v) => v,
                    None => {
                        return Err(CurveError::Overflow);
                    },
                };
            }
        } else {
            y_cand = (y_low + y_high) / 2;
        }

        // Bracket enforcement and divergence guard.
        let step_size: u128 = if y_cand > y {
            y_cand - y
        } else {
            y - y_cand
        };
        let y_next: u128 = if y_cand <= y_low || y_cand >= y_high || step_size >= dy_prev {
            (y_low + y_high) / 2
        } else {
            y_cand
        };

        proof {
            let ki = (64 - iter) as nat;
            if lhs < rhs {
                assert(y_iter(
                    b as int,
                    c as int,
                    d_param as int,
                    y as int,
                    y_low as int,
                    y_high as int,
                    dy_prev as int,
                    ki,
                ) == y_iter(
                    b as int,
                    c as int,
                    d_param as int,
                    y_next as int,
                    y as int,
                    y_high as int,
                    step_size as int,
                    (ki - 1) as nat,
                ));
            } else {
                assert(y_iter(
                    b as int,
                    c as int,
                    d_param as int,
                    y as int,
                    y_low as int,
                    y_high as int,
                    dy_prev as int,
                    ki,
                ) == y_iter(
                    b as int,
                    c as int,
                    d_param as int,
                    y_next as int,
                    y_low as int,
                    y as int,
                    step_size as int,
                    (ki - 1) as nat,
                ));
            }
        }

        if lhs < rhs {
            y_low = y;
        } else {
            y_high = y;
        }

        dy_prev = step_size;
        y = y_next;
        iter = iter + 1;
    }

    proof {
        assert(y_iter(
            b as int,
            c as int,
            d_param as int,
            y as int,
            y_low as int,
            y_high as int,
            dy_prev as int,
            0,
        ) == Ok::<(int, bool), CurveError>((y as int, false)));
    }
    if y > u64::MAX as u128 {
        return Err(CurveError::ScalingOverflow);
    }
    Ok(y as u64)
}

/// Sum of a sequence of at most two wide reserves, spelled out.
proof fn lemma_sum_u128_small(s: Seq<u128>)
    requires
        s.len() <= 2,
    ensures
        s.len() == 0 ==> sum_u128(s) == 0,
        s.len() == 1 ==> sum_u128(s) == s[0],
        s.len() == 2 ==> sum_u128(s) == s[0] + s[1],
{
    assert(sum_u128(Seq::<u128>::empty()) == 0);
    if s.len() == 1 {
        assert(s.drop_last() =~= Seq::<u128>::empty());
        assert(sum_u128(s) == sum_u128(s.drop_last()) + s.last());
    }
    if s.len() == 2 {
        let s1 = s.drop_last();
        assert(s1.last() == s[0]);
        assert(s1.drop_last() =~= Seq::<u128>::empty());
        assert(sum_u128(s1) == sum_u128(s1.drop_last()) + s1.last());
        assert(sum_u128(s1) == s[0]);
    }
}

/// Largest element of a pair, spelled out.
proof fn lemma_max_u128_pair(s: Seq<u128>)
    requires
        s.len() == 2,
    ensures
        max_u128(s) == if s[1] >= s[0] {
            s[1] as int
        } else {
            s[0] as int
        },
{
    let s1 = s.drop_last();
    assert(s1.last() == s[0]);
    assert(s1.drop_last() =~= Seq::<u128>::empty());
    assert(max_u128(s1.drop_last()) == 0);
    assert(max_u128(s1) == s[0]);
}

/// A prefix never has a larger maximum than the whole sequence.
proof fn lemma_max_u128_take_le(s: Seq<u128>, i: int)
    requires
        0 <= i <= s.len(),
    ensures
        max_u128(s.take(i)) <= max_u128(s),
    decreases s.len() - i,
{
    if i == s.len() {
        assert(s.take(i) =~= s);
    } else {
        assert(s.take(i + 1).drop_last() =~= s.take(i));
        assert(s.take(i + 1).last() == s[i]);
        lemma_max_u128_take_le(s, i + 1);
    }
}

/// The sum of a sequence is at most its length times its maximum.
proof fn lemma_sum_le_len_max(s: Seq<u128>)
    ensures
        sum_u128(s) <= s.len() * max_u128(s),
    decreases s.len(),
{
    if s.len() == 0 {
    } else {
        let s1 = s.drop_last();
        lemma_sum_le_len_max(s1);
        assert(max_u128(s1) <= max_u128(s));
        lemma_mul_inequality(max_u128(s1), max_u128(s), s1.len() as int);
        assert(s1.len() * max_u128(s1) <= s1.len() * max_u128(s));
        assert(s.last() <= max_u128(s));
        assert(s.len() * max_u128(s) == s1.len() * max_u128(s) + max_u128(s))
            by (nonlinear_arith)
            requires
                s.len() == s1.len() + 1,
        ;
    }
}

/// The inputs for which the bracketed invariant solver is pinned down
/// exactly: two equal positive wide reserves, a positive amplification,
/// and sizes small enough that no intermediate product leaves `u128`.
pub open spec fn equal_pair_fits(reserves: Seq<u128>, amp: u128) -> bool {
    &&& reserves.len() == 2
    &&& reserves[0] == reserves[1]
    &&& reserves[0] > 0
    &&& amp >= 1
    &&& 4 * reserves[0] * reserves[0] <= u128::MAX
    &&& 8 * amp * reserves[0] <= u128::MAX
    &&& 2 * reserves[0] <= u64::MAX
}

/// Safeguarded invariant (`D`) solver: Newton-Raphson with a bisection
/// bracket.
///
/// The root of `f(D) = (Ann-1)*D + D^(n+1)/(n^n * prod) - Ann*S` is
/// bracketed inside `[S, n*max(reserves)]`; a Newton step that leaves
/// the open bracket is replaced by the bisection midpoint, and the
/// bounds shrink with the sign of `f`. The iteration is capped at 20
/// rounds and returns the last iterate if it runs out, so every result
/// stays inside the bracket: `sum(reserves) <= D <= n*max(reserves)`.
/// For two equal reserves the exact root `2*R` is found immediately.
#[verifier::loop_isolation(false)]
pub fn safeguarded_newton_solver(reserves: &[u128], amp: u128) -> (r: Result<u64, CurveError>)
    ensures
        reserves@.len() == 0 <==> (r is Err && r->Err_0 == CurveError::EmptyReserves),
        reserves@.len() > 0 && sum_u128(reserves@) == 0 ==> r == Ok::<u64, CurveError>(0u64),
        r is Ok && sum_u128(reserves@) > 0 ==> sum_u128(reserves@) <= r->Ok_0 && r->Ok_0
            <= reserves@.len() * max_u128(reserves@),
        equal_pair_fits(reserves@, amp) ==> (r is Ok && r->Ok_0 == 2 * reserves@[0]),
{
    let ghost s = reserves@;
    let n_len: usize = reserves.len();
    if n_len == 0 {
        return Err(CurveError::EmptyReserves);
    }
    let ghost r0 = s[0] as int;

    let sum: u128 = match constant_sum(reserves) {
        Ok(v) => v,
        Err(_) => {
            proof {
                if equal_pair_fits(s, amp) {
                    lemma_sum_u128_small(s);
                }
            }
            return Err(CurveError::Overflow);
        },
    };
    if sum == 0 {
        proof {
            if equal_pair_fits(s, amp) {
                lemma_sum_u128_small(s);
            }
        }
        return Ok(0);
    }

    // Largest reserve, for the upper end of the bisection bracket.
    let mut max_r: u128 = 0;
    let mut i: usize = 0;
    while i < n_len
        invariant
            i <= n_len,
            max_r == max_u128(s.take(i as int)),
        decreases n_len - i,
    {
        proof {
            assert(s.take(i + 1).drop_last() =~= s.take(i as int));
            assert(s.take(i + 1).last() == s[i as int]);
        }
        if reserves[i] > max_r {
            max_r = reserves[i];
        }
        i = i + 1;
    }
    proof {
        assert(s.take(n_len as int) =~= s);
        if equal_pair_fits(s, amp) {
            lemma_sum_u128_small(s);
            lemma_max_u128_pair(s);
            assert(max_r == r0);
        }
    }

    let n: u128 = n_len as u128;
    let npow: u128 = match checked_pow_u128(n, n_len as u32) {
        Some(v) => v,
        None => {
            proof {
                if equal_pair_fits(s, amp) {
                    lemma_pow_adds(2, 1nat, 1nat);
                    lemma_pow1(2);
                }
            }
            return Err(CurveError::Overflow);
        },
    };
    proof {
        if equal_pair_fits(s, amp) {
            lemma_pow_adds(2, 1nat, 1nat);
            lemma_pow1(2);
            assert(npow == 4);
        }
    }
    let ann: u128 = match amp.checked_mul(npow) {
        Some(v) => v,
        None => {
            proof {
                if equal_pair_fits(s, amp) {
                    assert(amp * npow <= u128::MAX) by (nonlinear_arith)
                        requires
                            npow == 4,
                            8 * amp * r0 <= u128::MAX,
                            r0 >= 1,
                            amp >= 1,
                    ;
                }
            }
            return Err(CurveError::Overflow);
        },
    };
    proof {
        if equal_pair_fits(s, amp) {
            assert(ann == 4 * amp) by (nonlinear_arith)
                requires
                    npow == 4,
                    ann == amp * npow,
            ;
        }
    }

    let ghost a = amp as int;
    let high_w: u128 = match n.checked_mul(max_r) {
        Some(v) => v,
        None => {
            return Err(CurveError::Overflow);
        },
    };
    let ghost bracket_top = s.len() * max_u128(s);
    proof {
        lemma_sum_le_len_max(s);
        assert(high_w == bracket_top) by (nonlinear_arith)
            requires
                n == s.len(),
                max_r == max_u128(s),
                high_w == n * max_r,
                bracket_top == s.len() * max_u128(s),
        ;
        if equal_pair_fits(s, amp) {
            assert(high_w == 2 * r0) by (nonlinear_arith)
                requires
                    n == 2,
                    max_r == r0,
                    high_w == n * max_r,
            ;
        }
    }

    let mut low: u128 = sum;
    let mut high: u128 = high_w;
    let mut d: u128 = sum;

    let mut iter: usize = 0;
    while iter < 20
        invariant
            sum_u128(s) <= low <= bracket_top,
            sum_u128(s) <= high <= bracket_top,
            sum_u128(s) <= d <= bracket_top,
            equal_pair_fits(s, amp) ==> (d == 2 * r0 && low == 2 * r0 && high == 2 * r0),
        decreases 20 - iter,
    {
        proof {
            if equal_pair_fits(s, amp) {
                assert(4 * r0 * r0 <= u128::MAX) by (nonlinear_arith)
                    requires
                        4 * (s[0] as int) * (s[0] as int) <= u128::MAX,
                        r0 == s[0] as int,
                ;
            }
        }
        // D_P = D^(n+1) / (n^n * prod), with the divisions interleaved.
        let mut d_p: u128 = d;
        let mut j: usize = 0;
        while j < n_len
            invariant
                j <= n_len,
                equal_pair_fits(s, amp) ==> d_p == 2 * r0,
            decreases n_len - j,
        {
            let x: u128 = reserves[j];
            let xn: u128 = match x.checked_mul(n) {
                Some(v) => v,
                None => {
                    proof {
                        if equal_pair_fits(s, amp) {
                            assert(x * n <= u128::MAX) by (nonlinear_arith)
                                requires
                                    x == r0,
                                    n == 2,
                                    2 * r0 <= u64::MAX,
                            ;
                        }
                    }
                    return Err(CurveError::Overflow);
                },
            };
            let num_dp: u128 = match d_p.checked_mul(d) {
                Some(v) => v,
                None => {
                    proof {
                        if equal_pair_fits(s, amp) {
                            assert(d_p * d <= u128::MAX) by (nonlinear_arith)
                                requires
                                    d_p == 2 * r0,
                                    d == 2 * r0,
                                    4 * r0 * r0 <= u128::MAX,
                            ;
                        }
                    }
                    return Err(CurveError::Overflow);
                },
            };
            proof {
                if equal_pair_fits(s, amp) {
                    assert(xn == 2 * r0) by (nonlinear_arith)
                        requires
                            x == r0,
                            n == 2,
                            xn == x * n,
                    ;
                    assert(num_dp == (2 * r0) * (2 * r0)) by (nonlinear_arith)
                        requires
                            num_dp == d_p * d,
                            d_p == 2 * r0,
                            d == 2 * r0,
                    ;
                    lemma_div_multiples_vanish(2 * r0, 2 * r0);
                }
            }
            d_p = match num_dp.checked_div(xn) {
                Some(v) => v,
                None => {
                    return Err(CurveError::DivisionByZero);
                },
            };
            j = j + 1;
        }

        // f(D) compared as (Ann-1)*D + D_P against Ann*S, which keeps
        // every term non-negative.
        let a1: u128 = match ann.checked_sub(1) {
            Some(v) => v,
            None => {
                return Err(CurveError::Underflow);
            },
        };
        let f1: u128 = match a1.checked_mul(d) {
            Some(v) => v,
            None => {
                proof {
                    if equal_pair_fits(s, amp) {
                        assert(a1 * d <= u128::MAX) by (nonlinear_arith)
                            requires
                                a1 == 4 * a - 1,
                                d == 2 * r0,
                                8 * a * r0 <= u128::MAX,
                                a >= 1,
                                r0 >= 1,
                        ;
                    }
                }
                return Err(CurveError::Overflow);
            },
        };
        let lhs_f: u128 = match f1.checked_add(d_p) {
            Some(v) => v,
            None => {
                proof {
                    if equal_pair_fits(s, amp) {
                        assert(f1 + d_p <= u128::MAX) by (nonlinear_arith)
                            requires
                                f1 == (4 * a - 1) * (2 * r0),
                                d_p == 2 * r0,
                                8 * a * r0 <= u128::MAX,
                                a >= 1,
                                r0 >= 1,
                        ;
                    }
                }
                return Err(CurveError::Overflow);
            },
        };
        let rhs_f: u128 = match ann.checked_mul(sum) {
            Some(v) => v,
            None => {
                proof {
                    if equal_pair_fits(s, amp) {
                        assert(ann * sum <= u128::MAX) by (nonlinear_arith)
                            requires
                                ann == 4 * a,
                                sum == 2 * r0,
                                8 * a * r0 <= u128::MAX,
                        ;
                    }
                }
                return Err(CurveError::Overflow);
            },
        };
        proof {
            if equal_pair_fits(s, amp) {
                assert(lhs_f == rhs_f) by (nonlinear_arith)
                    requires
                        lhs_f == (4 * a - 1) * (2 * r0) + 2 * r0,
                        rhs_f == (4 * a) * (2 * r0),
                ;
            }
        }
        if lhs_f == rhs_f {
            if d > u64::MAX as u128 {
                return Err(CurveError::ScalingOverflow);
            }
            return Ok(d as u64);
        }

        // f'(D) = (Ann-1) + (n+1)*D_P/D.
        let np1: u128 = match n.checked_add(1) {
            Some(v) => v,
            None => {
                return Err(CurveError::Overflow);
            },
        };
        let fp1: u128 = match np1.checked_mul(d_p) {
            Some(v) => v,
            None => {
                return Err(CurveError::Overflow);
            },
        };
        let fprime: u128 = match a1.checked_add(fp1 / d) {
            Some(v) => v,
            None => {
                return Err(CurveError::Overflow);
            },
        };

        let diff: u128 = if lhs_f > rhs_f {
            lhs_f - rhs_f
        } else {
            rhs_f - lhs_f
        };

        let mut d_next: u128;
        let mut stepped: bool = false;
        if fprime > 0 {
            let step: u128 = diff / fprime;
            if lhs_f > rhs_f {
                match d.checked_sub(step) {
                    Some(v) => {
                        d_next = v;
                        stepped = true;
                    },
                    None => {
                        d_next = 0;
                    },
                }
            } else {
                match d.checked_add(step) {
                    Some(v) => {
                        d_next = v;
                        stepped = true;
                    },
                    None => {
                        d_next = 0;
                    },
                }
            }
        } else {
            d_next = d;
            stepped = true;
        }
        // A step that failed or left the open bracket becomes a
        // bisection step.
        if !stepped || d_next <= low || d_next >= high {
            d_next = low / 2 + high / 2 + (low % 2 + high % 2) / 2;
        }

        // Shrink the bracket on the side the sign of f rules out.
        if lhs_f > rhs_f {
            high = d;
        } else {
            low = d;
        }

        let delta: u128 = if d_next > d {
            d_next - d
        } else {
            d - d_next
        };
        if delta <= 1 {
            if d_next > u64::MAX as u128 {
                return Err(CurveError::ScalingOverflow);
            }
            return Ok(d_next as u64);
        }
        d = d_next;
        iter = iter + 1;
    }

    if d > u64::MAX as u128 {
        return Err(CurveError::ScalingOverflow);
    }
    Ok(d as u64)
}

/// Floor of `reserve * burn / supply`: the share of one reserve that a
/// burn of `burn` LP tokens out of `supply` is entitled to.
pub open spec fn pro_rata_share(reserve: u64, burn: u64, supply: u64) -> int {
    (reserve * burn) / (supply as int)
}

/// Everything a proportional withdrawal promises: which inputs give
/// which error, and the exact pro-rata payout on success — including
/// that burning the whole supply returns every reserve unchanged.
pub open spec fn balanced_withdraw_spec(
    reserves: Seq<u64>,
    lp_to_burn: u64,
    total_lp_supply: u64,
    r: Result<Vec<u64>, CurveError>,
) -> bool {
    &&& (reserves.len() == 0 || reserves.len() > 2) <==> (r is Err && r->Err_0
        == CurveError::InvalidReserveLength)
    &&& (1 <= reserves.len() <= 2 && total_lp_supply == 0) <==> (r is Err && r->Err_0
        == CurveError::ZeroTotalSupply)
    &&& (1 <= reserves.len() <= 2 && total_lp_supply > 0 && lp_to_burn > total_lp_supply) <==> (r
        is Err && r->Err_0 == CurveError::BurnExceedsSupply)
    &&& r is Ok ==> r->Ok_0@.len() == 2
    &&& (1 <= reserves.len() <= 2 && total_lp_supply > 0 && lp_to_burn == 0) ==> (r is Ok
        && r->Ok_0@[0] == 0 && r->Ok_0@[1] == 0)
    &&& (1 <= reserves.len() <= 2 && 0 < lp_to_burn <= total_lp_supply) ==> (r is Ok && r->Ok_0@[0]
        == pro_rata_share(reserves[0], lp_to_burn, total_lp_supply) && r->Ok_0@[1] == (
    if reserves.len() == 2 {
        pro_rata_share(reserves[1], lp_to_burn, total_lp_supply)
    } else {
        0
    }))
    &&& (1 <= reserves.len() <= 2 && 0 < lp_to_burn && lp_to_burn == total_lp_supply) ==> (r is Ok
        && r->Ok_0@[0] == reserves[0] && (reserves.len() == 2 ==> r->Ok_0@[1] == reserves[1]))
}

/// Proportional withdrawal: each reserve pays out its pro-rata share of
/// the burned LP tokens, computed independently per asset in wide
/// arithmetic and narrowed back.
///
/// Burning the whole supply pays out every reserve exactly; burning
/// nothing pays out an all-zero vector without touching any solver.
#[verifier::loop_isolation(false)]
pub fn withdraw_balanced(reserves: &[u64], lp_to_burn: u64, total_lp_supply: u64) -> (r: Result<
    Vec<u64>,
    CurveError,
>)
    ensures
        balanced_withdraw_spec(reserves@, lp_to_burn, total_lp_supply, r),
{
    let n_len: usize = reserves.len();
    if n_len == 0 || n_len > 2 {
        return Err(CurveError::InvalidReserveLength);
    }
    if total_lp_supply == 0 {
        return Err(CurveError::ZeroTotalSupply);
    }
    let mut amount_out: Vec<u64> = Vec::new();
    amount_out.push(0);
    amount_out.push(0);
    if lp_to_burn == 0 {
        return Ok(amount_out);
    }
    if lp_to_burn > total_lp_supply {
        return Err(CurveError::BurnExceedsSupply);
    }

    let mut i: usize = 0;
    while i < n_len
        invariant
            i <= n_len,
            amount_out@.len() == 2,
            forall|k: int|
                0 <= k < i ==> amount_out@[k] == pro_rata_share(
                    reserves@[k],
                    lp_to_burn,
                    total_lp_supply,
                ),
            forall|k: int| i <= k < 2 ==> amount_out@[k] == 0,
        decreases n_len - i,
    {
        let ri: u128 = reserves[i] as u128;
        let bi: u128 = lp_to_burn as u128;
        let si: u128 = total_lp_supply as u128;
        proof {
            assert(ri * bi <= u128::MAX) by (nonlinear_arith)
                requires
                    ri <= u64::MAX,
                    bi <= u64::MAX,
            ;
            lemma_mul_inequality(bi as int, si as int, ri as int);
            lemma_div_is_ordered((ri * bi) as int, (si * ri) as int, si as int);
            lemma_div_multiples_vanish(ri as int, si as int);
            assert((ri * bi) as int / (si as int) <= ri);
        }
        let w: u128 = (ri * bi) / si;
        amount_out.set(i, w as u64);
        i = i + 1;
    }
    proof {
        if lp_to_burn == total_lp_supply {
            assert forall|k: int| 0 <= k < n_len implies pro_rata_share(
                reserves@[k],
                lp_to_burn,
                total_lp_supply,
            ) == reserves@[k] by {
                lemma_div_multiples_vanish(reserves@[k] as int, total_lp_supply as int);
            }
        }
    }
    Ok(amount_out)
}

/// Settlement of a single-asset withdrawal: the raw payout is the drop of
/// the withdrawn asset's balance, and a flat 1% fee (floor of a hundredth)
/// is deducted. A solver result above the old balance contradicts the
/// inputs and is rejected rather than wrapped.
pub fn imbalanced_payout(old_balance: u64, y_new: u64) -> (r: Result<u64, CurveError>)
    ensures
        (y_new > old_balance) <==> (r is Err && r->Err_0 == CurveError::MathInconsistency),
        y_new <= old_balance ==> r is Ok && r->Ok_0 == (old_balance - y_new) - (old_balance - y_new)
            / 100,
{
    let amount_out_raw: u64 = match old_balance.checked_sub(y_new) {
        Some(v) => v,
        None => {
            return Err(CurveError::MathInconsistency);
        },
    };
    let fee: u64 = amount_out_raw / 100;
    Ok(amount_out_raw - fee)
}

/// The whole single-asset withdrawal, as a value: the zero
/// short-circuit, the pro-rata invariant reduction, the solve at the
/// reduced invariant, and the flat-fee settlement on the first asset's
/// balance drop.
pub open spec fn withdraw_imbalanced_spec(
    lp_tokens_to_burn: u64,
    total_lp_supply: u64,
    bal0: u64,
    bal1: u64,
    d_current: u64,
    amp: u64,
) -> Result<u64, CurveError> {
    if lp_tokens_to_burn == 0 || total_lp_supply == 0 {
        Ok(0u64)
    } else if d_current * lp_tokens_to_burn > u64::MAX {
        Err(CurveError::Overflow)
    } else {
        let red = (d_current * lp_tokens_to_burn) / (total_lp_supply as int);
        if d_current < red {
            Err(CurveError::Underflow)
        } else {
            match y_solver_spec(amp, bal1, (d_current - red) as u64, 2) {
                Err(e) => Err(e),
                Ok(yv) => if yv > bal0 {
                    Err(CurveError::MathInconsistency)
                } else {
                    Ok((((bal0 - yv) - (bal0 - yv) / 100) as u64))
                },
            }
        }
    }
}

/// Single-asset withdrawal: burn `lp_tokens_to_burn` of `total_lp_supply`
/// and take the entire payout in the first asset.
///
/// The invariant is reduced pro rata to the burned share, the second
/// asset's balance is held fixed, and the single-asset solver finds the
/// first asset's new balance at the reduced invariant; the payout is the
/// balance drop minus the flat 1% exit fee. A burn of nothing, or an
/// empty pool, pays out zero without invoking the solver. The result is
/// pinned completely: it equals `withdraw_imbalanced_spec`.
pub fn withdraw_imbalanced(
    lp_tokens_to_burn: u64,
    total_lp_supply: u64,
    current_balances: &[u64],
    d_current: u64,
    amp: u64,
) -> (r: Result<u64, CurveError>)
    requires
        current_balances@.len() == 2,
    ensures
        r == withdraw_imbalanced_spec(
            lp_tokens_to_burn,
            total_lp_supply,
            current_balances@[0],
            current_balances@[1],
            d_current,
            amp,
        ),
        lp_tokens_to_burn == 0 || total_lp_supply == 0 ==> r == Ok::<u64, CurveError>(0u64),
        r is Ok ==> r->Ok_0 <= current_balances@[0],
        (lp_tokens_to_burn > 0 && total_lp_supply > 0 && d_current * lp_tokens_to_burn > u64::MAX)
            ==> (r is Err && r->Err_0 == CurveError::Overflow),
        (lp_tokens_to_burn > 0 && total_lp_supply > 0 && d_current * lp_tokens_to_burn <= u64::MAX
            && d_current * lp_tokens_to_burn / (total_lp_supply as int) > d_current) ==> (r is Err
            && r->Err_0 == CurveError::Underflow),
        (r is Err && r->Err_0 == CurveError::ZeroBalance) <==> (lp_tokens_to_burn > 0
            && total_lp_supply > 0 && d_current * lp_tokens_to_burn <= u64::MAX && d_current
            * lp_tokens_to_burn / (total_lp_supply as int) <= d_current && current_balances@[1]
            == 0),
        r is Err ==> (r->Err_0 == CurveError::ZeroBalance || r->Err_0 == CurveError::Overflow
            || r->Err_0 == CurveError::DivisionByZero || r->Err_0 == CurveError::Underflow
            || r->Err_0 == CurveError::ScalingOverflow || r->Err_0
            == CurveError::MathInconsistency),
{
    if lp_tokens_to_burn == 0 || total_lp_supply == 0 {
        return Ok(0);
    }
    let d_scaled: u64 = match d_current.checked_mul(lp_tokens_to_burn) {
        Some(v) => v,
        None => {
            return Err(CurveError::Overflow);
        },
    };
    let d_reduction: u64 = d_scaled / total_lp_supply;
    let d_target: u64 = match d_current.checked_sub(d_reduction) {
        Some(v) => v,
        None => {
            return Err(CurveError::Underflow);
        },
    };

    let x_other: u64 = current_balances[1];
    let n: u32 = current_balances.len() as u32;
    let y_new: u64 = match newton_solver_scaled(amp, x_other, d_target, n) {
        Ok(v) => v,
        Err(e) => {
            return Err(e);
        },
    };

    let old_balance: u64 = current_balances[0];
    imbalanced_payout(old_balance, y_new)
}

} // verus!
