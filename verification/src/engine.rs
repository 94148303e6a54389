use vstd::prelude::*;

verus! {

use crate::errors::ContractError;

/// The integer square root of `n`, rounding toward zero: the largest `r` with
/// `r * r <= n`.
pub open spec fn isqrt(n: nat) -> nat
    decreases n,
{
    if n == 0 {
        0
    } else {
        let r = isqrt((n - 1) as nat);
        if (r + 1) * (r + 1) <= n {
            r + 1
        } else {
            r
        }
    }
}

/// `r` is the floor square root of `n`.
pub open spec fn is_sqrt(n: int, r: int) -> bool {
    0 <= r && r * r <= n && n < (r + 1) * (r + 1)
}

/// `isqrt` really is the floor square root.
pub proof fn lemma_isqrt_is_sqrt(n: nat)
    ensures
        is_sqrt(n as int, isqrt(n) as int),
    decreases n,
{
    if n > 0 {
        lemma_isqrt_is_sqrt((n - 1) as nat);
        let r = isqrt((n - 1) as nat);
        if (r + 1) * (r + 1) <= n {
            assert((r + 1) * (r + 1) < (r + 2) * (r + 2)) by (nonlinear_arith)
                requires
                    0 <= r,
            ;
        }
    }
}

/// Two floor square roots of the same number are equal.
pub proof fn lemma_sqrt_unique(n: int, r1: int, r2: int)
    requires
        is_sqrt(n, r1),
        is_sqrt(n, r2),
    ensures
        r1 == r2,
{
    if r1 < r2 {
        assert((r1 + 1) * (r1 + 1) <= r2 * r2) by (nonlinear_arith)
            requires
                0 <= r1,
                r1 + 1 <= r2,
        ;
    }
    if r2 < r1 {
        assert((r2 + 1) * (r2 + 1) <= r1 * r1) by (nonlinear_arith)
            requires
                0 <= r2,
                r2 + 1 <= r1,
        ;
    }
}

/// The integer square root is monotone: a larger number never has a smaller
/// root.
pub proof fn lemma_isqrt_monotonic(a: nat, b: nat)
    requires
        a <= b,
    ensures
        isqrt(a) <= isqrt(b),
{
    lemma_isqrt_is_sqrt(a);
    lemma_isqrt_is_sqrt(b);
    if isqrt(b) < isqrt(a) {
        assert((isqrt(b) + 1) * (isqrt(b) + 1) <= isqrt(a) * isqrt(a)) by (nonlinear_arith)
            requires
                0 <= isqrt(b),
                isqrt(b) + 1 <= isqrt(a),
        ;
        assert(false);
    }
}

/// The root of a 32-bit number fits in 16 bits.
proof fn lemma_isqrt_fits_u16(n: nat)
    requires
        n <= u32::MAX,
    ensures
        isqrt(n) <= 0xFFFF,
{
    lemma_isqrt_is_sqrt(n);
    if isqrt(n) > 0xFFFF {
        assert(isqrt(n) * isqrt(n) > 0xFFFF_FFFF) by (nonlinear_arith)
            requires
                isqrt(n) >= 0x1_0000,
        ;
        assert(false);
    }
}

/// Deterministic integer square root, rounding toward zero, defined for every
/// input. Computed with integer arithmetic only, by binary search, so the
/// result is bit-identical on every platform.
pub fn integer_sqrt(num: u32) -> (r: u32)
    ensures
        r == isqrt(num as nat),
{
    let n: u64 = num as u64;
    let mut lo: u64 = 0;
    let mut hi: u64 = 0x1_0000;
    while hi - lo > 1
        invariant
            lo < hi <= 0x1_0000,
            lo * lo <= n,
            n < hi * hi,
            n == num,
        decreases hi - lo,
    {
        let mid: u64 = lo + (hi - lo) / 2;
        proof {
            assert(mid * mid <= 0x1_0000_0000) by (nonlinear_arith)
                requires
                    mid <= 0x1_0000,
            ;
        }
        if mid * mid <= n {
            lo = mid;
        } else {
            hi = mid;
        }
    }
    proof {
        lemma_isqrt_is_sqrt(num as nat);
        lemma_sqrt_unique(num as int, lo as int, isqrt(num as nat) as int);
    }
    lo as u32
}

/// The value the vote rule assigns to the target: the combined tally floored
/// at 1, and otherwise weighted by the square root of the voter's own
/// reputation.
pub open spec fn vote_rule_spec(member_pts: nat, target_pts: int, value: int) -> int {
    let combined = target_pts + value;
    if combined < 1 {
        1
    } else {
        combined * isqrt(member_pts)
    }
}

/// Floor invariant: a voter whose own reputation is at least 1 can never push
/// the rule's result below 1, whatever the tally and the vote are.
pub proof fn lemma_vote_rule_floor(member_pts: nat, target_pts: int, value: int)
    requires
        1 <= member_pts,
    ensures
        1 <= vote_rule_spec(member_pts, target_pts, value),
{
    let combined = target_pts + value;
    if combined >= 1 {
        lemma_isqrt_monotonic(1, member_pts);
        assert(isqrt(0) == 0);
        assert(isqrt(1) == 1);
        assert(1 <= combined * isqrt(member_pts)) by (nonlinear_arith)
            requires
                1 <= combined,
                1 <= isqrt(member_pts),
        ;
    }
}

/// Applies the vote-weight rule. `member_pts` is the voter's own reputation,
/// `target_pts` the target's accumulated tally before this vote, and `value`
/// the signed magnitude of the vote. A result outside the representable range
/// is a hard failure, never a silent wrap.
pub fn vote_rule(member_pts: u32, target_pts: i32, value: i32) -> (r: Result<
    u32,
    ContractError,
>)
    ensures
        ({
            let v = vote_rule_spec(member_pts as nat, target_pts as int, value as int);
            if v <= u32::MAX {
                r == Ok::<u32, ContractError>(v as u32)
            } else {
                r == Err::<u32, ContractError>(ContractError::ArithmeticOverflow)
            }
        }),
{
    let combined: i64 = target_pts as i64 + value as i64;
    if combined < 1 {
        return Ok(1);
    }
    let s: u32 = integer_sqrt(member_pts);
    proof {
        lemma_isqrt_fits_u16(member_pts as nat);
        assert((combined as u64) * (s as u64) <= 0xFFFF_FFFF_FFFF) by (nonlinear_arith)
            requires
                combined as u64 <= 0xFFFF_FFFF,
                s as u64 <= 0xFFFF,
        ;
    }
    let p: u64 = (combined as u64) * (s as u64);
    if p > u32::MAX as u64 {
        Err(ContractError::ArithmeticOverflow)
    } else {
        Ok(p as u32)
    }
}

} // verus!
