//! Constant-product pricing: what a pool pays out, and what that pricing guarantees.
use vstd::arithmetic::div_mod::{
    lemma_div_is_ordered, lemma_fundamental_div_mod, lemma_fundamental_div_mod_converse,
};
use vstd::arithmetic::mul::{lemma_mul_inequality, lemma_mul_is_commutative, lemma_mul_nonnegative};
use vstd::prelude::*;

verus! {

/// One hundred percent, in basis points.
pub const BPS: u128 = 10_000;

/// What a pool holding `reserve_in` and `reserve_out` pays for `amount_in`, at a fee of
/// `fee_bps` basis points: `dy = y * dx * (1 - fee) / (x + dx * (1 - fee))`, rounded down.
/// A pool with an empty side pays nothing.
pub open spec fn swap_out(amount_in: int, reserve_in: int, reserve_out: int, fee_bps: int) -> int {
    if amount_in == 0 || reserve_in == 0 || reserve_out == 0 {
        0
    } else {
        let after_fee = amount_in * (BPS - fee_bps);
        (after_fee * reserve_out) / (reserve_in * BPS + after_fee)
    }
}

/// The amounts and the fee for which `swap_out` speaks of a real pool.
pub open spec fn is_swap(amount_in: int, reserve_in: int, reserve_out: int, fee_bps: int) -> bool {
    0 <= amount_in && 0 <= reserve_in && 0 <= reserve_out && 0 <= fee_bps <= BPS
}

/// The arithmetic of a swap stays within 128 bits. An empty trade or pool needs none.
pub open spec fn swap_fits(amount_in: int, reserve_in: int, reserve_out: int, fee_bps: int) -> bool {
    amount_in != 0 && reserve_in != 0 && reserve_out != 0 ==> {
        let after_fee = amount_in * (BPS - fee_bps);
        &&& fee_bps <= BPS
        &&& after_fee <= u128::MAX
        &&& after_fee * reserve_out <= u128::MAX
        &&& reserve_in * BPS + after_fee <= u128::MAX
    }
}

/// What the pool pays out, or nothing where the arithmetic leaves 128 bits.
pub fn checked_swap(amount_in: u128, reserve_in: u128, reserve_out: u128, fee_bps: u128) -> (r: Option<
    u128,
>)
    ensures
        r == if swap_fits(
            amount_in as int,
            reserve_in as int,
            reserve_out as int,
            fee_bps as int,
        ) {
            Some(
                swap_out(
                    amount_in as int,
                    reserve_in as int,
                    reserve_out as int,
                    fee_bps as int,
                ) as u128,
            )
        } else {
            None
        },
        r matches Some(out) ==> is_fair_output(
            amount_in as int,
            reserve_in as int,
            reserve_out as int,
            fee_bps as int,
            out as int,
        ),
{
    if amount_in == 0 || reserve_in == 0 || reserve_out == 0 {
        return Some(0);
    }
    if fee_bps > BPS {
        return None;
    }
    proof {
        lemma_mul_nonnegative(amount_in as int, BPS - fee_bps);
        lemma_mul_nonnegative(amount_in * (BPS - fee_bps), reserve_out as int);
        law_output_is_greatest(
            amount_in as int,
            reserve_in as int,
            reserve_out as int,
            fee_bps as int,
        );
    }
    match amount_in.checked_mul(BPS - fee_bps) {
        None => None,
        Some(after_fee) => match (after_fee.checked_mul(reserve_out), reserve_in.checked_mul(BPS)) {
            (Some(numerator), Some(scaled)) => match scaled.checked_add(after_fee) {
                Some(denominator) => Some(numerator / denominator),
                None => None,
            },
            _ => None,
        },
    }
}

/// The bound that every property below rests on: the pool never pays more than the
/// fee-free price after the trade.
proof fn lemma_swap_out_bound(amount_in: int, reserve_in: int, reserve_out: int, fee_bps: int)
    requires
        is_swap(amount_in, reserve_in, reserve_out, fee_bps),
    ensures
        0 <= swap_out(amount_in, reserve_in, reserve_out, fee_bps),
        swap_out(amount_in, reserve_in, reserve_out, fee_bps) * (reserve_in + amount_in)
            <= amount_in * reserve_out,
{
    let out = swap_out(amount_in, reserve_in, reserve_out, fee_bps);
    let keep = BPS - fee_bps;
    if amount_in == 0 || reserve_in == 0 || reserve_out == 0 {
        lemma_mul_nonnegative(amount_in, reserve_out);
    } else {
        let after_fee = amount_in * keep;
        let whole = reserve_in * BPS + after_fee;
        lemma_mul_nonnegative(amount_in, keep);
        lemma_mul_nonnegative(after_fee, reserve_out);
        lemma_fundamental_div_mod(after_fee * reserve_out, whole);
        assert(0 <= out) by (nonlinear_arith)
            requires
                out == (after_fee * reserve_out) / whole,
                0 <= after_fee * reserve_out,
                whole > 0,
        ;
        if keep == 0 {
            assert(after_fee == 0) by (nonlinear_arith)
                requires
                    after_fee == amount_in * keep,
                    keep == 0,
            ;
            assert(out == 0) by (nonlinear_arith)
                requires
                    out == (after_fee * reserve_out) / whole,
                    after_fee == 0,
                    whole > 0,
            ;
            lemma_mul_nonnegative(amount_in, reserve_out);
        } else {
            assert(out * whole <= after_fee * reserve_out) by {
                lemma_mul_is_commutative(out, whole);
            }
            assert(keep * (reserve_in + amount_in) <= whole) by (nonlinear_arith)
                requires
                    keep <= BPS,
                    reserve_in >= 0,
                    whole == reserve_in * BPS + amount_in * keep,
            ;
            assert(out * (keep * (reserve_in + amount_in)) <= out * whole) by (nonlinear_arith)
                requires
                    0 <= out,
                    keep * (reserve_in + amount_in) <= whole,
            ;
            assert(out * (reserve_in + amount_in) <= amount_in * reserve_out) by (nonlinear_arith)
                requires
                    keep > 0,
                    out * (keep * (reserve_in + amount_in)) <= (amount_in * keep) * reserve_out,
            ;
        }
    }
}

/// Two quotes in a row, each within the fee-free price, pay back less than went in, or nothing
/// where nothing went in.
proof fn lemma_two_quotes(amount: int, mid: int, out: int, x: int, y: int)
    requires
        0 <= amount,
        0 <= mid,
        0 <= out,
        0 < x,
        0 < y,
        mid * (x + amount) <= amount * y,
        out * (y + mid) <= mid * x,
    ensures
        out <= amount,
        amount > 0 ==> out < amount,
{
    assert(out * y <= mid * x) by (nonlinear_arith)
        requires
            out * (y + mid) <= mid * x,
            0 <= out,
            0 <= mid,
    ;
    assert((out * y) * (x + amount) <= (mid * x) * (x + amount)) by {
        lemma_mul_inequality(out * y, mid * x, x + amount);
    }
    assert((mid * x) * (x + amount) <= x * (amount * y)) by (nonlinear_arith)
        requires
            mid * (x + amount) <= amount * y,
            0 < x,
    ;
    assert(out * (x + amount) <= x * amount) by (nonlinear_arith)
        requires
            (out * y) * (x + amount) <= x * (amount * y),
            0 < y,
    ;
    assert(out <= amount) by (nonlinear_arith)
        requires
            out * (x + amount) <= x * amount,
            0 < x,
            0 <= amount,
    ;
    if amount > 0 {
        assert(out < amount) by (nonlinear_arith)
            requires
                out * (x + amount) <= x * amount,
                0 < x,
                0 < amount,
        ;
    }
}

/// A pool never pays out its whole reserve.
pub proof fn law_output_below_reserve(
    amount_in: int,
    reserve_in: int,
    reserve_out: int,
    fee_bps: int,
)
    requires
        is_swap(amount_in, reserve_in, reserve_out, fee_bps),
    ensures
        0 <= swap_out(amount_in, reserve_in, reserve_out, fee_bps) <= reserve_out,
        reserve_out > 0 ==> swap_out(amount_in, reserve_in, reserve_out, fee_bps) < reserve_out,
{
    let out = swap_out(amount_in, reserve_in, reserve_out, fee_bps);
    lemma_swap_out_bound(amount_in, reserve_in, reserve_out, fee_bps);
    if amount_in != 0 && reserve_in != 0 && reserve_out != 0 {
        assert(out < reserve_out) by (nonlinear_arith)
            requires
                out * (reserve_in + amount_in) <= amount_in * reserve_out,
                0 < reserve_in,
                0 < reserve_out,
                0 < amount_in,
        ;
    }
}

/// A swap never shrinks the product of the two reserves.
pub proof fn law_product_never_shrinks(
    amount_in: int,
    reserve_in: int,
    reserve_out: int,
    fee_bps: int,
)
    requires
        is_swap(amount_in, reserve_in, reserve_out, fee_bps),
    ensures
        (reserve_in + amount_in) * (reserve_out - swap_out(
            amount_in,
            reserve_in,
            reserve_out,
            fee_bps,
        )) >= reserve_in * reserve_out,
{
    let out = swap_out(amount_in, reserve_in, reserve_out, fee_bps);
    lemma_swap_out_bound(amount_in, reserve_in, reserve_out, fee_bps);
    assert((reserve_in + amount_in) * (reserve_out - out) >= reserve_in * reserve_out)
        by (nonlinear_arith)
        requires
            out * (reserve_in + amount_in) <= amount_in * reserve_out,
    ;
}

/// Cross-multiplying two quotients rounded down keeps their order.
proof fn lemma_quotient_order(n1: int, d1: int, n2: int, d2: int)
    requires
        0 <= n1,
        0 <= n2,
        0 < d1,
        0 < d2,
        n1 * d2 <= n2 * d1,
    ensures
        n1 / d1 <= n2 / d2,
{
    let q = n1 / d1;
    lemma_fundamental_div_mod(n1, d1);
    assert(d1 * q <= n1);
    assert(0 <= q) by (nonlinear_arith)
        requires
            q == n1 / d1,
            0 <= n1,
            0 < d1,
    ;
    assert(q * d2 <= n2) by (nonlinear_arith)
        requires
            d1 * q <= n1,
            n1 * d2 <= n2 * d1,
            0 < d1,
            0 < d2,
    ;
    lemma_div_is_ordered(q * d2, n2, d2);
    assert((q * d2) / d2 == q) by {
        lemma_fundamental_div_mod_converse(q * d2, d2, q, 0);
    }
}

/// Paying in more never pays out less.
pub proof fn law_more_in_more_out(
    less: int,
    more: int,
    reserve_in: int,
    reserve_out: int,
    fee_bps: int,
)
    requires
        is_swap(less, reserve_in, reserve_out, fee_bps),
        less <= more,
    ensures
        swap_out(less, reserve_in, reserve_out, fee_bps) <= swap_out(
            more,
            reserve_in,
            reserve_out,
            fee_bps,
        ),
{
    lemma_swap_out_bound(more, reserve_in, reserve_out, fee_bps);
    if less != 0 && reserve_in != 0 && reserve_out != 0 {
        let keep = BPS - fee_bps;
        let a1 = less * keep;
        let a2 = more * keep;
        let base = reserve_in * BPS;
        lemma_mul_nonnegative(less, keep);
        lemma_mul_inequality(less, more, keep);
        lemma_mul_nonnegative(a1, reserve_out);
        lemma_mul_nonnegative(a2, reserve_out);
        assert((a1 * reserve_out) * (base + a2) <= (a2 * reserve_out) * (base + a1))
            by (nonlinear_arith)
            requires
                0 <= a1 <= a2,
                0 < reserve_out,
                0 < base,
        ;
        lemma_quotient_order(a1 * reserve_out, base + a1, a2 * reserve_out, base + a2);
    }
}

/// A higher fee never pays out more.
pub proof fn law_higher_fee_less_out(
    amount_in: int,
    reserve_in: int,
    reserve_out: int,
    low_fee: int,
    high_fee: int,
)
    requires
        is_swap(amount_in, reserve_in, reserve_out, low_fee),
        low_fee <= high_fee <= BPS,
    ensures
        swap_out(amount_in, reserve_in, reserve_out, high_fee) <= swap_out(
            amount_in,
            reserve_in,
            reserve_out,
            low_fee,
        ),
{
    if amount_in != 0 && reserve_in != 0 && reserve_out != 0 {
        let a1 = amount_in * (BPS - high_fee);
        let a2 = amount_in * (BPS - low_fee);
        let base = reserve_in * BPS;
        lemma_mul_nonnegative(amount_in, BPS - high_fee);
        assert(a1 <= a2) by (nonlinear_arith)
            requires
                a1 == amount_in * (BPS - high_fee),
                a2 == amount_in * (BPS - low_fee),
                low_fee <= high_fee,
                0 <= amount_in,
        ;
        lemma_mul_nonnegative(a1, reserve_out);
        lemma_mul_nonnegative(a2, reserve_out);
        assert((a1 * reserve_out) * (base + a2) <= (a2 * reserve_out) * (base + a1))
            by (nonlinear_arith)
            requires
                0 <= a1 <= a2,
                0 < reserve_out,
                0 < base,
        ;
        lemma_quotient_order(a1 * reserve_out, base + a1, a2 * reserve_out, base + a2);
    }
}

/// Swapping forth in one pool and back in another never pays back more than went in, where
/// the first pool prices no better than the second: it holds at least as much of the token
/// that goes in, and at most as much of the token that comes out. It always loses something, as
/// long as anything went in.
pub proof fn law_round_trip_never_gains(
    amount: int,
    first_in: int,
    first_out: int,
    first_fee: int,
    second_in: int,
    second_out: int,
    second_fee: int,
)
    requires
        is_swap(amount, first_in, first_out, first_fee),
        is_swap(0, second_in, second_out, second_fee),
        first_in >= second_out,
        first_out <= second_in,
    ensures
        swap_out(
            swap_out(amount, first_in, first_out, first_fee),
            second_in,
            second_out,
            second_fee,
        ) <= amount,
        amount > 0 ==> swap_out(
            swap_out(amount, first_in, first_out, first_fee),
            second_in,
            second_out,
            second_fee,
        ) < amount,
{
    let mid = swap_out(amount, first_in, first_out, first_fee);
    let out = swap_out(mid, second_in, second_out, second_fee);
    lemma_swap_out_bound(amount, first_in, first_out, first_fee);
    lemma_swap_out_bound(mid, second_in, second_out, second_fee);
    if mid != 0 && second_in != 0 && second_out != 0 {
        assert(mid * (second_out + amount) <= amount * second_in) by (nonlinear_arith)
            requires
                mid * (first_in + amount) <= amount * first_out,
                0 <= mid,
                0 <= amount,
                first_in >= second_out,
                first_out <= second_in,
        ;
        lemma_two_quotes(amount, mid, out, second_out, second_in);
    }
}

/// The price formula with a fee of three per mille, written with a factor of 997 over 1000,
/// is the price formula at 30 basis points.
pub proof fn lemma_per_mille_price(amount_in: int, reserve_in: int, reserve_out: int)
    requires
        is_swap(amount_in, reserve_in, reserve_out, 30),
        reserve_in > 0,
    ensures
        (amount_in * reserve_out * 997) / (reserve_in * 1000 + amount_in * 997) == swap_out(
            amount_in,
            reserve_in,
            reserve_out,
            30,
        ),
{
    let n = amount_in * reserve_out * 997;
    let d = reserve_in * 1000 + amount_in * 997;
    lemma_mul_nonnegative(amount_in, reserve_out);
    if amount_in == 0 || reserve_out == 0 {
        assert(n == 0) by (nonlinear_arith)
            requires
                n == amount_in * reserve_out * 997,
                amount_in == 0 || reserve_out == 0,
        ;
        assert(n / d == 0) by (nonlinear_arith)
            requires
                n == 0,
                d > 0,
        ;
    } else {
        let n10 = (amount_in * 9970) * reserve_out;
        let d10 = reserve_in * BPS + amount_in * 9970;
        assert(n10 == 10 * n) by (nonlinear_arith)
            requires
                n10 == (amount_in * 9970) * reserve_out,
                n == amount_in * reserve_out * 997,
        ;
        assert(n * d10 == n10 * d) by (nonlinear_arith)
            requires
                n10 == 10 * n,
                d10 == 10 * d,
        ;
        lemma_quotient_order(n, d, n10, d10);
        lemma_quotient_order(n10, d10, n, d);
    }
}

/// `out` is the most that the constant product leaves for `amount_in` once a fee of `fee_bps`
/// basis points is taken from it: one more would shrink the product of the reserves. A trade of
/// nothing, or with an empty side, is paid nothing.
pub open spec fn is_fair_output(
    amount_in: int,
    reserve_in: int,
    reserve_out: int,
    fee_bps: int,
    out: int,
) -> bool {
    if amount_in == 0 || reserve_in == 0 || reserve_out == 0 {
        out == 0
    } else {
        &&& 0 <= out
        &&& out * (reserve_in * 10_000 + amount_in * (10_000 - fee_bps)) <= (amount_in * (10_000
            - fee_bps)) * reserve_out
        &&& (amount_in * (10_000 - fee_bps)) * reserve_out < (out + 1) * (reserve_in * 10_000
            + amount_in * (10_000 - fee_bps))
    }
}

/// At every fee a pool pays the most that the constant product leaves.
pub proof fn law_output_is_greatest(
    amount_in: int,
    reserve_in: int,
    reserve_out: int,
    fee_bps: int,
)
    requires
        is_swap(amount_in, reserve_in, reserve_out, fee_bps),
    ensures
        is_fair_output(
            amount_in,
            reserve_in,
            reserve_out,
            fee_bps,
            swap_out(amount_in, reserve_in, reserve_out, fee_bps),
        ),
        amount_in > 0 && reserve_in > 0 && reserve_out > 0 ==> {
            let out = swap_out(amount_in, reserve_in, reserve_out, fee_bps);
            let kept = amount_in * (10_000 - fee_bps);
            &&& 0 <= out
            &&& out * (reserve_in * 10_000 + kept) <= kept * reserve_out
            &&& kept * reserve_out < (out + 1) * (reserve_in * 10_000 + kept)
        },
        amount_in == 0 || reserve_in == 0 || reserve_out == 0 ==> swap_out(
            amount_in,
            reserve_in,
            reserve_out,
            fee_bps,
        ) == 0,
{
    if amount_in != 0 && reserve_in != 0 && reserve_out != 0 {
        let out = swap_out(amount_in, reserve_in, reserve_out, fee_bps);
        let kept = amount_in * (10_000 - fee_bps);
        let whole = reserve_in * 10_000 + kept;
        lemma_mul_nonnegative(amount_in, 10_000 - fee_bps);
        lemma_mul_nonnegative(kept, reserve_out);
        lemma_fundamental_div_mod(kept * reserve_out, whole);
        assert(out * whole <= kept * reserve_out && kept * reserve_out < (out + 1) * whole && 0
            <= out) by (nonlinear_arith)
            requires
                kept * reserve_out == whole * out + (kept * reserve_out) % whole,
                0 <= (kept * reserve_out) % whole < whole,
                0 <= kept * reserve_out,
                whole > 0,
        ;
    }
}

/// There is only one fair output.
pub proof fn law_fair_output_is_unique(
    amount_in: int,
    reserve_in: int,
    reserve_out: int,
    fee_bps: int,
    out: int,
)
    requires
        is_swap(amount_in, reserve_in, reserve_out, fee_bps),
        is_fair_output(amount_in, reserve_in, reserve_out, fee_bps, out),
    ensures
        out == swap_out(amount_in, reserve_in, reserve_out, fee_bps),
{
    law_output_is_greatest(amount_in, reserve_in, reserve_out, fee_bps);
    if amount_in != 0 && reserve_in != 0 && reserve_out != 0 {
        let other = swap_out(amount_in, reserve_in, reserve_out, fee_bps);
        let kept = amount_in * (10_000 - fee_bps);
        let whole = reserve_in * 10_000 + kept;
        lemma_mul_nonnegative(amount_in, 10_000 - fee_bps);
        assert(out == other) by (nonlinear_arith)
            requires
                out * whole <= kept * reserve_out,
                kept * reserve_out < (out + 1) * whole,
                other * whole <= kept * reserve_out,
                kept * reserve_out < (other + 1) * whole,
                whole > 0,
        ;
    }
}

/// A swap can be computed wherever the fee is at most everything and its three products and its
/// sum stay below `2^128`, and wherever there is nothing to swap.
pub proof fn law_swap_fits_in_128_bits(
    amount_in: int,
    reserve_in: int,
    reserve_out: int,
    fee_bps: int,
)
    requires
        0 <= amount_in,
        0 <= reserve_in,
        0 <= reserve_out,
        0 <= fee_bps,
    ensures
        amount_in == 0 || reserve_in == 0 || reserve_out == 0 ==> swap_fits(
            amount_in,
            reserve_in,
            reserve_out,
            fee_bps,
        ),
        amount_in > 0 && reserve_in > 0 && reserve_out > 0 ==> (swap_fits(
            amount_in,
            reserve_in,
            reserve_out,
            fee_bps,
        ) <==> fee_bps <= 10_000 && (amount_in * (10_000 - fee_bps)) * reserve_out
            < 0x1_0000_0000_0000_0000_0000_0000_0000_0000int && reserve_in * 10_000 + amount_in * (
        10_000 - fee_bps) < 0x1_0000_0000_0000_0000_0000_0000_0000_0000int),
{
    if amount_in > 0 && reserve_in > 0 && reserve_out > 0 && fee_bps <= 10_000 {
        let kept = amount_in * (10_000 - fee_bps);
        lemma_mul_nonnegative(amount_in, 10_000 - fee_bps);
        assert(kept <= kept * reserve_out) by (nonlinear_arith)
            requires
                0 <= kept,
                reserve_out > 0,
        ;
    }
}

} // verus!
