//! Exponential backoff between the attempts of a failing job.
//!
//! Durations are whole milliseconds. The multiplier and the randomization are fixed-point
//! numbers in thousandths: a multiplier of `2000` doubles the delay at every retry, and a
//! randomization of `200` adds up to twenty percent on top of it.
use vstd::prelude::*;
use vstd::arithmetic::power::pow;

verus! {

/// The longest backoff base, in milliseconds: 2^64. Longer waits are cut to it. No wait this
/// long ends at an instant that an `i64` holds, so the cut never changes when a retry runs.
pub const MAX_BACKOFF_MS: u128 = 18_446_744_073_709_551_616;

/// How a failed job is retried.
#[derive(Clone, Copy, Debug, PartialEq, Eq, Structural)]
pub struct Retries {
    /// How many times to retry a job before it is considered to have failed permanently.
    pub max_retries: u32,
    /// How long to wait before retrying the first time, in milliseconds.
    pub backoff_initial_interval: u64,
    /// The factor, in thousandths, by which the wait grows with each retry.
    pub backoff_multiplier: u32,
    /// The most that is added at random to each wait, in thousandths of the wait.
    /// Values above one thousand count as one thousand.
    pub backoff_randomization: u32,
}

/// Three retries, 20 s at first, doubling each time, with up to 20% added at random.
pub open spec fn default_retries() -> Retries {
    Retries {
        max_retries: 3,
        backoff_initial_interval: 20_000,
        backoff_multiplier: 2000,
        backoff_randomization: 200,
    }
}

impl Default for Retries {
    fn default() -> (r: Retries)
        ensures
            r == default_retries(),
    {
        Retries {
            max_retries: 3,
            backoff_initial_interval: 20_000,
            backoff_multiplier: 2000,
            backoff_randomization: 200,
        }
    }
}

pub open spec fn cap_backoff(x: int) -> int {
    if x > MAX_BACKOFF_MS { MAX_BACKOFF_MS as int } else { x }
}

/// The wait before retry number `k + 1` before randomization: the initial interval multiplied
/// `k` times by the multiplier, each product rounded down to whole milliseconds and cut to
/// `MAX_BACKOFF_MS`.
pub open spec fn backoff_base(initial: nat, multiplier: nat, k: nat) -> int
    decreases k,
{
    if k == 0 {
        cap_backoff(initial as int)
    } else {
        cap_backoff(backoff_base(initial, multiplier, (k - 1) as nat) * multiplier / 1000)
    }
}

/// The randomization in effect, in thousandths: at most one.
pub open spec fn effective_randomization(r: nat) -> int {
    if r > 1000 { 1000 } else { r as int }
}

/// The wait before the retry that follows failed try `k`. `draw` in `0..=1000` says which
/// fraction of the randomization is added: `0` adds nothing, `1000` all of it.
pub open spec fn backoff_delay(retries: Retries, k: nat, draw: nat) -> int {
    let base = backoff_base(
        retries.backoff_initial_interval as nat,
        retries.backoff_multiplier as nat,
        k,
    );
    base + base * effective_randomization(retries.backoff_randomization as nat) * draw / 1_000_000
}

proof fn lemma_backoff_base_bounds(initial: nat, multiplier: nat, k: nat)
    ensures
        0 <= backoff_base(initial, multiplier, k) <= MAX_BACKOFF_MS,
    decreases k,
{
    if k > 0 {
        lemma_backoff_base_bounds(initial, multiplier, (k - 1) as nat);
        let prev = backoff_base(initial, multiplier, (k - 1) as nat);
        assert(prev * multiplier >= 0) by (nonlinear_arith)
            requires prev >= 0;
    }
}

/// The backoff base before randomization for try `k`.
pub fn backoff_base_ms(retries: &Retries, k: u32) -> (r: u128)
    ensures
        r == backoff_base(
            retries.backoff_initial_interval as nat,
            retries.backoff_multiplier as nat,
            k as nat,
        ),
        r <= MAX_BACKOFF_MS,
{
    let ghost initial = retries.backoff_initial_interval as nat;
    let ghost multiplier = retries.backoff_multiplier as nat;
    let mut base: u128 = retries.backoff_initial_interval as u128;
    let mut j: u32 = 0;
    while j < k
        invariant
            j <= k,
            base == backoff_base(initial, multiplier, j as nat),
            base <= MAX_BACKOFF_MS,
            multiplier == retries.backoff_multiplier,
        decreases k - j,
    {
        assert(base * (retries.backoff_multiplier as u128) <= 0x1_0000_0000_0000_0000_0000_0000u128)
            by (nonlinear_arith)
            requires
                base <= MAX_BACKOFF_MS,
                retries.backoff_multiplier <= 0xffff_ffffu32,
        ;
        let next: u128 = base * (retries.backoff_multiplier as u128) / 1000;
        base = if next > MAX_BACKOFF_MS {
            MAX_BACKOFF_MS
        } else {
            next
        };
        j = j + 1;
    }
    base
}

/// The wait, in milliseconds, before the retry that follows failed try `k`, where `draw`
/// (in `0..=1000`) picks how much of the randomization is added.
pub fn retry_delay_ms(retries: &Retries, k: u32, draw: u32) -> (r: u128)
    requires
        draw <= 1000,
    ensures
        r == backoff_delay(*retries, k as nat, draw as nat),
{
    let base = backoff_base_ms(retries, k);
    let r: u128 = if retries.backoff_randomization > 1000 {
        1000
    } else {
        retries.backoff_randomization as u128
    };
    assert(base * r * (draw as u128) <= MAX_BACKOFF_MS * 1_000_000) by (nonlinear_arith)
        requires
            base <= MAX_BACKOFF_MS,
            r <= 1000,
            draw <= 1000,
    ;
    assert(base * r <= MAX_BACKOFF_MS * 1000) by (nonlinear_arith)
        requires
            base <= MAX_BACKOFF_MS,
            r <= 1000,
    ;
    let extra: u128 = base * r * (draw as u128) / 1_000_000;
    assert(extra <= base) by (nonlinear_arith)
        requires
            extra == base * r * (draw as u128) / 1_000_000,
            r <= 1000,
            draw <= 1000,
    ;
    base + extra
}

/// A backoff delay is at least zero and at most twice `MAX_BACKOFF_MS`.
pub proof fn lemma_backoff_delay_bounds(retries: Retries, k: nat, draw: nat)
    requires
        draw <= 1000,
    ensures
        0 <= backoff_delay(retries, k, draw) <= 2 * MAX_BACKOFF_MS,
{
    let base = backoff_base(retries.backoff_initial_interval as nat, retries.backoff_multiplier as nat, k);
    lemma_backoff_base_bounds(retries.backoff_initial_interval as nat, retries.backoff_multiplier as nat, k);
    let r = effective_randomization(retries.backoff_randomization as nat);
    assert(0 <= base * r * draw / 1_000_000 <= base) by (nonlinear_arith)
        requires
            0 <= base,
            0 <= r <= 1000,
            draw <= 1000,
    ;
}

proof fn lemma_backoff_base_upper(initial: nat, multiplier: nat, k: nat)
    ensures
        backoff_base(initial, multiplier, k) * pow(1000, k) <= initial * pow(multiplier as int, k),
    decreases k,
{
    lemma_backoff_base_bounds(initial, multiplier, k);
    if k == 0 {
        assert(pow(1000, 0) == 1 && pow(multiplier as int, 0) == 1) by {
            vstd::arithmetic::power::lemma_pow0(1000);
            vstd::arithmetic::power::lemma_pow0(multiplier as int);
        }
    } else {
        let k1 = (k - 1) as nat;
        lemma_backoff_base_upper(initial, multiplier, k1);
        lemma_backoff_base_bounds(initial, multiplier, k1);
        let prev = backoff_base(initial, multiplier, k1);
        let unit_pow = pow(1000, k1);
        let mult_pow = pow(multiplier as int, k1);
        assert(pow(1000, k) == 1000 * unit_pow && pow(multiplier as int, k) == multiplier * mult_pow) by {
            reveal(pow);
        }
        vstd::arithmetic::power::lemma_pow_positive(1000, k1);
        let cur = backoff_base(initial, multiplier, k);
        assert(cur <= prev * multiplier / 1000);
        assert(cur * (1000 * unit_pow) <= initial * (multiplier * mult_pow)) by (nonlinear_arith)
            requires
                0 <= cur <= prev * multiplier / 1000,
                prev >= 0,
                unit_pow > 0,
                prev * unit_pow <= initial * mult_pow,
        ;
    }
}

proof fn lemma_backoff_base_exact(initial: nat, whole: nat, k: nat)
    requires
        initial <= u64::MAX,
        whole >= 1,
    ensures
        backoff_base(initial, whole * 1000, k) == cap_backoff(initial * pow(whole as int, k)),
    decreases k,
{
    if k == 0 {
        vstd::arithmetic::power::lemma_pow0(whole as int);
    } else {
        let k1 = (k - 1) as nat;
        let pw = pow(whole as int, k1);
        assert(pow(whole as int, k) == whole * pw) by {
            reveal(pow);
        }
        vstd::arithmetic::power::lemma_pow_positive(whole as int, k1);
        lemma_backoff_base_exact(initial, whole, k1);
        let prev = backoff_base(initial, whole * 1000, k1);
        let exact = initial * pw;
        assert(prev * (whole * 1000) / 1000 == prev * whole) by (nonlinear_arith);
        assert(exact * whole == initial * (whole * pw)) by (nonlinear_arith)
            requires
                exact == initial * pw,
        ;
        assert(exact >= 0) by (nonlinear_arith)
            requires
                exact == initial * pw,
                pw > 0,
        ;
        assert(exact <= exact * whole) by (nonlinear_arith)
            requires
                whole >= 1,
                exact >= 0,
        ;
        if exact > MAX_BACKOFF_MS {
            assert(prev * whole >= prev) by (nonlinear_arith)
                requires
                    whole >= 1,
                    prev >= 0,
            ;
        }
        assert(exact >= 0) by (nonlinear_arith)
            requires
                exact == initial * pw,
                pw > 0,
        ;
    }
}

/// The wait before the retry after failed try `k` is never more than the initial interval
/// times the multiplier to the power `k`, times one plus the randomization.
/// In thousandths: `d * 1000^(k+1) <= I * m^k * (1000 + r)`.
pub proof fn backoff_delay_upper_bound(retries: Retries, k: nat, draw: nat)
    requires
        draw <= 1000,
    ensures
        backoff_delay(retries, k, draw) * pow(1000, k) * 1000
            <= retries.backoff_initial_interval * pow(retries.backoff_multiplier as int, k)
                * (1000 + retries.backoff_randomization),
{
    let initial = retries.backoff_initial_interval as nat;
    let m = retries.backoff_multiplier as nat;
    let base = backoff_base(initial, m, k);
    let r = effective_randomization(retries.backoff_randomization as nat);
    lemma_backoff_base_upper(initial, m, k);
    lemma_backoff_base_bounds(initial, m, k);
    vstd::arithmetic::power::lemma_pow_positive(1000, k);
    let p = pow(1000, k);
    let q = initial * pow(m as int, k);
    let d = backoff_delay(retries, k, draw);
    assert(d * 1000 <= base * (1000 + r)) by (nonlinear_arith)
        requires
            d == base + base * r * draw / 1_000_000,
            base >= 0,
            0 <= r <= 1000,
            draw <= 1000,
    ;
    assert(d * p * 1000 <= q * (1000 + retries.backoff_randomization)) by (nonlinear_arith)
        requires
            d * 1000 <= base * (1000 + r),
            base * p <= q,
            p > 0,
            base >= 0,
            0 <= r <= retries.backoff_randomization,
            d >= 0,
    ;
}

/// With a whole multiplier `m` (at least one), the wait before the retry after failed try
/// `k` is at least `I * m^k`, or `MAX_BACKOFF_MS` where that product is longer.
pub proof fn backoff_delay_lower_bound(retries: Retries, k: nat, draw: nat)
    requires
        retries.backoff_multiplier >= 1000,
        retries.backoff_multiplier % 1000 == 0,
    ensures
        backoff_delay(retries, k, draw) >= cap_backoff(
            retries.backoff_initial_interval * pow((retries.backoff_multiplier / 1000) as int, k),
        ),
{
    let whole = (retries.backoff_multiplier / 1000) as nat;
    let initial = retries.backoff_initial_interval as nat;
    assert(whole * 1000 == retries.backoff_multiplier);
    lemma_backoff_base_exact(initial, whole, k);
    lemma_backoff_base_bounds(initial, retries.backoff_multiplier as nat, k);
    let base = backoff_base(initial, retries.backoff_multiplier as nat, k);
    let r = effective_randomization(retries.backoff_randomization as nat);
    assert(base * r * draw / 1_000_000 >= 0) by (nonlinear_arith)
        requires
            base >= 0,
            r >= 0,
    ;
}

} // verus!
