//! How long a send waits before it tries again.
//!
//! The laws of the retry policy: where delays start, how they grow, where they
//! stop, and how jitter spreads them over recipients.

use crate::config::{capped_product, grown, grown_once, scattered, RetryPolicy};
use crate::duration::duration_nanos;
use crate::send::hashed;
use vstd::arithmetic::div_mod::{lemma_mod_multiples_vanish, lemma_mul_mod_noop_left};
use vstd::prelude::*;

verus! {

/// The same policy without jitter.
pub open spec fn without_jitter(policy: RetryPolicy) -> RetryPolicy {
    RetryPolicy { jitter_pct: 0, ..policy }
}

/// The whole milliseconds in a span fit into 64 bits.
pub open spec fn in_range(nanos: nat) -> bool {
    nanos / 1_000_000 < 0x1_0000_0000_0000_0000
}

/// Nothing is waited before the first request.
pub proof fn lemma_the_first_request_waits_for_nothing(policy: RetryPolicy, seed: u64)
    ensures
        policy.backoff_millis(0, seed) == 0,
{
}

/// Without jitter the first delay is `initial_backoff`, but at least a
/// millisecond and at most `max_backoff`.
pub proof fn lemma_delays_start_at_initial_backoff(policy: RetryPolicy, seed: u64)
    requires
        policy.jitter_pct == 0,
        in_range(duration_nanos(policy.initial_backoff)),
        in_range(duration_nanos(policy.max_backoff)),
    ensures
        ({
            let first = duration_nanos(policy.initial_backoff) / 1_000_000;
            let most = duration_nanos(policy.max_backoff) / 1_000_000;
            let wanted: nat = if first == 0 {
                1
            } else {
                first
            };
            policy.backoff_millis(1, seed) == (if wanted < most {
                wanted
            } else {
                most
            })
        }),
{
    assert(capped_product(policy.nominal_millis(1), 0) == 0);
    assert(scattered(seed, 1) as nat % 1 == 0);
}

proof fn lemma_grown_step(millis: nat, factor: nat, cap: nat, steps: nat)
    requires
        factor >= 100,
        millis * factor <= u64::MAX,
        cap * factor <= u64::MAX,
    ensures
        ({
            let now = grown(millis, factor, cap, steps);
            let next = grown(millis, factor, cap, steps + 1);
            let held = if now < cap {
                now
            } else {
                cap
            };
            let risen = held * factor / 100;
            (if next < cap {
                next
            } else {
                cap
            }) == (if risen < cap {
                risen
            } else {
                cap
            })
        }),
    decreases steps,
{
    let next = grown_once(millis, factor);
    assert(cap * factor >= cap * 100) by (nonlinear_arith)
        requires
            factor >= 100,
            cap >= 0,
    ;
    assert(millis * factor >= millis * 100) by (nonlinear_arith)
        requires
            factor >= 100,
            millis >= 0,
    ;
    if steps == 0 {
        assert(grown(millis, factor, cap, 1) == next) by {
            reveal_with_fuel(grown, 2);
        }
    } else if next < cap {
        assert(next * factor <= cap * factor) by (nonlinear_arith)
            requires
                next < cap,
                factor >= 100,
        ;
        lemma_grown_step(next, factor, cap, (steps - 1) as nat);
    }
}

/// Without jitter each delay is `multiplier_pct` percent of the one before it,
/// but never less than it and never more than `max_backoff`, as long as the
/// products fit into 64 bits.
pub proof fn lemma_delays_grow_by_the_multiplier(policy: RetryPolicy, attempt: u32, seed: u64)
    requires
        policy.jitter_pct == 0,
        0 < attempt < u32::MAX,
        duration_nanos(policy.initial_backoff) >= 1_000_000,
        duration_nanos(policy.max_backoff) >= 1_000_000,
        duration_nanos(policy.initial_backoff) / 1_000_000 * (100 + policy.multiplier_pct)
            <= u64::MAX,
        duration_nanos(policy.max_backoff) / 1_000_000 * (100 + policy.multiplier_pct) <= u64::MAX,
    ensures
        ({
            let percent: nat = if policy.multiplier_pct < 100 {
                100
            } else {
                policy.multiplier_pct as nat
            };
            let most = duration_nanos(policy.max_backoff) / 1_000_000;
            let risen = policy.backoff_millis(attempt, seed) * percent / 100;
            policy.backoff_millis((attempt + 1) as u32, seed) == (if risen < most {
                risen
            } else {
                most
            })
        }),
{
    lemma_policy_in_range(policy);
    lemma_plain_delay(policy, attempt, seed);
    lemma_plain_delay(policy, (attempt + 1) as u32, seed);
    lemma_nominal_step(policy, attempt);
}

/// What a policy starts from and stops at, where its products fit.
proof fn lemma_policy_in_range(policy: RetryPolicy)
    requires
        duration_nanos(policy.initial_backoff) >= 1_000_000,
        duration_nanos(policy.max_backoff) >= 1_000_000,
        duration_nanos(policy.initial_backoff) / 1_000_000 * (100 + policy.multiplier_pct)
            <= u64::MAX,
        duration_nanos(policy.max_backoff) / 1_000_000 * (100 + policy.multiplier_pct) <= u64::MAX,
    ensures
        policy.start() == duration_nanos(policy.initial_backoff) / 1_000_000,
        policy.cap() == duration_nanos(policy.max_backoff) / 1_000_000,
        policy.start() >= 1,
        policy.cap() >= 1,
        policy.start() * policy.factor() <= u64::MAX,
        policy.cap() * policy.factor() <= u64::MAX,
{
    let first = duration_nanos(policy.initial_backoff) / 1_000_000;
    let most = duration_nanos(policy.max_backoff) / 1_000_000;
    lemma_factor_fits(first, policy.multiplier_pct as nat, policy.factor());
    lemma_factor_fits(most, policy.multiplier_pct as nat, policy.factor());
}

proof fn lemma_factor_fits(millis: nat, pct: nat, factor: nat)
    by (nonlinear_arith)
    requires
        factor <= 100 + pct,
        millis * (100 + pct) <= u64::MAX,
    ensures
        millis * factor <= u64::MAX,
        millis <= u64::MAX,
{
}

proof fn lemma_nominal_step(policy: RetryPolicy, attempt: u32)
    requires
        0 < attempt < u32::MAX,
        policy.start() * policy.factor() <= u64::MAX,
        policy.cap() * policy.factor() <= u64::MAX,
    ensures
        ({
            let risen = policy.nominal_millis(attempt) * policy.factor() / 100;
            policy.nominal_millis((attempt + 1) as u32) == (if risen < policy.cap() {
                risen
            } else {
                policy.cap()
            })
        }),
{
    lemma_grown_step(policy.start(), policy.factor(), policy.cap(), (attempt - 1) as nat);
}

proof fn lemma_grown_positive(millis: nat, factor: nat, cap: nat, steps: nat)
    requires
        factor >= 100,
        millis >= 1,
    ensures
        grown(millis, factor, cap, steps) >= 1,
    decreases steps,
{
    if steps > 0 {
        let next = grown_once(millis, factor);
        assert(millis * factor >= 100) by (nonlinear_arith)
            requires
                factor >= 100,
                millis >= 1,
        ;
        assert(next >= 1);
        if next < cap {
            lemma_grown_positive(next, factor, cap, (steps - 1) as nat);
        }
    }
}

/// Without jitter the delay is the nominal one.
proof fn lemma_plain_delay(policy: RetryPolicy, attempt: u32, seed: u64)
    requires
        policy.jitter_pct == 0,
        0 < attempt,
        policy.start() >= 1,
        policy.cap() >= 1,
    ensures
        policy.backoff_millis(attempt, seed) == policy.nominal_millis(attempt),
        policy.nominal_millis(attempt) >= 1,
{
    lemma_grown_positive(
        policy.start(),
        policy.factor(),
        policy.cap(),
        (attempt - 1) as nat,
    );
    assert(capped_product(policy.nominal_millis(attempt), 0) == 0);
    assert(scattered(seed, attempt) as nat % 1 == 0);
}

/// Jitter moves a delay by at most `jitter_pct` percent of what it would be
/// without jitter, up or down, and never beyond `max_backoff`.
pub proof fn lemma_jitter_is_a_share_of_the_delay(policy: RetryPolicy, attempt: u32, seed: u64)
    requires
        0 < attempt,
    ensures
        ({
            let plain = without_jitter(policy).backoff_millis(attempt, seed);
            let delay = policy.backoff_millis(attempt, seed);
            &&& plain * 100 <= delay * 100 + plain * policy.jitter_pct
            &&& delay * 100 <= plain * 100 + plain * policy.jitter_pct
            &&& delay <= duration_nanos(policy.max_backoff) / 1_000_000
        }),
{
    let bare = without_jitter(policy);
    let plain = bare.backoff_millis(attempt, seed);
    let nominal = policy.nominal_millis(attempt);
    let spread = policy.spread_millis(attempt);
    let pct = policy.jitter_pct as nat;
    let share: nat = if pct < 100 {
        pct
    } else {
        100
    };
    assert(bare.nominal_millis(attempt) == nominal);
    assert(capped_product(nominal, 0) == 0);
    assert(scattered(seed, attempt) as nat % 1 == 0);
    assert(nominal * share <= nominal * pct) by (nonlinear_arith)
        requires
            share <= pct,
            nominal >= 0,
    ;
    assert(nominal * share <= nominal * 100) by (nonlinear_arith)
        requires
            share <= 100,
            nominal >= 0,
    ;
    assert(spread * 100 <= nominal * share);
    let offset = scattered(seed, attempt) as nat % (spread * 2 + 1);
    assert(0 <= offset <= spread * 2) by (nonlinear_arith)
        requires
            offset == scattered(seed, attempt) as nat % (spread * 2 + 1),
            spread >= 0,
    ;
    assert(nominal <= policy.cap());
    let most = duration_nanos(policy.max_backoff) / 1_000_000;
    assert(policy.cap() <= most) by (nonlinear_arith)
        requires
            policy.cap() == most % 0x1_0000_0000_0000_0000,
            most >= 0,
    ;
    if nominal == 0 {
        assert(0 * pct == 0) by (nonlinear_arith);
        assert(plain * pct >= 0) by (nonlinear_arith)
            requires
                plain >= 0,
                pct >= 0,
        ;
    } else {
        assert(plain == nominal);
    }
}

// ---------------------------------------------------------------------------
// Scattering
// ---------------------------------------------------------------------------

/// Multiplying by `c` and then by its inverse changes nothing.
proof fn lemma_product_undone(x: u64, c: u64, d: u64)
    requires
        c as int * d as int % 0x1_0000_0000_0000_0000 == 1,
    ensures
        x.wrapping_mul(c).wrapping_mul(d) == x,
{
    let m: int = 0x1_0000_0000_0000_0000;
    let xi = x as int;
    let ci = c as int;
    let di = d as int;
    let k = ci * di / m;
    assert(ci * di == k * m + 1) by (nonlinear_arith)
        requires
            ci * di % m == 1,
            k == ci * di / m,
            m > 0,
    ;
    lemma_mul_mod_noop_left(xi * ci, di, m);
    assert((xi * ci) * di == m * (xi * k) + xi) by (nonlinear_arith)
        requires
            ci * di == k * m + 1,
    ;
    lemma_mod_multiples_vanish(xi * k, xi, m);
    assert(xi % m == xi) by (nonlinear_arith)
        requires
            0 <= xi < m,
    ;
}

/// The seed from which `value` is scattered.
spec fn gathered(value: u64, attempt: u32) -> u64 {
    let x2 = value ^ (value >> 31) ^ (value >> 62);
    let y1 = x2.wrapping_mul(0x3196_42B2_D24D_8EC3);
    let x1 = y1 ^ (y1 >> 27) ^ (y1 >> 54);
    let y0 = x1.wrapping_mul(0x96DE_1B17_3F11_9089);
    let x0 = y0 ^ (y0 >> 30) ^ (y0 >> 60);
    x0.wrapping_mul(0xF1DE_83E1_9937_733D).wrapping_sub(attempt as u64)
}

/// Seeds are scattered over all 64-bit numbers: each of them is reached.
proof fn lemma_every_number_is_reached(value: u64, attempt: u32)
    ensures
        scattered(gathered(value, attempt), attempt) == value,
{
    let x2 = value ^ (value >> 31) ^ (value >> 62);
    let y1 = x2.wrapping_mul(0x3196_42B2_D24D_8EC3);
    let x1 = y1 ^ (y1 >> 27) ^ (y1 >> 54);
    let y0 = x1.wrapping_mul(0x96DE_1B17_3F11_9089);
    let x0 = y0 ^ (y0 >> 30) ^ (y0 >> 60);
    let w = x0.wrapping_mul(0xF1DE_83E1_9937_733D);
    assert(0xF1DE_83E1_9937_733D * 0x9E37_79B9_7F4A_7C15 % 0x1_0000_0000_0000_0000 == 1int);
    assert(0x96DE_1B17_3F11_9089 * 0xBF58_476D_1CE4_E5B9 % 0x1_0000_0000_0000_0000 == 1int);
    assert(0x3196_42B2_D24D_8EC3 * 0x94D0_49BB_1331_11EB % 0x1_0000_0000_0000_0000 == 1int);
    lemma_product_undone(x0, 0xF1DE_83E1_9937_733D, 0x9E37_79B9_7F4A_7C15);
    lemma_product_undone(x1, 0x96DE_1B17_3F11_9089, 0xBF58_476D_1CE4_E5B9);
    lemma_product_undone(x2, 0x3196_42B2_D24D_8EC3, 0x94D0_49BB_1331_11EB);
    assert(w.wrapping_sub(attempt as u64).wrapping_add(attempt as u64) == w);
    assert((y0 ^ (y0 >> 30) ^ (y0 >> 60)) ^ ((y0 ^ (y0 >> 30) ^ (y0 >> 60)) >> 30) == y0)
        by (bit_vector);
    assert((y1 ^ (y1 >> 27) ^ (y1 >> 54)) ^ ((y1 ^ (y1 >> 27) ^ (y1 >> 54)) >> 27) == y1)
        by (bit_vector);
    assert((value ^ (value >> 31) ^ (value >> 62)) ^ ((value ^ (value >> 31) ^ (value >> 62))
        >> 31) == value) by (bit_vector);
}

/// Jitter makes use of its whole band: every delay that is off by no more than
/// `jitter_pct` percent, and is allowed, is the delay of some recipient. So a
/// fleet of senders does not retry in lockstep.
pub proof fn lemma_jitter_uses_its_whole_band(policy: RetryPolicy, attempt: u32, delay: nat) -> (
    seed: u64)
    requires
        0 < attempt,
        policy.jitter_pct <= 100,
        duration_nanos(policy.initial_backoff) >= 1_000_000,
        in_range(duration_nanos(policy.initial_backoff)),
        duration_nanos(policy.max_backoff) >= 1_000_000,
        duration_nanos(policy.max_backoff) / 1_000_000 * 100 <= u64::MAX,
        1 <= delay <= duration_nanos(policy.max_backoff) / 1_000_000,
        ({
            let plain = without_jitter(policy).backoff_millis(attempt, 0);
            plain * 100 <= delay * 100 + plain * policy.jitter_pct && delay * 100 <= plain * 100
                + plain * policy.jitter_pct
        }),
    ensures
        policy.backoff_millis(attempt, seed) == delay,
{
    let bare = without_jitter(policy);
    let nominal = policy.nominal_millis(attempt);
    let spread = policy.spread_millis(attempt);
    let pct = policy.jitter_pct as nat;
    assert(bare.start() == policy.start());
    assert(policy.start() >= 1);
    assert(policy.cap() == duration_nanos(policy.max_backoff) / 1_000_000);
    lemma_plain_delay(bare, attempt, 0);
    assert(bare.nominal_millis(attempt) == nominal);
    assert(nominal <= policy.cap());
    assert(nominal * pct <= nominal * 100) by (nonlinear_arith)
        requires
            pct <= 100,
            nominal >= 0,
    ;
    assert(spread == nominal * pct / 100);
    assert(nominal - spread <= delay <= nominal + spread);
    let k = (delay + spread - nominal) as nat;
    let value = k as u64;
    let seed = gathered(value, attempt);
    lemma_every_number_is_reached(value, attempt);
    assert(k % (spread * 2 + 1) == k) by (nonlinear_arith)
        requires
            0 <= k < spread * 2 + 1,
    ;
    seed
}

/// The seed tells recipients apart: two texts that differ in exactly one byte
/// have different seeds.
pub proof fn lemma_seeds_tell_recipients_apart(
    before: Seq<u8>,
    one: u8,
    other: u8,
    after: Seq<u8>,
)
    requires
        one != other,
    ensures
        hashed(before.push(one) + after) != hashed(before.push(other) + after),
    decreases after.len(),
{
    let a = before.push(one) + after;
    let b = before.push(other) + after;
    assert(0x1000_0000_01b3 * 0xB46D_D957_AFF6_957B % 0x1_0000_0000_0000_0000 == 1int);
    if after.len() == 0 {
        let h = hashed(before);
        assert(a.drop_last() =~= before);
        assert(b.drop_last() =~= before);
        lemma_product_undone(h ^ one as u64, 0x1000_0000_01b3, 0xB46D_D957_AFF6_957B);
        lemma_product_undone(h ^ other as u64, 0x1000_0000_01b3, 0xB46D_D957_AFF6_957B);
        assert(h ^ (one as u64) != h ^ (other as u64)) by (bit_vector)
            requires
                one != other,
        ;
    } else {
        let rest = after.drop_last();
        let c = after.last();
        let g = hashed(before.push(one) + rest);
        let h = hashed(before.push(other) + rest);
        lemma_seeds_tell_recipients_apart(before, one, other, rest);
        assert(a.drop_last() =~= before.push(one) + rest);
        assert(b.drop_last() =~= before.push(other) + rest);
        lemma_product_undone(g ^ c as u64, 0x1000_0000_01b3, 0xB46D_D957_AFF6_957B);
        lemma_product_undone(h ^ c as u64, 0x1000_0000_01b3, 0xB46D_D957_AFF6_957B);
        assert(g ^ (c as u64) != h ^ (c as u64)) by (bit_vector)
            requires
                g != h,
        ;
    }
}

/// The seed of a recipient is the same in every process: nothing hashes to a fixed
/// number, and each byte is mixed in by a multiplication modulo 2^64.
pub proof fn lemma_seeds_are_reproducible(bytes: Seq<u8>, b: u8)
    ensures
        hashed(Seq::empty()) == 14_695_981_039_346_656_037u64,
        hashed(bytes.push(b)) == (hashed(bytes) ^ b as u64) * 17_592_186_044_851
            % 0x1_0000_0000_0000_0000,
{
    assert(bytes.push(b).drop_last() =~= bytes);
}

} // verus!
