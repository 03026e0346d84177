//! Retry policy of the reconnecting daemon client.

use vstd::prelude::*;

verus! {

/// Initial retry delay after a failure, in milliseconds.
pub const INITIAL_COOLDOWN_MS: u64 = 2000;
/// Maximum delay between background recovery probes, in milliseconds.
pub const MAX_COOLDOWN_MS: u64 = 30_000;

/// Error returned when a key cannot be processed by the daemon.
#[derive(Debug, Clone, Copy, PartialEq, Eq, Structural)]
pub enum ProcessKeyError {
    /// Daemon is unreachable or all reconnect attempts failed.
    /// The caller should treat the key as a passthrough.
    Unavailable,
    /// The provided handle was never registered.  Indicates a caller bug.
    UnknownHandle,
}

/// `INITIAL_COOLDOWN_MS` doubled `n` times.
pub open spec fn doubled(n: nat) -> int
    decreases n,
{
    if n == 0 { INITIAL_COOLDOWN_MS as int } else { 2 * doubled((n - 1) as nat) }
}

/// The cooldown after `failures` consecutive failures: the initial delay
/// doubled once per failure after the first (at most 16 times), capped at
/// `MAX_COOLDOWN_MS`.
pub open spec fn spec_cooldown(failures: u32) -> int {
    let shift: nat = if failures == 0 { 0 } else if failures - 1 > 16 { 16 } else { (failures - 1) as nat };
    if doubled(shift) < MAX_COOLDOWN_MS { doubled(shift) } else { MAX_COOLDOWN_MS as int }
}

/// Returns the cooldown, in milliseconds, for the given consecutive failure
/// count: 2s, 4s, 8s, 16s, 30s, 30s, …
pub fn current_cooldown(failures: u32) -> (r: u64)
    ensures
        r == spec_cooldown(failures),
{
    let s: u32 = if failures == 0 { 0 } else { failures - 1 };
    let shift: u32 = if s > 16 { 16 } else { s };
    let mut d: u64 = INITIAL_COOLDOWN_MS;
    let mut i: u32 = 0;
    while i < shift
        invariant
            i <= shift <= 16,
            d == doubled(i as nat),
            d <= INITIAL_COOLDOWN_MS * 65536,
        decreases shift - i,
    {
        proof {
            lemma_doubled_bound(i as nat);
        }
        d = d * 2;
        i += 1;
    }
    if d < MAX_COOLDOWN_MS { d } else { MAX_COOLDOWN_MS }
}

proof fn lemma_doubled_bound(n: nat)
    requires
        n < 16,
    ensures
        doubled(n) <= INITIAL_COOLDOWN_MS * 32768,
        doubled(n) > 0,
    decreases n,
{
    reveal_with_fuel(doubled, 17);
    if n > 0 {
        lemma_doubled_bound((n - 1) as nat);
    }
}

proof fn lemma_doubled_mono(a: nat, b: nat)
    requires
        a <= b,
    ensures
        doubled(a) <= doubled(b),
        doubled(a) > 0,
    decreases b,
{
    if a < b {
        lemma_doubled_mono(a, (b - 1) as nat);
    } else if a > 0 {
        lemma_doubled_mono((a - 1) as nat, (a - 1) as nat);
    }
}

/// The cooldown starts at the initial delay, never shrinks as failures
/// accumulate, and never exceeds the maximum; from the fifth consecutive
/// failure on it is the maximum.
pub proof fn lemma_cooldown_schedule(a: u32, b: u32)
    requires
        a <= b,
    ensures
        spec_cooldown(0) == INITIAL_COOLDOWN_MS,
        spec_cooldown(1) == INITIAL_COOLDOWN_MS,
        spec_cooldown(2) == 2 * INITIAL_COOLDOWN_MS,
        spec_cooldown(3) == 4 * INITIAL_COOLDOWN_MS,
        spec_cooldown(4) == 8 * INITIAL_COOLDOWN_MS,
        b >= 5 ==> spec_cooldown(b) == MAX_COOLDOWN_MS,
        spec_cooldown(a) <= spec_cooldown(b),
        INITIAL_COOLDOWN_MS <= spec_cooldown(a) <= MAX_COOLDOWN_MS,
{
    reveal_with_fuel(doubled, 5);
    let sa: nat = if a == 0 { 0 } else if a - 1 > 16 { 16 } else { (a - 1) as nat };
    let sb: nat = if b == 0 { 0 } else if b - 1 > 16 { 16 } else { (b - 1) as nat };
    lemma_doubled_mono(sa, sb);
    lemma_doubled_mono(0, sa);
    if b >= 5 {
        lemma_doubled_mono(4, sb);
    }
}

} // verus!
