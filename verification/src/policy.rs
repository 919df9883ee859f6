//! Reconnect policy: bounded retries, backoff schedule, per-session jitter.

use vstd::prelude::*;
use vstd::arithmetic::div_mod::lemma_add_mod_noop;
use vstd::string::StringSliceAdditionalSpecFns;

verus! {

/// Default number of automatic reconnect attempts after a drop.
pub const DEFAULT_MAX_RETRIES: u32 = 3;

/// Backoff schedule in seconds, indexed by attempt number minus one.
/// Attempts beyond the schedule reuse its last entry.
pub open spec fn spec_schedule_secs(idx: int) -> u64 {
    if idx <= 0 {
        0
    } else if idx == 1 {
        5
    } else {
        10
    }
}

/// Delay before attempt `attempt` (1-based), including the per-session jitter:
/// `schedule[min(attempt - 1, 2)] * 1000 + jitter_ms` milliseconds.
pub open spec fn spec_scheduled_delay_ms(attempt: u32, jitter_ms: u64) -> u64 {
    (spec_schedule_secs(if attempt - 1 < 2 {
        attempt - 1
    } else {
        2
    }) * 1000 + jitter_ms) as u64
}

/// Millisecond delay scheduled before the given reconnect attempt.
pub fn scheduled_delay_ms(attempt: u32, jitter_ms: u64) -> (r: u64)
    requires
        1 <= attempt,
        jitter_ms < 400,
    ensures
        r == spec_scheduled_delay_ms(attempt, jitter_ms),
        r <= 10_399,
{
    let idx: u32 = if attempt - 1 < 2 {
        attempt - 1
    } else {
        2
    };
    let base: u64 = if idx == 0 {
        0
    } else if idx == 1 {
        5
    } else {
        10
    };
    base * 1000 + jitter_ms
}

/// Sum of a byte sequence, as an unbounded integer.
pub open spec fn sum_bytes(s: Seq<u8>) -> int
    decreases s.len(),
{
    if s.len() == 0 {
        0
    } else {
        sum_bytes(s.drop_last()) + s.last()
    }
}

/// Per-session jitter: the byte sum of the session id, modulo 400.
pub open spec fn spec_jitter_ms(id_bytes: Seq<u8>) -> int {
    sum_bytes(id_bytes) % 400
}

/// Computes the per-session jitter from the session id.
pub fn jitter_from_id(id: &str) -> (r: u64)
    ensures
        r == spec_jitter_ms(id.spec_bytes()),
        r < 400,
{
    let bytes: &[u8] = id.as_bytes();
    let n: usize = bytes.len();
    let mut acc: u64 = 0;
    let mut i: usize = 0;
    while i < n
        invariant
            n == bytes@.len(),
            bytes@ == id.spec_bytes(),
            i <= n,
            acc < 400,
            acc == sum_bytes(bytes@.take(i as int)) % 400,
        decreases n - i,
    {
        let b: u8 = bytes[i];
        proof {
            let t = bytes@.take(i as int + 1);
            assert(t.drop_last() =~= bytes@.take(i as int));
            assert(t.last() == bytes@[i as int]);
            lemma_add_mod_noop(sum_bytes(bytes@.take(i as int)), b as int, 400);
        }
        acc = (acc + b as u64) % 400;
        i = i + 1;
    }
    proof {
        assert(bytes@.take(n as int) =~= bytes@);
    }
    acc
}

} // verus!
