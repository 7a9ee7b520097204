//! Decisions of the Bitcoin Core poller: the node's URL, the retry delay
//! after failures, block heights, and the status lines it reports.
use vstd::arithmetic::power2::{lemma_pow2_unfold, pow2};
use vstd::prelude::*;

use crate::app::BlockDisplayInfo;
use crate::text::{has_prefix, starts_with, to_chars};

verus! {

/// Delay after a successful poll, and the first retry delay.
pub const BASE_DELAY_SECS: u64 = 5;

/// Longest retry delay.
pub const MAX_DELAY_SECS: u64 = 60;

/// Blocks shown, counted back from the best one.
pub const RECENT_BLOCKS: usize = 6;

/// `base × 2^failures`, capped at `max`.
pub open spec fn backoff(base: u64, max: u64, failures: u32) -> int {
    let d = base * pow2(failures as nat);
    if d < max {
        d
    } else {
        max as int
    }
}

/// Exponential backoff: base × 2^failures, capped at max.
pub fn backoff_delay(base: u64, max: u64, failures: u32) -> (r: u64)
    ensures
        r == backoff(base, max, failures),
{
    if base == 0 {
        return 0;
    }
    // `d` is base × 2^i, or u64::MAX once that no longer fits
    let mut d: u64 = base;
    let mut i: u32 = 0;
    assert(base * pow2(0) == base) by {
        vstd::arithmetic::power2::lemma2_to64();
    }
    while i < failures && d < max
        invariant
            i <= failures,
            base > 0,
            d as int == base * pow2(i as nat) || (d == u64::MAX && base * pow2(i as nat)
                >= u64::MAX),
        decreases failures - i,
    {
        proof {
            lemma_pow2_unfold((i + 1) as nat);
            lemma_times_double(base as int, pow2(i as nat) as int);
        }
        if d > u64::MAX / 2 {
            d = u64::MAX;
        } else {
            d = d * 2;
        }
        i = i + 1;
    }
    proof {
        lemma_backoff_grows(base, i, failures);
    }
    if d < max {
        d
    } else {
        max
    }
}

proof fn lemma_times_double(b: int, p: int)
    by (nonlinear_arith)
    ensures
        b * (2 * p) == (b * p) * 2,
{
}

proof fn lemma_backoff_grows(base: u64, e1: u32, e2: u32)
    requires
        e1 <= e2,
    ensures
        base * pow2(e1 as nat) <= base * pow2(e2 as nat),
{
    if e1 < e2 {
        vstd::arithmetic::power2::lemma_pow2_strictly_increases(e1 as nat, e2 as nat);
    }
    vstd::arithmetic::mul::lemma_mul_inequality(
        pow2(e1 as nat) as int,
        pow2(e2 as nat) as int,
        base as int,
    );
    vstd::arithmetic::mul::lemma_mul_is_commutative(pow2(e1 as nat) as int, base as int);
    vstd::arithmetic::mul::lemma_mul_is_commutative(pow2(e2 as nat) as int, base as int);
}

/// The retry delay never exceeds the cap, never shrinks as failures
/// accumulate, and stays at the cap once it has reached it.
pub proof fn lemma_backoff_bounded_monotone(base: u64, max: u64, f1: u32, f2: u32)
    requires
        f1 <= f2,
    ensures
        backoff(base, max, f2) <= max,
        backoff(base, max, f1) <= backoff(base, max, f2),
        backoff(base, max, f1) == max ==> backoff(base, max, f2) == max,
{
    lemma_backoff_grows(base, f1, f2);
}

/// Retry bookkeeping of the node poller.
pub struct NodePoller {
    pub consecutive_failures: u32,
}

impl NodePoller {
    pub fn new() -> (r: NodePoller)
        ensures
            r.consecutive_failures == 0,
    {
        NodePoller { consecutive_failures: 0 }
    }

    /// A poll succeeded: the failure count starts over and the next poll
    /// comes after the base delay.
    pub fn on_success(&mut self) -> (delay_secs: u64)
        ensures
            final(self).consecutive_failures == 0,
            delay_secs == BASE_DELAY_SECS,
    {
        self.consecutive_failures = 0;
        BASE_DELAY_SECS
    }

    /// A poll failed: one more failure (saturating), and the next poll
    /// comes after the backoff delay for that many failures.
    pub fn on_failure(&mut self) -> (delay_secs: u64)
        ensures
            final(self).consecutive_failures == (if old(self).consecutive_failures == u32::MAX {
                u32::MAX
            } else {
                (old(self).consecutive_failures + 1) as u32
            }),
            delay_secs == backoff(
                BASE_DELAY_SECS,
                MAX_DELAY_SECS,
                final(self).consecutive_failures,
            ),
    {
        self.consecutive_failures = self.consecutive_failures.saturating_add(1);
        backoff_delay(BASE_DELAY_SECS, MAX_DELAY_SECS, self.consecutive_failures)
    }
}

/// The URL to reach the node at: `http://` goes in front of an address that
/// does not start with `http`.
pub open spec fn rpc_url(url: Seq<char>) -> Seq<char> {
    if starts_with(url, "http"@) {
        url
    } else {
        "http://"@ + url
    }
}

/// The URL to reach the node at.
pub fn node_rpc_url(url: String) -> (r: String)
    ensures
        r@ == rpc_url(url@),
{
    let chars = to_chars(url.as_str());
    if has_prefix(&chars, "http") {
        url
    } else {
        let mut r = "http://".to_owned();
        r.append(url.as_str());
        r
    }
}

/// Set the heights of blocks listed from the best one backwards.
pub fn assign_heights(blocks: &mut Vec<BlockDisplayInfo>, best_height: u64)
    requires
        old(blocks)@.len() == 0 || old(blocks)@.len() - 1 <= best_height,
    ensures
        final(blocks)@.len() == old(blocks)@.len(),
        forall|i: int|
            0 <= i < final(blocks)@.len() ==> #[trigger] final(blocks)@[i] == (BlockDisplayInfo {
                height: (best_height - i) as u64,
                ..old(blocks)@[i]
            }),
{
    let n = blocks.len();
    let mut i: usize = 0;
    while i < n
        invariant
            n == blocks@.len(),
            n == old(blocks)@.len(),
            n == 0 || n - 1 <= best_height,
            i <= n,
            forall|k: int|
                0 <= k < i ==> #[trigger] blocks@[k] == (BlockDisplayInfo {
                    height: (best_height - k) as u64,
                    ..old(blocks)@[k]
                }),
            forall|k: int| i <= k < n ==> #[trigger] blocks@[k] == old(blocks)@[k],
        decreases n - i,
    {
        let mut b = blocks[i];
        b.height = best_height - i as u64;
        blocks.set(i, b);
        i = i + 1;
    }
}

/// Status line for an error the node reported.
pub fn node_error_status(detail: &str) -> (r: String)
    ensures
        r@ == "NODE ERROR: "@ + detail@,
{
    let mut r = "NODE ERROR: ".to_owned();
    r.append(detail);
    r
}

/// Status line for a polling task that failed to complete.
pub fn task_error_status(detail: &str) -> (r: String)
    ensures
        r@ == "TASK ERROR: "@ + detail@,
{
    let mut r = "TASK ERROR: ".to_owned();
    r.append(detail);
    r
}

} // verus!
