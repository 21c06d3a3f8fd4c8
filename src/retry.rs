//! The transport's retry schedule: which outcomes are tried again, after
//! which delay, and when the request gives up.

use vstd::prelude::*;
use rand::Rng;

verus! {

/// Retries after the first attempt; four attempts in all.
pub const MAX_RETRIES: u32 = 3;

/// Delay before the first retry, in seconds; it doubles with each retry.
pub const RETRY_BASE_DELAY_SECS: u64 = 1;

/// HTTP statuses worth another attempt: 408, 429, 500, 502, 503, 504.
pub open spec fn retriable_status(s: u16) -> bool {
    s == 408 || s == 429 || s == 500 || s == 502 || s == 503 || s == 504
}

pub fn is_retriable_status(status: u16) -> (r: bool)
    ensures
        r == retriable_status(status),
{
    status == 408 || status == 429 || status == 500 || status == 502 || status == 503 || status
        == 504
}

/// `2^attempt` seconds, the base delay before retry `attempt + 1`.
pub open spec fn base_delay_secs(attempt: nat) -> nat
    decreases attempt,
{
    if attempt == 0 {
        RETRY_BASE_DELAY_SECS as nat
    } else {
        2 * base_delay_secs((attempt - 1) as nat)
    }
}

/// The base delay after attempt `attempt` (counting from 0), in seconds:
/// `2^attempt`, held at `u64::MAX` where it would not fit.
pub fn retry_base_delay(attempt: u32) -> (r: u64)
    ensures
        base_delay_secs(attempt as nat) <= u64::MAX ==> r == base_delay_secs(attempt as nat),
        base_delay_secs(attempt as nat) > u64::MAX ==> r == u64::MAX,
{
    let mut d: u64 = RETRY_BASE_DELAY_SECS;
    let mut i: u32 = 0;
    let mut saturated = false;
    while i < attempt
        invariant
            i <= attempt,
            !saturated ==> d == base_delay_secs(i as nat),
            saturated ==> d == u64::MAX && base_delay_secs(i as nat) > u64::MAX,
        decreases attempt - i,
    {
        if saturated || d > u64::MAX / 2 {
            saturated = true;
            d = u64::MAX;
        } else {
            d = d * 2;
        }
        i = i + 1;
    }
    d
}

/// A number drawn uniformly from `0..=max`.
///
/// Relies on `rand::Rng::gen_range` over `rand::thread_rng()`: the value lies
/// in the range, and an inclusive range from 0 is never empty, so it does not
/// panic.
#[verifier::external_body]
fn random_up_to(max: u64) -> (r: u64)
    ensures
        r <= max,
{
    rand::thread_rng().gen_range(0..=max)
}

pub open spec fn min_u64(x: int) -> int {
    if x > u64::MAX { u64::MAX as int } else { x }
}

/// A delay of `base_secs` seconds in milliseconds plus a random jitter of
/// up to a quarter of it, held at `u64::MAX`.
pub fn jittered_delay_ms(base_secs: u64) -> (r: u64)
    ensures
        min_u64(base_secs * 1000) <= r,
        r <= min_u64(base_secs * 1000 + base_secs * 1000 / 4),
{
    let base_ms: u64 = if base_secs > u64::MAX / 1000 {
        u64::MAX
    } else {
        base_secs * 1000
    };
    let max_jitter = base_ms / 4;
    if max_jitter == 0 {
        return base_ms;
    }
    let jitter = random_up_to(max_jitter);
    if jitter > u64::MAX - base_ms {
        u64::MAX
    } else {
        base_ms + jitter
    }
}

/// What one attempt produced.
#[derive(Clone, Copy, Debug)]
pub enum AttemptOutcome {
    /// A response with this HTTP status.
    Status(u16),
    /// No response; `retriable` for connect, timeout and body errors.
    SendError { retriable: bool },
}

/// What the transport does next.
#[derive(Clone, Copy, Debug, PartialEq, Eq, Structural)]
pub enum RetryStep {
    /// Hand the response to the caller.
    Respond,
    /// Wait the base delay (plus jitter) and try again.
    RetryAfter { base_secs: u64 },
    /// Give up with the send error.
    Fail,
}

pub open spec fn is_success_status(s: u16) -> bool {
    200 <= s <= 299
}

/// The step after attempt `attempt` (counting from 0) produced `outcome`.
pub open spec fn next_step(attempt: nat, outcome: AttemptOutcome) -> RetryStep {
    match outcome {
        AttemptOutcome::Status(s) => if !is_success_status(s) && retriable_status(s) && attempt
            < MAX_RETRIES {
            RetryStep::RetryAfter { base_secs: base_delay_secs(attempt) as u64 }
        } else {
            RetryStep::Respond
        },
        AttemptOutcome::SendError { retriable } => if retriable && attempt < MAX_RETRIES {
            RetryStep::RetryAfter { base_secs: base_delay_secs(attempt) as u64 }
        } else {
            RetryStep::Fail
        },
    }
}

/// Decides what follows attempt `attempt`: a success or a final answer goes
/// back to the caller; a retriable status or send error is retried while
/// retries remain; a send error that is not retried fails the request.
pub fn retry_step(attempt: u32, outcome: AttemptOutcome) -> (r: RetryStep)
    ensures
        r == next_step(attempt as nat, outcome),
{
    let again = match outcome {
        AttemptOutcome::Status(s) => !(200 <= s && s <= 299) && is_retriable_status(s),
        AttemptOutcome::SendError { retriable } => retriable,
    };
    if again && attempt < MAX_RETRIES {
        proof {
            assert(base_delay_secs(0) == 1);
            assert(base_delay_secs(1) == 2);
            assert(base_delay_secs(2) == 4);
        }
        RetryStep::RetryAfter { base_secs: retry_base_delay(attempt) }
    } else {
        match outcome {
            AttemptOutcome::Status(_) => RetryStep::Respond,
            AttemptOutcome::SendError { .. } => RetryStep::Fail,
        }
    }
}

/// A transport that answers status `s` to the first `k` attempts and 200
/// afterwards.
pub open spec fn stub_outcome(k: nat, s: u16, attempt: nat) -> AttemptOutcome {
    if attempt < k {
        AttemptOutcome::Status(s)
    } else {
        AttemptOutcome::Status(200)
    }
}

/// Running the schedule from attempt `attempt` against that transport: the
/// status handed back, and the base delays waited, in seconds, in order.
pub open spec fn run_schedule(k: nat, s: u16, attempt: nat) -> (u16, Seq<nat>)
    decreases MAX_RETRIES - attempt,
{
    let step = next_step(attempt, stub_outcome(k, s, attempt));
    if attempt < MAX_RETRIES && step is RetryAfter {
        let rest = run_schedule(k, s, attempt + 1);
        (rest.0, seq![base_delay_secs(attempt)] + rest.1)
    } else {
        match stub_outcome(k, s, attempt) {
            AttemptOutcome::Status(code) => (code, Seq::empty()),
            AttemptOutcome::SendError { .. } => (0, Seq::empty()),
        }
    }
}

pub open spec fn total(d: Seq<nat>) -> nat
    decreases d.len(),
{
    if d.len() == 0 {
        0
    } else {
        d[0] + total(d.drop_first())
    }
}

/// Each actual delay (ms) is the base delay plus at most a quarter of it.
pub open spec fn within_jitter(base_secs: Seq<nat>, actual_ms: Seq<int>) -> bool {
    &&& actual_ms.len() == base_secs.len()
    &&& forall|i: int|
        0 <= i < base_secs.len() ==> base_secs[i] * 1000 <= #[trigger] actual_ms[i]
            <= base_secs[i] * 1000 + base_secs[i] * 1000 / 4
}

pub open spec fn total_ms(d: Seq<int>) -> int
    decreases d.len(),
{
    if d.len() == 0 {
        0
    } else {
        d[0] + total_ms(d.drop_first())
    }
}

proof fn lemma_jitter_total(b: Seq<nat>, d: Seq<int>)
    requires
        within_jitter(b, d),
    ensures
        total(b) * 1000 <= total_ms(d) <= total(b) * 1000 + total(b) * 250,
    decreases b.len(),
{
    if b.len() > 0 {
        assert(within_jitter(b.drop_first(), d.drop_first())) by {
            assert forall|i: int| 0 <= i < b.drop_first().len() implies b.drop_first()[i] * 1000
                <= #[trigger] d.drop_first()[i] <= b.drop_first()[i] * 1000 + b.drop_first()[i]
                * 1000 / 4 by {
                assert(d.drop_first()[i] == d[i + 1]);
            }
        }
        lemma_jitter_total(b.drop_first(), d.drop_first());
        assert(b[0] * 1000 <= d[0] <= b[0] * 1000 + b[0] * 1000 / 4);
        assert(b[0] * 1000 / 4 == b[0] * 250);
    }
}

/// Retry schedule: against a transport that answers a retriable status `k`
/// times and then succeeds, the request succeeds exactly when `k <= 3`; it
/// waits `min(k, 3)` times, with base delays 1, 2, 4 seconds; with the
/// jitter on top, three retries wait between 7 and 8.75 seconds in all.
pub proof fn lemma_retry_schedule(k: nat, s: u16, actual_ms: Seq<int>)
    requires
        retriable_status(s),
        within_jitter(run_schedule(k, s, 0).1, actual_ms),
    ensures
        is_success_status(run_schedule(k, s, 0).0) <==> k <= 3,
        run_schedule(k, s, 0).1 == (if k == 0 {
            Seq::<nat>::empty()
        } else if k == 1 {
            seq![1nat]
        } else if k == 2 {
            seq![1nat, 2nat]
        } else {
            seq![1nat, 2nat, 4nat]
        }),
        k >= 3 ==> 7000 <= total_ms(actual_ms) <= 8750,
{
    reveal_with_fuel(base_delay_secs, 3);
    reveal_with_fuel(run_schedule, 5);
    assert(run_schedule(k, s, 3).1 =~= Seq::<nat>::empty());
    if k == 0 {
        assert(run_schedule(k, s, 0).1 =~= Seq::<nat>::empty());
    } else if k == 1 {
        assert(run_schedule(k, s, 1).1 =~= Seq::<nat>::empty());
        assert(run_schedule(k, s, 0).1 =~= seq![1nat]);
    } else if k == 2 {
        assert(run_schedule(k, s, 2).1 =~= Seq::<nat>::empty());
        assert(run_schedule(k, s, 1).1 =~= seq![2nat]);
        assert(run_schedule(k, s, 0).1 =~= seq![1nat, 2nat]);
    } else {
        assert(run_schedule(k, s, 2).1 =~= seq![4nat]);
        assert(run_schedule(k, s, 1).1 =~= seq![2nat, 4nat]);
        assert(run_schedule(k, s, 0).1 =~= seq![1nat, 2nat, 4nat]);
        let b = seq![1nat, 2nat, 4nat];
        reveal_with_fuel(total, 4);
        assert(b.drop_first() =~= seq![2nat, 4nat]);
        assert(b.drop_first().drop_first() =~= seq![4nat]);
        assert(b.drop_first().drop_first().drop_first() =~= Seq::<nat>::empty());
        assert(total(b) == 7);
        lemma_jitter_total(b, actual_ms);
    }
}

} // verus!
