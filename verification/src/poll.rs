//! Bounded-wait long-poll primitive.  The decision core is verified here;
//! the host layer runs the loop, performing the fetch and the sleep, and
//! feeds every fetch result together with the elapsed time into
//! [`poll_step`].

use vstd::prelude::*;

verus! {

pub const DEFAULT_MAX_WAIT_MS: u64 = 10000;

pub const DEFAULT_ITER_WAIT_MS: u64 = 1000;

/// What the long-poll loop does after one fetch.
#[derive(Clone, Debug)]
pub enum PollOutcome<T> {
    /// Stop and hand this to the caller: `None` when the subject is missing,
    /// the fetched list otherwise.
    Finished(Option<Vec<T>>),
    /// Sleep this many milliseconds and fetch again.
    RetryAfter(u64),
}

/// Effective waits from the optional caller-supplied ones (milliseconds).
pub fn effective_waits(iter_wait_time: Option<u32>, max_wait_time: Option<u32>) -> (r: (u64, u64))
    ensures
        r.0 == (match iter_wait_time {
            Some(w) => w as u64,
            None => DEFAULT_ITER_WAIT_MS,
        }),
        r.1 == (match max_wait_time {
            Some(w) => w as u64,
            None => DEFAULT_MAX_WAIT_MS,
        }),
{
    let iter = match iter_wait_time {
        Some(w) => w as u64,
        None => DEFAULT_ITER_WAIT_MS,
    };
    let max = match max_wait_time {
        Some(w) => w as u64,
        None => DEFAULT_MAX_WAIT_MS,
    };
    (iter, max)
}

/// Decide after one fetch: a missing subject stops with `None`; a non-empty
/// list stops with that list; an empty list stops (with the empty list) once
/// the elapsed time has reached the maximum wait, and otherwise asks for one
/// more round after the iteration wait.
pub fn poll_step<T>(
    fetched: Option<Vec<T>>,
    elapsed_ms: u64,
    max_wait_ms: u64,
    iter_wait_ms: u64,
) -> (r: PollOutcome<T>)
    ensures
        fetched is None ==> r == PollOutcome::Finished(None::<Vec<T>>),
        fetched is Some && fetched->0@.len() > 0 ==> r == PollOutcome::Finished(fetched),
        fetched is Some && fetched->0@.len() == 0 && elapsed_ms >= max_wait_ms ==> r
            == PollOutcome::Finished(fetched),
        fetched is Some && fetched->0@.len() == 0 && elapsed_ms < max_wait_ms ==> r
            == PollOutcome::<T>::RetryAfter(iter_wait_ms),
{
    match fetched {
        None => PollOutcome::Finished(None),
        Some(updates) => {
            if updates.len() > 0 {
                PollOutcome::Finished(Some(updates))
            } else if elapsed_ms >= max_wait_ms {
                PollOutcome::Finished(Some(updates))
            } else {
                PollOutcome::RetryAfter(iter_wait_ms)
            }
        },
    }
}


/// The bounded-latency law, run against an exact clock: with a fetch that
/// always comes back empty and a sleep that takes exactly the iteration
/// wait, the poll finishes with an empty result after an elapsed time of
/// at least the maximum wait but less than one iteration beyond it, having
/// fetched once per iteration wait.  Returns (fetches, elapsed).
pub fn run_empty_poll_schedule(max_wait_ms: u64, iter_wait_ms: u64) -> (r: (u64, u64))
    requires
        iter_wait_ms > 0,
        max_wait_ms + iter_wait_ms <= u64::MAX,
    ensures
        r.1 >= max_wait_ms,
        r.1 < max_wait_ms + iter_wait_ms,
        r.1 == (r.0 - 1) * iter_wait_ms,
        r.0 >= 1,
{
    let mut elapsed: u64 = 0;
    let mut fetches: u64 = 0;
    loop
        invariant_except_break
            iter_wait_ms > 0,
            max_wait_ms + iter_wait_ms <= u64::MAX,
            elapsed < max_wait_ms + iter_wait_ms,
            elapsed == fetches * iter_wait_ms,
            fetches < u64::MAX,
        ensures
            elapsed >= max_wait_ms,
            elapsed < max_wait_ms + iter_wait_ms,
            fetches >= 1,
            elapsed == (fetches - 1) * iter_wait_ms,
        decreases max_wait_ms + iter_wait_ms - elapsed,
    {
        let fetched: Option<Vec<u8>> = Some(Vec::new());
        proof {
            assert((fetches + 1) * iter_wait_ms == fetches * iter_wait_ms + iter_wait_ms)
                by (nonlinear_arith);
        }
        fetches = fetches + 1;
        match poll_step(fetched, elapsed, max_wait_ms, iter_wait_ms) {
            PollOutcome::Finished(_) => {
                break;
            },
            PollOutcome::RetryAfter(wait) => {
                elapsed = elapsed + wait;
                proof {
                    assert(fetches <= fetches * iter_wait_ms) by (nonlinear_arith)
                        requires
                            iter_wait_ms >= 1,
                    ;
                }
            },
        }
    }
    (fetches, elapsed)
}

} // verus!
