//! The execution-rate scheduler: turns a discrete speed setting into a
//! bounded, cooperatively-yielding batch of machine steps per scheduling
//! tick.
//!
//! Speeds 1 to 5 run one step per tick, gated by a per-level minimum
//! inter-step interval; 6 to 9 run a small fixed batch; 10 to 15 a batch
//! that doubles per level; 16 and above run chunks of ten thousand steps in
//! a tight loop until a short wall-clock budget is exhausted, then yield.

use vstd::prelude::*;
use crate::settings::Settings;
use crate::vm::{spec_step, State, StepStatus, VmModel};

verus! {

/// Steps per chunk at the top speed tier.
pub const CHUNK_STEPS: u64 = 10000;

/// A runaway guard: the most chunks one tick may run, so that a tick always
/// ends even if the clock misbehaves.
pub const MAX_CHUNKS_PER_TICK: u64 = 0x100000;

/// The minimum interval between ticks for a speed level, in milliseconds:
/// one step per second at the lowest level, up to sixteen per second at
/// level five, and thirty-two ticks per second above that.
pub open spec fn step_interval_ms(speed: u8) -> u64 {
    if speed <= 1 {
        1000
    } else if speed == 2 {
        500
    } else if speed == 3 {
        250
    } else if speed == 4 {
        125
    } else if speed == 5 {
        62
    } else {
        31
    }
}

/// The number of steps one tick runs at speeds below the chunked tier.
pub open spec fn batch_size(speed: u8) -> u64 {
    if speed <= 5 {
        1
    } else if speed <= 9 {
        (speed - 5) as u64
    } else if speed == 10 {
        4
    } else if speed == 11 {
        8
    } else if speed == 12 {
        16
    } else if speed == 13 {
        32
    } else if speed == 14 {
        64
    } else {
        128
    }
}

/// The wall-clock budget of one tick at the chunked tier, in milliseconds.
pub open spec fn budget_ms(speed: u8) -> u64 {
    if speed <= 16 {
        4
    } else if speed == 17 {
        8
    } else if speed == 18 {
        16
    } else {
        32
    }
}

/// Relies on coarsetime's Clock::now_since_epoch and Duration::as_millis:
/// the wall clock, in milliseconds since the Unix epoch.  Nothing is
/// promised of the value.
#[verifier::external_body]
pub(crate) fn now_millis() -> u64 {
    coarsetime::Clock::now_since_epoch().as_millis()
}

/// Running up to `n` steps: the batch stops early at the first step that
/// does not report normal completion.  Yields the final machine, the status
/// of the last step taken (normal when none was), and the number of steps
/// taken.
pub open spec fn run_steps(m: VmModel, s: Settings, now: u64, n: nat) -> (VmModel, StepStatus, nat)
    decreases n,
{
    if n == 0 {
        (m, StepStatus::Normal, 0)
    } else {
        let (m1, st) = spec_step(m, s, now);
        if !(st is Normal) {
            (m1, st, 1)
        } else {
            let (m2, st2, k) = run_steps(m1, s, now, (n - 1) as nat);
            (m2, st2, (k + 1) as nat)
        }
    }
}

/// A batch that ends normally took every step it was offered.
pub proof fn lemma_run_steps_normal(m: VmModel, s: Settings, now: u64, n: nat)
    ensures
        run_steps(m, s, now, n).1 is Normal ==> run_steps(m, s, now, n).2 == n,
    decreases n,
{
    if n > 0 {
        let (m1, st) = spec_step(m, s, now);
        if st is Normal {
            lemma_run_steps_normal(m1, s, now, (n - 1) as nat);
        }
    }
}

/// Batches compose: a batch of `a + b` steps is a batch of `a` followed,
/// when the first ended normally, by a batch of `b`.
pub proof fn lemma_run_steps_compose(m: VmModel, s: Settings, now: u64, a: nat, b: nat)
    ensures
        ({
            let (m1, st1, k1) = run_steps(m, s, now, a);
            if st1 is Normal {
                let (m2, st2, k2) = run_steps(m1, s, now, b);
                run_steps(m, s, now, (a + b) as nat) == (m2, st2, (k1 + k2) as nat)
            } else {
                run_steps(m, s, now, (a + b) as nat) == (m1, st1, k1)
            }
        }),
    decreases a,
{
    if a > 0 {
        let (mm, st) = spec_step(m, s, now);
        if st is Normal {
            lemma_run_steps_compose(mm, s, now, (a - 1) as nat, b);
        }
    }
}

/// What one batch reports: how many steps ran and how the last one ended.
#[derive(Clone, Copy, Debug, PartialEq, Eq, Structural)]
pub struct RunOutcome {
    pub steps: u64,
    pub status: StepStatus,
}

/// Runs up to `count` machine steps, stopping early at the first step that
/// does not complete normally.
pub fn run_steps_bounded(st: &mut State, settings: &Settings, now: u64, count: u64) -> (r:
    RunOutcome)
    requires
        old(st).inv(),
    ensures
        final(st).inv(),
        final(st)@ == run_steps(old(st)@, *settings, now, count as nat).0,
        r.status == run_steps(old(st)@, *settings, now, count as nat).1,
        r.steps == run_steps(old(st)@, *settings, now, count as nat).2,
        r.steps <= count,
{
    let ghost m0 = old(st)@;
    let ghost s = *settings;
    let mut i: u64 = 0;
    let mut status = StepStatus::Normal;
    loop
        invariant_except_break
            status is Normal,
            run_steps(m0, s, now, i as nat) == (st@, StepStatus::Normal, i as nat),
        invariant
            st.inv(),
            s == *settings,
            i <= count,
        ensures
            st.inv(),
            i <= count,
            run_steps(m0, s, now, count as nat).0 == st@,
            run_steps(m0, s, now, count as nat).1 == status,
            run_steps(m0, s, now, count as nat).2 == i,
        decreases count - i,
    {
        if i == count {
            break ;
        }
        let ghost prev = st@;
        let ghost idone = i as nat;
        let one = st.step(settings, now);
        match one {
            StepStatus::Normal => {
                proof {
                    reveal_with_fuel(run_steps, 2);
                    lemma_run_steps_compose(m0, s, now, idone, 1);
                    assert(run_steps(prev, s, now, 1) == (st@, StepStatus::Normal, 1nat));
                }
                i = i + 1;
            },
            _ => {
                proof {
                    lemma_run_steps_compose(m0, s, now, idone, (count - i) as nat);
                    assert(run_steps(prev, s, now, (count - i) as nat) == (st@, one, 1nat));
                }
                i = i + 1;
                status = one;
                break ;
            },
        }
    }
    RunOutcome { steps: i, status }
}

/// Runs chunks of [`CHUNK_STEPS`] steps back to back until the wall-clock
/// budget since `start_ms` is exhausted, a step fails to complete normally,
/// or the chunk guard is reached.  The steps taken always form whole chunks
/// except possibly the last, aborted one, and at least one whole chunk is
/// offered before the budget is first consulted.
pub fn run_timed(st: &mut State, settings: &Settings, start_ms: u64, budget: u64) -> (r:
    RunOutcome)
    requires
        old(st).inv(),
    ensures
        final(st).inv(),
        exists|n: nat|
            {
                &&& #[trigger] run_steps(old(st)@, *settings, start_ms, n).0 == final(st)@
                &&& run_steps(old(st)@, *settings, start_ms, n).1 == r.status
                &&& run_steps(old(st)@, *settings, start_ms, n).2 == r.steps
                &&& n % (CHUNK_STEPS as nat) == 0
                &&& n >= CHUNK_STEPS
            },
        r.status is Normal ==> r.steps % CHUNK_STEPS == 0 && r.steps >= CHUNK_STEPS,
{
    let ghost m0 = old(st)@;
    let ghost s = *settings;
    let mut chunks: u64 = 0;
    let mut steps: u64 = 0;
    let mut status = StepStatus::Normal;
    loop
        invariant_except_break
            status is Normal,
            steps == chunks * CHUNK_STEPS,
            run_steps(m0, s, start_ms, (chunks * CHUNK_STEPS) as nat) == (
                st@,
                StepStatus::Normal,
                steps as nat,
            ),
        invariant
            st.inv(),
            s == *settings,
            chunks <= MAX_CHUNKS_PER_TICK,
        ensures
            st.inv(),
            exists|n: nat|
                {
                    &&& #[trigger] run_steps(m0, s, start_ms, n).0 == st@
                    &&& run_steps(m0, s, start_ms, n).1 == status
                    &&& run_steps(m0, s, start_ms, n).2 == steps
                    &&& n % (CHUNK_STEPS as nat) == 0
                    &&& n >= CHUNK_STEPS
                },
            status is Normal ==> steps % CHUNK_STEPS == 0 && steps >= CHUNK_STEPS,
        decreases MAX_CHUNKS_PER_TICK - chunks,
    {
        if chunks == MAX_CHUNKS_PER_TICK {
            proof {
                let n = (chunks * CHUNK_STEPS) as nat;
                assert(run_steps(m0, s, start_ms, n).0 == st@);
                assert(n % (CHUNK_STEPS as nat) == 0);
                assert(chunks * CHUNK_STEPS >= CHUNK_STEPS) by (nonlinear_arith)
                    requires
                        chunks >= 1,
                ;
            }
            break ;
        }
        let ghost prev = st@;
        let ghost done = (chunks * CHUNK_STEPS) as nat;
        let out = run_steps_bounded(st, settings, start_ms, CHUNK_STEPS);
        proof {
            assert(chunks * CHUNK_STEPS + CHUNK_STEPS == (chunks + 1) * CHUNK_STEPS)
                by (nonlinear_arith);
            assert((chunks + 1) * CHUNK_STEPS <= MAX_CHUNKS_PER_TICK * CHUNK_STEPS)
                by (nonlinear_arith)
                requires
                    chunks + 1 <= MAX_CHUNKS_PER_TICK,
            ;
            lemma_run_steps_compose(m0, s, start_ms, done, CHUNK_STEPS as nat);
        }
        steps = steps + out.steps;
        chunks = chunks + 1;
        match out.status {
            StepStatus::Normal => {
                proof {
                    lemma_run_steps_normal(prev, s, start_ms, CHUNK_STEPS as nat);
                }
            },
            _ => {
                status = out.status;
                proof {
                    let n = (chunks * CHUNK_STEPS) as nat;
                    assert(run_steps(m0, s, start_ms, n).0 == st@);
                    assert(n % (CHUNK_STEPS as nat) == 0);
                    assert(chunks * CHUNK_STEPS >= CHUNK_STEPS) by (nonlinear_arith)
                        requires
                            chunks >= 1,
                    ;
                }
                break ;
            },
        }
        let t = now_millis();
        let elapsed: u64 = if t >= start_ms {
            t - start_ms
        } else {
            0
        };
        if elapsed > budget {
            proof {
                let n = (chunks * CHUNK_STEPS) as nat;
                assert(run_steps(m0, s, start_ms, n).0 == st@);
                assert(n % (CHUNK_STEPS as nat) == 0);
                assert(chunks * CHUNK_STEPS >= CHUNK_STEPS) by (nonlinear_arith)
                    requires
                        chunks >= 1,
                ;
            }
            break ;
        }
    }
    RunOutcome { steps, status }
}

} // verus!
