//! Retrying fallible operations, with a verified retry engine.
//!
//! An [`Attempt`] holds a zero-argument fallible operation together with a
//! retry configuration: an optional delay between attempts (in nanoseconds),
//! a growth magnitude applied to that delay after every failed attempt, and
//! an optional cap on the number of attempts. The bounded execution loop is
//! verified here against the model in [`engine`].

pub mod engine;

use vstd::prelude::*;

verus! {

/// The default magnitude by which the delay between tries increases,
/// in thousandths (1250 means each delay is 1.25 times the previous one).
pub const DEFAULT_DELAY_GROWTH: u32 = 1250;

/// The default cap on number of tries.
pub const DEFAULT_MAX_TRIES: usize = 10;

/// A retry policy: a fallible operation plus the configuration that governs
/// how often it is retried and how long the engine waits in between.
pub struct Attempt<F> {
    /// The operation that will be run and retried if necessary.
    pub func: F,
    /// The interval of time between attempts, in nanoseconds.
    ///
    /// `None` means no wait between attempts.
    pub delay: Option<u64>,
    /// The magnitude of growth, in thousandths, by which `delay` is
    /// multiplied after each failed attempt.
    pub delay_growth_magnitude: u32,
    /// The maximum number of tries before the last failure is surfaced.
    ///
    /// `None` means the operation is retried until it succeeds.
    pub max_tries: Option<usize>,
}

impl<F> Attempt<F> {
    /// Constructs a new [`Attempt`] with the default configuration:
    /// no delay between attempts, a growth magnitude of 1250 (a 25%
    /// increase per attempt) and a cap of 10 tries.
    pub fn to(func: F) -> (r: Attempt<F>)
        ensures
            r.func == func,
            r.delay is None,
            r.delay_growth_magnitude == DEFAULT_DELAY_GROWTH,
            r.max_tries == Some(DEFAULT_MAX_TRIES),
    {
        Attempt {
            func,
            delay: None,
            delay_growth_magnitude: DEFAULT_DELAY_GROWTH,
            max_tries: Some(DEFAULT_MAX_TRIES),
        }
    }

    /// Removes the cap on the number of tries: the operation is then
    /// retried until it succeeds.
    pub fn no_max_tries(self) -> (r: Attempt<F>)
        ensures
            r.func == self.func,
            r.delay == self.delay,
            r.delay_growth_magnitude == self.delay_growth_magnitude,
            r.max_tries is None,
    {
        Attempt {
            func: self.func,
            delay: self.delay,
            delay_growth_magnitude: self.delay_growth_magnitude,
            max_tries: None,
        }
    }

    /// Caps the number of tries at `max_tries`, which must be at least 1.
    pub fn max_tries(self, max_tries: usize) -> (r: Attempt<F>)
        requires
            max_tries > 0,
        ensures
            r.func == self.func,
            r.delay == self.delay,
            r.delay_growth_magnitude == self.delay_growth_magnitude,
            r.max_tries == Some(max_tries),
    {
        Attempt {
            func: self.func,
            delay: self.delay,
            delay_growth_magnitude: self.delay_growth_magnitude,
            max_tries: Some(max_tries),
        }
    }

    /// Removes the delay between attempts.
    pub fn no_delay(self) -> (r: Attempt<F>)
        ensures
            r.func == self.func,
            r.delay is None,
            r.delay_growth_magnitude == self.delay_growth_magnitude,
            r.max_tries == self.max_tries,
    {
        Attempt {
            func: self.func,
            delay: None,
            delay_growth_magnitude: self.delay_growth_magnitude,
            max_tries: self.max_tries,
        }
    }

    /// Sets the delay between attempts, in nanoseconds.
    pub fn delay(self, delay: u64) -> (r: Attempt<F>)
        ensures
            r.func == self.func,
            r.delay == Some(delay),
            r.delay_growth_magnitude == self.delay_growth_magnitude,
            r.max_tries == self.max_tries,
    {
        Attempt {
            func: self.func,
            delay: Some(delay),
            delay_growth_magnitude: self.delay_growth_magnitude,
            max_tries: self.max_tries,
        }
    }

    /// Sets the magnitude, in thousandths, by which the delay is multiplied
    /// after each failed attempt. With a magnitude of 2000 and a delay of
    /// one second, the engine waits one second after the first failure, two
    /// seconds after the second, and so on. A magnitude below 1000 shrinks
    /// the delay instead; that degenerate choice is left to the caller.
    pub fn delay_growth_magnitude(self, magnitude: u32) -> (r: Attempt<F>)
        ensures
            r.func == self.func,
            r.delay == self.delay,
            r.delay_growth_magnitude == magnitude,
            r.max_tries == self.max_tries,
    {
        Attempt {
            func: self.func,
            delay: self.delay,
            delay_growth_magnitude: magnitude,
            max_tries: self.max_tries,
        }
    }

    /// Runs the operation repeatedly until it returns `Ok` or the cap on
    /// tries is reached, and surfaces the last outcome unchanged. After each
    /// failure that leaves budget, if a delay is configured, `sleep` is
    /// called with the current delay in nanoseconds and the delay is then
    /// grown by the configured magnitude.
    ///
    /// The outcomes observed form one halting run of the engine model: see
    /// [`engine::run_trace`] and the laws beside it for what that pins down.
    ///
    /// An uncapped policy may loop forever, which no terminating function
    /// can do, so this entry requires a cap; an uncapped caller drives the
    /// engine step by step through [`engine::exhausted_after`] and
    /// [`engine::grow_nanos`] instead.
    pub fn run<T, E, S>(self, sleep: &S) -> (r: Result<T, E>) where
        F: Fn() -> Result<T, E>,
        S: Fn(u64),
        requires
            self.max_tries matches Some(n) && n >= 1,
            call_requires(self.func, ()),
            forall|d: u64| #[trigger] call_requires(*sleep, (d,)),
        ensures
            call_ensures(self.func, (), r),
            exists|outs: Seq<Result<T, E>>|
                #[trigger] engine::run_trace(self.func, self.max_tries, outs, r),
    {
        let Attempt { func, delay, delay_growth_magnitude, max_tries } = self;
        let mut current_delay: Option<u64> = delay;
        let mut remaining: usize = match max_tries {
            Some(n) => n,
            None => 1,
        };
        proof {
            assert(max_tries == Some(remaining));
        }
        let ghost n0: usize = remaining;
        let ghost mut outs: Seq<Result<T, E>> = Seq::empty();
        loop
            invariant
                1 <= remaining <= n0,
                max_tries == Some(n0),
                func == self.func,
                max_tries == self.max_tries,
                call_requires(func, ()),
                forall|d: u64| #[trigger] call_requires(*sleep, (d,)),
                outs.len() == n0 - remaining,
                forall|i: int| 0 <= i < outs.len() ==> (#[trigger] outs[i]) is Err,
                forall|i: int| 0 <= i < outs.len() ==> call_ensures(func, (), #[trigger] outs[i]),
            decreases remaining,
        {
            let res = func();
            proof {
                outs = outs.push(res);
                assert forall|i: int| 0 <= i < outs.len() - 1 implies !engine::stops_after(
                    max_tries,
                    i,
                ) by {
                    assert(i + 1 < n0);
                }
            }
            match res {
                Ok(v) => {
                    proof {
                        engine::lemma_run_characterization(max_tries, outs);
                        assert(engine::run_trace(func, max_tries, outs, res));
                    }
                    return Ok(v);
                },
                Err(e) => {
                    if remaining == 1 {
                        proof {
                            assert(engine::stops_after(max_tries, outs.len() - 1));
                            engine::lemma_run_characterization(max_tries, outs);
                            assert(engine::run_trace(func, max_tries, outs, res));
                        }
                        return Err(e);
                    }
                    remaining = remaining - 1;
                    if let Some(d) = current_delay {
                        sleep(d);
                        current_delay = Some(engine::grow_nanos(d, delay_growth_magnitude));
                    }
                },
            }
        }
    }
}

} // verus!
