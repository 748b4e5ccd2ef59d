use std::time::{Duration, Instant};
use vstd::prelude::*;

verus! {

#[verifier::external_type_specification]
#[verifier::external_body]
pub struct ExInstant(Instant);

/// Relies on `std::time::Instant::now`: it reads the monotonic clock.
#[verifier::external_body]
fn clock_now() -> (r: Instant) {
    Instant::now()
}

/// Relies on `std::time::Instant::elapsed`: the time from `start` to now.
#[verifier::external_body]
fn time_since(start: &Instant) -> (r: Duration) {
    start.elapsed()
}

/// Runs `retries` trials on `state`. Each trial calls `setup`, then times one
/// call of `f`, then calls `teardown`; only the call of `f` is timed. The
/// result holds the durations in trial order.
pub fn run_bench<State>(
    retries: usize,
    f: impl Fn(&mut State),
    setup: impl Fn(&mut State),
    teardown: impl Fn(&mut State),
    state: State,
) -> (res: Vec<Duration>)
    requires
        forall|s: &mut State| f.requires((s,)),
        forall|s: &mut State| setup.requires((s,)),
        forall|s: &mut State| teardown.requires((s,)),
    ensures
        res@.len() == retries,
{
    let mut state = state;
    let mut res: Vec<Duration> = Vec::new();
    let mut i: usize = 0;
    while i < retries
        invariant
            i <= retries,
            res@.len() == i,
            forall|s: &mut State| f.requires((s,)),
            forall|s: &mut State| setup.requires((s,)),
            forall|s: &mut State| teardown.requires((s,)),
        decreases retries - i,
    {
        setup(&mut state);
        let before = clock_now();
        f(&mut state);
        res.push(time_since(&before));
        teardown(&mut state);
        i = i + 1;
    }
    res
}

} // verus!
