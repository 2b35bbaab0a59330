use std::cell::{Cell, RefCell};

use attempt::engine::{exhausted_after, grow_nanos};
use attempt::{Attempt, DEFAULT_DELAY_GROWTH, DEFAULT_MAX_TRIES};

fn no_sleep(_nanos: u64) {}

#[test]
fn defaults_after_construction() {
    let p = Attempt::to(|| Ok::<u32, u32>(1));
    assert_eq!(p.delay, None);
    assert_eq!(p.delay_growth_magnitude, DEFAULT_DELAY_GROWTH);
    assert_eq!(p.delay_growth_magnitude, 1250);
    assert_eq!(p.max_tries, Some(DEFAULT_MAX_TRIES));
    assert_eq!(p.max_tries, Some(10));
}

#[test]
fn builders_set_each_field() {
    let p = Attempt::to(|| Ok::<u32, u32>(1))
        .delay(5_000)
        .delay_growth_magnitude(3000)
        .max_tries(7);
    assert_eq!(p.delay, Some(5_000));
    assert_eq!(p.delay_growth_magnitude, 3000);
    assert_eq!(p.max_tries, Some(7));
    let p = p.no_delay().no_max_tries();
    assert_eq!(p.delay, None);
    assert_eq!(p.max_tries, None);
}

#[test]
fn always_failing_invokes_exactly_n() {
    let calls = Cell::new(0u32);
    let r: Result<u32, &str> = Attempt::to(|| {
        calls.set(calls.get() + 1);
        Err("boom")
    })
    .max_tries(3)
    .run(&no_sleep);
    assert_eq!(r, Err("boom"));
    assert_eq!(calls.get(), 3);
}

#[test]
fn success_on_kth_invocation_stops_there() {
    let calls = Cell::new(0u32);
    let r: Result<u32, &str> = Attempt::to(|| {
        calls.set(calls.get() + 1);
        if calls.get() < 3 {
            Err("not yet")
        } else {
            Ok(42)
        }
    })
    .max_tries(5)
    .run(&no_sleep);
    assert_eq!(r, Ok(42));
    assert_eq!(calls.get(), 3);
}

#[test]
fn success_on_first_invocation() {
    let calls = Cell::new(0u32);
    let r: Result<&str, &str> = Attempt::to(|| {
        calls.set(calls.get() + 1);
        Ok("done")
    })
    .run(&no_sleep);
    assert_eq!(r, Ok("done"));
    assert_eq!(calls.get(), 1);
}

#[test]
fn defaults_fail_ten_times_with_zero_wait() {
    let calls = Cell::new(0u32);
    let sleeps = Cell::new(0u32);
    let count_sleep = |_nanos: u64| sleeps.set(sleeps.get() + 1);
    let r: Result<u32, &str> = Attempt::to(|| {
        calls.set(calls.get() + 1);
        Err("x")
    })
    .run(&count_sleep);
    assert_eq!(r, Err("x"));
    assert_eq!(calls.get(), 10);
    assert_eq!(sleeps.get(), 0);
}

#[test]
fn single_try_fails_immediately_without_wait() {
    let calls = Cell::new(0u32);
    let sleeps = Cell::new(0u32);
    let count_sleep = |_nanos: u64| sleeps.set(sleeps.get() + 1);
    let r: Result<u32, &str> = Attempt::to(|| {
        calls.set(calls.get() + 1);
        Err("x")
    })
    .delay(1_000_000)
    .max_tries(1)
    .run(&count_sleep);
    assert_eq!(r, Err("x"));
    assert_eq!(calls.get(), 1);
    assert_eq!(sleeps.get(), 0);
}

#[test]
fn wait_schedule_doubles() {
    let waits: RefCell<Vec<u64>> = RefCell::new(Vec::new());
    let record = |nanos: u64| waits.borrow_mut().push(nanos);
    let r: Result<u32, &str> = Attempt::to(|| Err("x"))
        .delay(1_000)
        .delay_growth_magnitude(2000)
        .max_tries(4)
        .run(&record);
    assert_eq!(r, Err("x"));
    assert_eq!(*waits.borrow(), vec![1_000, 2_000, 4_000]);
}

#[test]
fn wait_schedule_default_growth() {
    let waits: RefCell<Vec<u64>> = RefCell::new(Vec::new());
    let record = |nanos: u64| waits.borrow_mut().push(nanos);
    let r: Result<u32, &str> = Attempt::to(|| Err("x"))
        .delay(1_000)
        .max_tries(3)
        .run(&record);
    assert_eq!(r, Err("x"));
    assert_eq!(*waits.borrow(), vec![1_000, 1_250]);
}

#[test]
fn no_delay_means_no_waits() {
    let sleeps = Cell::new(0u32);
    let count_sleep = |_nanos: u64| sleeps.set(sleeps.get() + 1);
    let r: Result<u32, &str> = Attempt::to(|| Err("x"))
        .delay(9)
        .no_delay()
        .delay_growth_magnitude(5000)
        .max_tries(6)
        .run(&count_sleep);
    assert_eq!(r, Err("x"));
    assert_eq!(sleeps.get(), 0);
}

#[test]
fn wait_happens_once_before_second_try() {
    let calls = Cell::new(0u32);
    let waits: RefCell<Vec<u64>> = RefCell::new(Vec::new());
    let record = |nanos: u64| waits.borrow_mut().push(nanos);
    let r: Result<u32, &str> = Attempt::to(|| {
        calls.set(calls.get() + 1);
        if calls.get() < 2 {
            Err("not yet")
        } else {
            Ok(7)
        }
    })
    .delay(500)
    .max_tries(10)
    .run(&record);
    assert_eq!(r, Ok(7));
    assert_eq!(calls.get(), 2);
    assert_eq!(*waits.borrow(), vec![500]);
}

#[test]
fn unbounded_decisions_reach_eventual_success() {
    // The uncapped loop itself cannot be a verified function, so a caller
    // drives it with the engine's decision functions; this mirrors that.
    let calls = Cell::new(0u32);
    let func = || {
        calls.set(calls.get() + 1);
        if calls.get() < 3 {
            Err("not yet")
        } else {
            Ok(42u32)
        }
    };
    let p = Attempt::to(func).no_max_tries();
    assert_eq!(p.max_tries, None);
    let mut iteration: usize = 0;
    let result: u32 = loop {
        match (p.func)() {
            Ok(v) => break v,
            Err(_) => {
                assert!(!exhausted_after(p.max_tries, iteration));
                iteration += 1;
            }
        }
    };
    assert_eq!(result, 42);
    assert_eq!(calls.get(), 3);
}

#[test]
fn grow_nanos_scales_and_truncates() {
    assert_eq!(grow_nanos(1_000, 1250), 1_250);
    assert_eq!(grow_nanos(3, 1250), 3);
    assert_eq!(grow_nanos(0, 5000), 0);
    assert_eq!(grow_nanos(1_000, 1000), 1_000);
    assert_eq!(grow_nanos(1_000, 500), 500);
}

#[test]
fn grow_nanos_saturates() {
    assert_eq!(grow_nanos(u64::MAX, 2000), u64::MAX);
    assert_eq!(grow_nanos(u64::MAX, 1000), u64::MAX);
}

#[test]
fn exhaustion_decisions() {
    assert!(exhausted_after(Some(1), 0));
    assert!(!exhausted_after(Some(3), 0));
    assert!(!exhausted_after(Some(3), 1));
    assert!(exhausted_after(Some(3), 2));
    assert!(exhausted_after(Some(0), 0));
    assert!(!exhausted_after(None, 0));
    assert!(!exhausted_after(None, usize::MAX));
}
