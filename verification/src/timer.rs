//! A named timer for the steps of the tools.

use vstd::prelude::*;

use std::time::{Duration, Instant};

verus! {

/// `std::time::Instant`, a point in time of the machine's monotonic clock.
#[verifier::external_type_specification]
#[verifier::external_body]
pub struct ExInstant(Instant);

/// `Instant::now`: the current point in time; nothing is known of it.
#[verifier::external_body]
fn instant_now() -> Instant {
    Instant::now()
}

/// `Instant::elapsed`: the time since `start`; nothing is known of it.
#[verifier::external_body]
fn elapsed_since(start: &Instant) -> Duration {
    start.elapsed()
}

/// `Duration::as_millis`: the whole milliseconds of a span; nothing more is said
/// of them here.
#[verifier::external_body]
fn whole_millis(span: &Duration) -> u128 {
    span.as_millis()
}

/// A timer with a name, started when it is made.
pub struct ElapsedTimer {
    name: String,
    start: Instant,
}

impl ElapsedTimer {
    /// The name of the timer.
    pub closed spec fn name_view(&self) -> Seq<char> {
        self.name@
    }

    /// Starts a timer with the given name.
    pub fn new(name: &str) -> (timer: Self)
        ensures
            timer.name_view() == name@,
    {
        ElapsedTimer { name: String::from_str(name), start: instant_now() }
    }

    /// The name of the timer.
    pub fn name(&self) -> (name: &str)
        ensures
            name@ == self.name_view(),
    {
        self.name.as_str()
    }

    /// The whole milliseconds since the timer started. The value comes from the
    /// machine's clock, so no clause states it.
    pub fn elapsed_millis(&self) -> u128 {
        whole_millis(&elapsed_since(&self.start))
    }
}

} // verus!
