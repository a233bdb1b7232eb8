//! Names and sizes of the runtime that the simulation is booted on.

use crate::text::{decimal, decimal_digits, join};
use vstd::prelude::*;

verus! {

/// How many worker threads a simulation for tests and development gets.
pub const TEST_SERVER_WORKERS: usize = 2;

/// What the names of its worker threads start with.
pub const TEST_SERVER_THREAD_PREFIX: &'static str = "tokio-sim-bridge";

/// The name of the worker thread that was started as number `id`, from zero.
pub fn worker_name(prefix: &str, id: usize) -> (name: String)
    ensures
        name@ == prefix@ + "-"@ + decimal_digits(id as nat),
{
    let head = join(prefix, "-");
    let digits = decimal(id as u64);
    join(head.as_str(), digits.as_str())
}

} // verus!
