//! Termination flag shared between a signal handler and an event loop.

use std::sync::atomic::AtomicBool;
use std::sync::atomic::Ordering;
use vstd::prelude::*;

verus! {

/// Reads the termination flag with acquire ordering.
///
/// The flag starts out `false` and is raised, with release ordering, by the
/// handler of SIGINT and SIGTERM only; an event loop calls this once per
/// iteration. What it returns depends on signals delivered to the process,
/// so nothing is promised of the result.
pub fn quit(flag: &AtomicBool) -> bool {
    flag.load(Ordering::Acquire)
}

} // verus!
