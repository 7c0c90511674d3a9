//! Time source.

use vstd::prelude::*;

verus! {

/// Time since an instant on a microsecond clock that wraps around.
pub open spec fn elapsed_us(now: u64, since: u64) -> int {
    (now - since) % 0x1_0000_0000_0000_0000
}

/// Minimal time source. The application provides an implementation.
pub trait Clock {
    /// Current time in microseconds since some arbitrary epoch.
    fn now_us(&self) -> u64;
}

} // verus!
