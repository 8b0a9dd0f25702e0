//! Wall-clock representation: seconds and nanoseconds, under the
//! protocol's traditional type name.

use vstd::prelude::*;

verus! {

/// A point in time: whole seconds and the nanoseconds into the next
/// second, each 32 bits wide.
#[allow(non_camel_case_types)]
#[derive(Debug, PartialEq, Eq, Copy, Clone, Structural)]
pub struct csp_timestamp_t {
    /// Whole seconds.
    pub tv_sec: u32,
    /// Nanoseconds into the next second, below one billion.
    pub tv_nsec: u32,
}

impl csp_timestamp_t {
    /// The nanosecond part names less than one whole second.
    pub open spec fn wf(&self) -> bool {
        self.tv_nsec < 1000000000
    }
}

/// The timestamp a millisecond count denotes.
pub fn timestamp_from_ms(ms: u32) -> (r: csp_timestamp_t)
    ensures
        r.tv_sec == ms / 1000,
        r.tv_nsec == (ms % 1000) * 1000000,
        r.wf(),
        r.tv_sec * 1000000000 + r.tv_nsec == ms * 1000000,
{
    let secs = ms / 1000;
    let rest = ms % 1000;
    proof {
        assert(secs * 1000000000 + rest * 1000000 == ms * 1000000) by (nonlinear_arith)
            requires
                secs == ms / 1000,
                rest == ms % 1000,
        ;
        assert(rest * 1000000 < 1000000000) by (nonlinear_arith)
            requires
                rest < 1000,
        ;
    }
    csp_timestamp_t { tv_sec: secs, tv_nsec: rest * 1000000 }
}

} // verus!
