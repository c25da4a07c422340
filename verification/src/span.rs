//! Lengths of time.

use vstd::prelude::*;

verus! {

/// A length of time, or a moment as the time since some start.
#[derive(Debug, Clone, Copy, PartialEq, Eq, Structural)]
pub struct Span {
    pub secs: u64,
    /// The part below a second; less than a thousand million.
    pub nanos: u32,
}

impl Span {
    pub open spec fn wf(self) -> bool {
        self.nanos < 1_000_000_000
    }

    /// All of it in nanoseconds.
    pub open spec fn total(self) -> int {
        self.secs * 1_000_000_000 + self.nanos
    }
}

} // verus!
