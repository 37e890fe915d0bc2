//! Screen sizes and the breakpoints that switch the layout.
use vstd::prelude::*;

verus! {

/// The sizes of screen the layout tells apart, from small up.
#[derive(Debug, Clone, Copy, PartialEq, Eq, Structural)]
pub enum ViewPort {
    Small,
    Medium,
    Large,
}

/// The place of a size in the order from small up.
pub open spec fn rank(v: ViewPort) -> int {
    match v {
        ViewPort::Small => 0,
        ViewPort::Medium => 1,
        ViewPort::Large => 2,
    }
}

impl ViewPort {
    pub fn rank(self) -> (r: u8)
        ensures
            r == rank(self),
    {
        match self {
            ViewPort::Small => 0,
            ViewPort::Medium => 1,
            ViewPort::Large => 2,
        }
    }
}

/// Whether the screen is past the breakpoint `viewport`: larger than it,
/// or, with `down`, not larger than it.
pub fn use_breakpoint(current: ViewPort, viewport: ViewPort, down: bool) -> (r: bool)
    ensures
        r == ((rank(current) > rank(viewport)) != down),
{
    (current.rank() > viewport.rank()) ^ down
}

/// The grid column that a form's inputs take: beside their labels on
/// screens larger than small, under them otherwise.
pub fn input_column(current: ViewPort) -> (r: &'static str)
    ensures
        r@ == (if rank(current) > rank(ViewPort::Small) { "2"@ } else { "1"@ }),
{
    if current.rank() > ViewPort::Small.rank() {
        "2"
    } else {
        "1"
    }
}

} // verus!
