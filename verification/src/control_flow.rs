//! Whether something that runs again and again wants to go on.

use vstd::prelude::*;

verus! {

/// What a daemon answers at the end of a run.
#[derive(Debug, Clone, Copy, PartialEq, Eq, Structural)]
pub enum ControlFlow {
    /// Run again when the next interval is over.
    Continue,
    /// Never run again.
    Break,
}

impl ControlFlow {
    /// Run again when the next interval is over.
    pub const CONTINUE: ControlFlow = ControlFlow::Continue;

    /// Never run again.
    pub const BREAK: ControlFlow = ControlFlow::Break;

    /// Whether this is [`ControlFlow::Break`].
    pub fn is_break(&self) -> (r: bool)
        ensures
            r == (*self is Break),
    {
        match self {
            ControlFlow::Break => true,
            ControlFlow::Continue => false,
        }
    }
}

/// Of the two answers just one breaks off, and the constants are named after what they are.
pub proof fn law_only_break_breaks(flow: ControlFlow, r: bool)
    requires
        call_ensures(ControlFlow::is_break, (&flow,), r),
    ensures
        r <==> flow == ControlFlow::Break,
        ControlFlow::BREAK == ControlFlow::Break,
        ControlFlow::CONTINUE == ControlFlow::Continue,
{
}

} // verus!
