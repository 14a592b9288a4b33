//! Loop bookkeeping for a driver that executes loop bodies: tracks the
//! nesting depth and the pending break and continue signals.

use vstd::prelude::*;

verus! {

/// Tracks loop nesting and break/continue signals for a loop driver.
pub struct LoopExecutor {
    /// How many loops are currently open.
    pub loop_depth: usize,
    /// Whether the innermost loop should stop.
    pub should_break: bool,
    /// Whether the rest of the current iteration should be skipped.
    pub should_continue: bool,
}

impl LoopExecutor {
    pub fn new() -> (r: Self)
        ensures
            r.loop_depth == 0,
            !r.should_break,
            !r.should_continue,
    {
        LoopExecutor { loop_depth: 0, should_break: false, should_continue: false }
    }

    /// Opens one loop level.
    pub fn enter_loop(&mut self)
        requires
            old(self).loop_depth < usize::MAX,
        ensures
            final(self).loop_depth == old(self).loop_depth + 1,
            final(self).should_break == old(self).should_break,
            final(self).should_continue == old(self).should_continue,
    {
        self.loop_depth = self.loop_depth + 1;
    }

    /// Closes one loop level.
    pub fn exit_loop(&mut self)
        requires
            old(self).loop_depth > 0,
        ensures
            final(self).loop_depth == old(self).loop_depth - 1,
            final(self).should_break == old(self).should_break,
            final(self).should_continue == old(self).should_continue,
    {
        self.loop_depth = self.loop_depth - 1;
    }

    /// Signals that the current loop should stop; outside a loop the
    /// signal is ignored.
    pub fn signal_break(&mut self)
        ensures
            final(self).should_break == (old(self).loop_depth > 0 || old(self).should_break),
            final(self).loop_depth == old(self).loop_depth,
            final(self).should_continue == old(self).should_continue,
    {
        if self.loop_depth > 0 {
            self.should_break = true;
        }
    }

    /// Signals that the rest of the current iteration should be skipped;
    /// outside a loop the signal is ignored.
    pub fn signal_continue(&mut self)
        ensures
            final(self).should_continue == (old(self).loop_depth > 0 || old(
                self,
            ).should_continue),
            final(self).loop_depth == old(self).loop_depth,
            final(self).should_break == old(self).should_break,
    {
        if self.loop_depth > 0 {
            self.should_continue = true;
        }
    }

    /// Whether the rest of this iteration should be skipped.
    pub fn should_skip_iteration(&self) -> (r: bool)
        ensures
            r == self.should_continue,
    {
        self.should_continue
    }

    /// Whether execution is currently inside a loop.
    pub fn is_in_loop(&self) -> (r: bool)
        ensures
            r == (self.loop_depth > 0),
    {
        self.loop_depth > 0
    }
}

} // verus!
