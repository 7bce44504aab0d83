//! Iteration control of the WHAM fixed-point solver.
//!
//! The numerical sweep itself (the two WHAM equations over bins and
//! windows) works on doubles and runs in the front end. This module fixes
//! the decisions around that sweep: iterations are counted from one up to a
//! hard cap, the convergence test runs on every tenth iteration, the loop
//! stops at convergence or at the cap, and reaching the cap without
//! convergence is the convergence error. A solve whose test passes exactly
//! when the counter reaches the cap has converged and succeeds.

use vstd::prelude::*;

use crate::errors::WhamError;

verus! {

/// The iteration state of one solve.
pub struct SolverControl {
    /// Completed iterations.
    pub iteration: usize,
    /// The hard cap.
    pub max_iterations: usize,
    /// Did the last convergence test pass?
    pub converged: bool,
}

impl SolverControl {
    /// A fresh solve: nothing run, not converged.
    pub fn new(max_iterations: usize) -> (s: SolverControl)
        ensures
            s.iteration == 0,
            s.max_iterations == max_iterations,
            !s.converged,
    {
        SolverControl { iteration: 0, max_iterations, converged: false }
    }

    /// Whether another iteration may run: only while not converged and
    /// strictly below the cap.
    pub fn keep_running(&self) -> (r: bool)
        ensures
            r == (!self.converged && self.iteration < self.max_iterations),
    {
        !self.converged && self.iteration < self.max_iterations
    }

    /// Counts one iteration. The front end calls this exactly when
    /// `keep_running` allowed it, so the count never passes the cap, and
    /// `max_iterations - iteration` shrinks: the loop terminates.
    pub fn begin_iteration(&mut self)
        requires
            old(self).iteration < old(self).max_iterations,
        ensures
            final(self).iteration == old(self).iteration + 1,
            final(self).max_iterations == old(self).max_iterations,
            final(self).converged == old(self).converged,
    {
        self.iteration = self.iteration + 1;
    }

    /// The convergence test runs on every tenth iteration.
    pub fn is_check_iteration(&self) -> (r: bool)
        ensures
            r == (self.iteration % 10 == 0),
    {
        self.iteration % 10 == 0
    }

    /// Stores the outcome of a convergence test.
    pub fn record_convergence(&mut self, converged: bool)
        ensures
            final(self).iteration == old(self).iteration,
            final(self).max_iterations == old(self).max_iterations,
            final(self).converged == converged,
    {
        self.converged = converged;
    }

    /// The verdict after the loop stopped: reaching the cap without
    /// convergence is the convergence error; a converged solve succeeds,
    /// also when its test first passed exactly at the cap.
    pub fn finish(&self) -> (r: Result<(), WhamError>)
        ensures
            self.converged ==> r == Ok::<(), WhamError>(()),
            !self.converged && self.iteration >= self.max_iterations ==> r == Err::<
                (),
                WhamError,
            >(WhamError::NotConverged),
            !self.converged && self.iteration < self.max_iterations ==> r == Ok::<
                (),
                WhamError,
            >(()),
    {
        if !self.converged && self.iteration >= self.max_iterations {
            Err(WhamError::NotConverged)
        } else {
            Ok(())
        }
    }
}

} // verus!
