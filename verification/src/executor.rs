use vstd::prelude::*;

verus! {

/// Runs the jobs that a server hands it, one per connection. The default
/// does nothing with a job: it neither runs it nor changes the executor; an
/// implementation decides where and when a job runs.
pub trait Executor: Sized {
    fn execute_mut<F>(&mut self, _job: F) where F: FnOnce() + Send + 'static
        default_ensures
            *final(self) == *old(self),
    {
    }
}

} // verus!
