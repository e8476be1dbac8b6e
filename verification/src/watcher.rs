use vstd::prelude::*;
use std::sync::atomic::AtomicBool;
use std::sync::Arc;

verus! {

/// A running folder watch, which stops once its flag is raised.
pub struct FolderWatcher {
    stop_flag: Arc<AtomicBool>,
}

impl FolderWatcher {
    /// The flag that the watch polls.
    pub closed spec fn flag(&self) -> Arc<AtomicBool> {
        self.stop_flag
    }

    /// A watch that stops when `stop_flag` is raised.
    pub fn new(stop_flag: Arc<AtomicBool>) -> (r: Self)
        ensures
            r.flag() == stop_flag,
    {
        FolderWatcher { stop_flag }
    }

    /// The flag that the watch polls.
    pub fn stop_flag(&self) -> (r: &Arc<AtomicBool>)
        ensures
            *r == self.flag(),
    {
        &self.stop_flag
    }

    /// Raises the flag, so that the watch ends at its next poll. What an atomic
    /// holds is not modelled, so nothing is stated of the store.
    pub fn stop(&self) {
        self.stop_flag.store(true, std::sync::atomic::Ordering::Relaxed);
    }
}

/// Why stopping the watch was refused: none was running.
pub struct NotRunning;

/// Stops the running watch, if there is one, and forgets it.
pub fn stop_active_watch(active: &mut Option<Arc<AtomicBool>>) -> (r: Result<(), NotRunning>)
    ensures
        old(active).is_some() <==> r is Ok,
        final(active).is_none(),
{
    match active.take() {
        Some(flag) => {
            flag.store(true, std::sync::atomic::Ordering::Relaxed);
            Ok(())
        },
        None => Err(NotRunning),
    }
}

} // verus!
