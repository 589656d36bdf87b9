//! The runtime of a build without the native shim.

use vstd::prelude::*;

use crate::error::Notice;
use crate::event::Event;

verus! {

/// Stands in for the runtime that explains denials, and explains none.
pub struct Runtime;

impl Runtime {
    /// A new runtime, and what the log should hear if enrichment is requested of it.
    pub fn new(enabled: bool) -> (ready: (Runtime, Option<Notice>))
        ensures
            ready.1 == if enabled {
                Some(Notice::NotBuilt)
            } else {
                None
            },
    {
        if enabled {
            (Runtime, Some(Notice::NotBuilt))
        } else {
            (Runtime, None)
        }
    }

    /// Lets an event pass as it is.
    pub fn process(&mut self, event: &mut Event<'_>)
        ensures
            *final(event) == *old(event),
    {
    }
}

} // verus!
