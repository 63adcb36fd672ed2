//! Events that nodes register: an event name and the script function to call.
use vstd::prelude::*;

verus! {

/// A node's handler: on the event `name`, the script function `callback` runs.
#[derive(Debug)]
pub struct CapsuleObjectEvent {
    pub name: String,
    pub callback: String,
}

impl CapsuleObjectEvent {
    pub fn new(name: &str, callback: &str) -> (r: Self)
        ensures
            r.name@ == name@,
            r.callback@ == callback@,
    {
        CapsuleObjectEvent { name: String::from_str(name), callback: String::from_str(callback) }
    }
}

} // verus!
