//! The interface through which addons reach the shared counter.
use vstd::prelude::*;

verus! {

/// Access to the counter that the counter addon publishes to the other addons.
pub trait AlphaApi {
    /// The value the counter holds.
    spec fn counter_value(&self) -> i32;

    /// Reads the counter.
    fn get_counter(&self) -> (v: i32)
        ensures
            v == self.counter_value(),
    ;

    /// Writes the counter.
    fn set_counter(&mut self, v: i32)
        ensures
            final(self).counter_value() == v,
    ;
}

/// The name under which the counter addon is registered, and so the name under
/// which the other addons look its interface up.
pub fn counter_addon_name() -> (s: String)
    ensures
        s@ == "simpcnt"@,
{
    String::from_str("simpcnt")
}

} // verus!
