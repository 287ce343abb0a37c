//! Actuators: named callbacks that accept or refuse a value.

use vstd::prelude::*;

verus! {

/// A named actuator with its callback.
pub struct ActuatorSpec<A> {
    pub name: String,
    pub callback: A,
}

impl<A> ActuatorSpec<A> {
    /// An actuator called `name` that writes through `callback`.
    pub fn new(name: &str, callback: A) -> (res: Self)
        ensures
            res.name@ == name@,
            res.callback == callback,
    {
        ActuatorSpec { name: name.to_owned(), callback }
    }

    /// Hand `value` to the actuator; returns whether it accepted it.
    pub fn set<V>(&self, value: V) -> (accepted: bool)
        where A: Fn(V) -> bool,
        requires
            call_requires(self.callback, (value,)),
        ensures
            call_ensures(self.callback, (value,), accepted),
    {
        (self.callback)(value)
    }
}

} // verus!
