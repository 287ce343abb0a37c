//! Sensors: named callbacks that produce a reading.

use vstd::prelude::*;

verus! {

/// A named sensor with its callback.
pub struct SensorSpec<S> {
    pub name: String,
    pub callback: S,
}

impl<S> SensorSpec<S> {
    /// A sensor called `name` that reads through `callback`.
    pub fn new(name: &str, callback: S) -> (res: Self)
        ensures
            res.name@ == name@,
            res.callback == callback,
    {
        SensorSpec { name: name.to_owned(), callback }
    }
}

} // verus!
