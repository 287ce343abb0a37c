//! Tick: one snapshot of all sensor readings.

use vstd::prelude::*;
use crate::sensor::SensorSpec;
use crate::text::same_text;

verus! {

/// A single tick: its index, its timestamp and every sensor's reading.
#[derive(Debug, Clone)]
pub struct Tick<V> {
    /// Monotonic tick index.
    pub index: u64,
    /// Timestamp, in seconds since the engine started.
    pub timestamp: V,
    /// Sensor readings as (name, value), in sensor order.
    pub data: Vec<(String, V)>,
}

/// The first reading named `name` in `data`, if any.
pub open spec fn reading_of<V>(data: Seq<(String, V)>, name: Seq<char>) -> Option<V>
    decreases data.len(),
{
    if data.len() == 0 {
        None
    } else if data[0].0@ == name {
        Some(data[0].1)
    } else {
        reading_of(data.drop_first(), name)
    }
}

/// A lookup by name gives the value of the first reading whose name equals
/// the key exactly, and nothing when no reading has that name.
pub proof fn lemma_reading_of_exact<V>(data: Seq<(String, V)>, name: Seq<char>)
    ensures
        reading_of(data, name) is None <==> forall|i: int| 0 <= i < data.len() ==> (#[trigger] data[i]).0@ != name,
        reading_of(data, name) matches Some(v) ==> exists|i: int|
            {
                &&& 0 <= i < data.len()
                &&& (#[trigger] data[i]).0@ == name
                &&& data[i].1 == v
                &&& forall|j: int| 0 <= j < i ==> data[j].0@ != name
            },
    decreases data.len(),
{
    if data.len() > 0 {
        let rest = data.drop_first();
        lemma_reading_of_exact(rest, name);
        if data[0].0@ != name {
            assert forall|i: int| 0 <= i < rest.len() implies rest[i] == data[i + 1] by {}
            if reading_of(rest, name) is None {
                assert forall|i: int| 0 <= i < data.len() implies (#[trigger] data[i]).0@ != name by {
                    if i > 0 {
                        assert(data[i] == rest[i - 1]);
                    }
                }
            } else {
                let v = reading_of(rest, name)->0;
                let i = choose|i: int| {
                    &&& 0 <= i < rest.len()
                    &&& (#[trigger] rest[i]).0@ == name
                    &&& rest[i].1 == v
                    &&& forall|j: int| 0 <= j < i ==> rest[j].0@ != name
                };
                assert(data[i + 1] == rest[i]);
                assert forall|j: int| 0 <= j < i + 1 implies data[j].0@ != name by {
                    if j > 0 {
                        assert(data[j] == rest[j - 1]);
                    }
                }
                assert(!(forall|k: int| 0 <= k < data.len() ==> (#[trigger] data[k]).0@ != name)) by {
                    assert(data[i + 1].0@ == name);
                }
            }
        }
    }
}

/// Every sensor in `sensors` may be read.
pub open spec fn sensors_readable<V, S: Fn() -> V>(sensors: Seq<SensorSpec<S>>) -> bool {
    forall|i: int| 0 <= i < sensors.len() ==> call_requires(#[trigger] sensors[i].callback, ())
}

/// `data` holds one reading per sensor, in order, each a value its sensor may return.
pub open spec fn readings_from<V, S: Fn() -> V>(data: Seq<(String, V)>, sensors: Seq<SensorSpec<S>>) -> bool {
    &&& data.len() == sensors.len()
    &&& forall|i: int|
        0 <= i < data.len() ==> {
            &&& (#[trigger] data[i]).0@ == sensors[i].name@
            &&& call_ensures(sensors[i].callback, (), data[i].1)
        }
}

impl<V> Tick<V> {
    /// Create a tick by reading every sensor once, in order.
    pub fn from_sensors<S: Fn() -> V>(index: u64, timestamp: V, sensors: &[SensorSpec<S>]) -> (res: Self)
        requires
            sensors_readable(sensors@),
        ensures
            res.index == index,
            res.timestamp == timestamp,
            readings_from(res.data@, sensors@),
    {
        let mut data: Vec<(String, V)> = Vec::new();
        let mut i: usize = 0;
        while i < sensors.len()
            invariant
                sensors_readable(sensors@),
                i <= sensors@.len(),
                data@.len() == i,
                forall|j: int|
                    0 <= j < i ==> {
                        &&& (#[trigger] data@[j]).0@ == sensors@[j].name@
                        &&& call_ensures(sensors@[j].callback, (), data@[j].1)
                    },
            decreases sensors@.len() - i,
        {
            let val = (sensors[i].callback)();
            let name = sensors[i].name.clone();
            data.push((name, val));
            i = i + 1;
        }
        Tick { index, timestamp, data }
    }
}

impl<V> Tick<V> {
    /// The sensor names of the readings, in order.
    pub fn sensor_names(&self) -> (res: Vec<&str>)
        ensures
            res@.len() == self.data@.len(),
            forall|i: int| 0 <= i < res@.len() ==> (#[trigger] res@[i])@ == self.data@[i].0@,
    {
        let mut names: Vec<&str> = Vec::new();
        let mut i: usize = 0;
        while i < self.data.len()
            invariant
                i <= self.data@.len(),
                names@.len() == i,
                forall|j: int| 0 <= j < i ==> (#[trigger] names@[j])@ == self.data@[j].0@,
            decreases self.data@.len() - i,
        {
            names.push(self.data[i].0.as_str());
            i = i + 1;
        }
        names
    }
}

impl<V: Copy> Tick<V> {
    /// The reading of the first sensor called `sensor_name`, if any.
    pub fn get(&self, sensor_name: &str) -> (res: Option<V>)
        ensures
            res == reading_of(self.data@, sensor_name@),
            res is None <==> forall|i: int|
                0 <= i < self.data@.len() ==> (#[trigger] self.data@[i]).0@ != sensor_name@,
            res matches Some(v) ==> exists|i: int|
                {
                    &&& 0 <= i < self.data@.len()
                    &&& (#[trigger] self.data@[i]).0@ == sensor_name@
                    &&& self.data@[i].1 == v
                    &&& forall|j: int| 0 <= j < i ==> self.data@[j].0@ != sensor_name@
                },
    {
        proof {
            lemma_reading_of_exact(self.data@, sensor_name@);
        }
        let mut i: usize = 0;
        assert(self.data@.skip(0) =~= self.data@);
        while i < self.data.len()
            invariant
                i <= self.data@.len(),
                reading_of(self.data@, sensor_name@) == reading_of(self.data@.skip(i as int), sensor_name@),
                forall|j: int| 0 <= j < i ==> self.data@[j].0@ != sensor_name@,
            decreases self.data@.len() - i,
        {
            proof {
                assert(self.data@.skip(i as int).drop_first() =~= self.data@.skip(i + 1));
            }
            if same_text(self.data[i].0.as_str(), sensor_name) {
                proof {
                    assert(self.data@[i as int].0@ == sensor_name@);
                }
                return Some(self.data[i].1);
            }
            i = i + 1;
        }
        assert(self.data@.skip(i as int) =~= Seq::<(String, V)>::empty());
        None
    }
}

} // verus!
