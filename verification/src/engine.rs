//! The engine: sensors, actuators, alarm rules and the tick history.

use vstd::prelude::*;
use crate::actuator::ActuatorSpec;
use crate::alarm::{AlarmRule, AlarmState, alarm_fired, alarm_step, cooldown_fits, lemma_fires_iff_activated};
use crate::history::{HistoryBuffer, pushed, last_n};
use crate::protocol::{ProtocolHandler, handled, parse_spec, ready_for};
use crate::sensor::SensorSpec;
use crate::text::same_text;
use crate::tick::{Tick, readings_from, sensors_readable};

verus! {

/// Capacity the builder uses when none (or zero) was given.
pub const DEFAULT_HISTORY_CAPACITY: usize = 100;

/// `after` is `before` evaluated at `tick` against readings `data`: the
/// condition returned some outcome and the state machine took its step.
pub open spec fn alarm_evaluated<V, C: Fn(&[(String, V)]) -> bool>(
    before: AlarmRule<C>,
    after: AlarmRule<C>,
    data: Seq<(String, V)>,
    tick: u64,
) -> bool {
    &&& after.name == before.name
    &&& after.condition == before.condition
    &&& after.cooldown_ticks == before.cooldown_ticks
    &&& exists|d: &[(String, V)], triggered: bool|
        {
            &&& d@ == data
            &&& call_ensures(before.condition, (d,), triggered)
            &&& after.state == alarm_step(before.state, triggered, tick, before.cooldown_ticks).0
        }
    &&& after.last_fired_tick == (if alarm_fired(before.state, after.state) {
        tick
    } else {
        before.last_fired_tick
    })
}

/// Names of the alarms, among the first `n`, that fired between `before` and `after`, in order.
pub open spec fn fired_names<C>(before: Seq<AlarmRule<C>>, after: Seq<AlarmRule<C>>, n: int) -> Seq<Seq<char>>
    decreases n,
{
    if n <= 0 {
        Seq::empty()
    } else {
        let prev = fired_names(before, after, n - 1);
        if alarm_fired(before[n - 1].state, after[n - 1].state) {
            prev.push(after[n - 1].name@)
        } else {
            prev
        }
    }
}

/// `fired_names` looks only at the first `n` alarms.
proof fn lemma_fired_names_prefix<C>(
    before: Seq<AlarmRule<C>>,
    a1: Seq<AlarmRule<C>>,
    a2: Seq<AlarmRule<C>>,
    n: int,
)
    requires
        forall|j: int| 0 <= j < n ==> a1[j] == a2[j],
    ensures
        fired_names(before, a1, n) == fired_names(before, a2, n),
    decreases n,
{
    if n > 0 {
        lemma_fired_names_prefix(before, a1, a2, n - 1);
    }
}

/// `idx` lists, in increasing order, exactly the positions among the first
/// `n` alarms whose alarm fired between `before` and `after`.
pub open spec fn picks_fired<C>(before: Seq<AlarmRule<C>>, after: Seq<AlarmRule<C>>, idx: Seq<int>, n: int) -> bool {
    &&& forall|k: int|
        0 <= k < idx.len() ==> 0 <= #[trigger] idx[k] < n && alarm_fired(before[idx[k]].state, after[idx[k]].state)
    &&& forall|k: int, l: int| 0 <= k < l < idx.len() ==> idx[k] < idx[l]
    &&& forall|i: int|
        0 <= i < n && alarm_fired(#[trigger] before[i].state, after[i].state) ==> exists|k: int|
            0 <= k < idx.len() && idx[k] == i
}

/// The names `fired_names` gives are those of the alarms that fired, each
/// once, in alarm order.
proof fn lemma_fired_names_picks<C>(before: Seq<AlarmRule<C>>, after: Seq<AlarmRule<C>>, n: int) -> (idx: Seq<int>)
    requires
        0 <= n <= before.len(),
        n <= after.len(),
    ensures
        picks_fired(before, after, idx, n),
        idx.len() == fired_names(before, after, n).len(),
        forall|k: int| 0 <= k < idx.len() ==> fired_names(before, after, n)[k] == after[#[trigger] idx[k]].name@,
    decreases n,
{
    if n <= 0 {
        Seq::empty()
    } else {
        let prev = lemma_fired_names_picks(before, after, n - 1);
        if alarm_fired(before[n - 1].state, after[n - 1].state) {
            let idx = prev.push(n - 1);
            assert forall|i: int|
                0 <= i < n && alarm_fired(#[trigger] before[i].state, after[i].state) implies exists|k: int|
                0 <= k < idx.len() && idx[k] == i by {
                if i == n - 1 {
                    assert(idx[idx.len() - 1] == i);
                } else {
                    let k = choose|k: int| 0 <= k < prev.len() && prev[k] == i;
                    assert(idx[k] == i);
                }
            }
            assert forall|k: int| 0 <= k < idx.len() implies fired_names(before, after, n)[k] == after[
                #[trigger] idx[k]
            ].name@ by {
                if k < prev.len() {
                    assert(idx[k] == prev[k]);
                }
            }
            idx
        } else {
            assert forall|i: int|
                0 <= i < n && alarm_fired(#[trigger] before[i].state, after[i].state) implies exists|k: int|
                0 <= k < prev.len() && prev[k] == i by {
                assert(i != n - 1);
            }
            prev
        }
    }
}

/// The first actuator called `name`, if any.
pub open spec fn actuator_index<A>(actuators: Seq<ActuatorSpec<A>>, name: Seq<char>) -> Option<int> {
    if exists|k: int| 0 <= k < actuators.len() && actuators[k].name@ == name {
        Some(choose|k: int|
            0 <= k < actuators.len() && actuators[k].name@ == name
                && forall|j: int| 0 <= j < k ==> actuators[j].name@ != name)
    } else {
        None
    }
}

/// The text of the error for an actuator name that no actuator has.
pub open spec fn unknown_actuator_text(name: Seq<char>) -> Seq<char> {
    "unknown actuator: "@ + name
}

/// The core engine: sensors, actuators, alarms and the tick history.
pub struct PlatoEngine<V, S, A, C> {
    pub sensors: Vec<SensorSpec<S>>,
    pub actuators: Vec<ActuatorSpec<A>>,
    pub alarms: Vec<AlarmRule<C>>,
    pub history: HistoryBuffer<Tick<V>>,
    pub tick_hz: V,
    pub tick_index: u64,
    pub start_time: V,
    pub streaming: bool,
    /// Names of the alarms that fired on the last tick.
    pub alarm_fires: Vec<String>,
}

/// Builder for `PlatoEngine`.
pub struct PlatoEngineBuilder<V, S, A, C> {
    sensors: Vec<SensorSpec<S>>,
    actuators: Vec<ActuatorSpec<A>>,
    alarms: Vec<AlarmRule<C>>,
    tick_hz: V,
    history_capacity: usize,
}

/// `rate` is what the engine runs at when configured with `hz`: `hz` itself
/// when it compares greater than zero, otherwise one.
pub open spec fn rate_chosen<V: PartialOrd + From<u8>>(hz: V, rate: V) -> bool {
    exists|zero: V, positive: bool|
        {
            &&& call_ensures(V::from, (0u8,), zero)
            &&& call_ensures(V::gt, (&hz, &zero), positive)
            &&& (positive ==> rate == hz)
            &&& (!positive ==> call_ensures(V::from, (1u8,), rate))
        }
}

impl<V, S, A, C> PlatoEngine<V, S, A, C> {
    /// The engine's invariant: a usable history whose ticks carry the
    /// consecutive indices just below `tick_index`.
    pub open spec fn wf(&self) -> bool {
        &&& self.history.wf()
        &&& self.history.spec_capacity() > 0
        &&& self.history@.len() <= self.tick_index
        &&& forall|i: int|
            0 <= i < self.history@.len() ==> (#[trigger] self.history@[i]).index == self.tick_index
                - self.history@.len() + i
    }

    /// The history holds ticks with consecutive indices, oldest first, the
    /// latest being the tick just before `tick_index`.
    pub proof fn lemma_history_indices(&self)
        requires
            self.wf(),
        ensures
            forall|i: int, j: int|
                0 <= i < j < self.history@.len() ==> self.history@[i].index < self.history@[j].index,
            self.history@.len() > 0 ==> self.history@.last().index + 1 == self.tick_index,
    {
    }

    /// Subscribe to live updates.
    pub fn subscribe(&mut self)
        ensures
            *final(self) == (PlatoEngine { streaming: true, ..*old(self) }),
    {
        self.streaming = true;
    }

    /// Unsubscribe from live updates.
    pub fn unsubscribe(&mut self)
        ensures
            *final(self) == (PlatoEngine { streaming: false, ..*old(self) }),
    {
        self.streaming = false;
    }

    /// The most recent tick, if any.
    pub fn latest(&self) -> (res: Option<&Tick<V>>)
        requires
            self.wf(),
        ensures
            self.history@.len() == 0 ==> res is None,
            self.history@.len() > 0 ==> res == Some(&self.history@.last()),
    {
        self.history.latest()
    }

    /// The last `n` ticks (all of them when fewer are stored), oldest first.
    pub fn history(&self, n: usize) -> (res: Vec<&Tick<V>>)
        requires
            self.wf(),
        ensures
            res@.len() == last_n(self.history@, n as nat).len(),
            forall|i: int| 0 <= i < res@.len() ==> *res@[i] == last_n(self.history@, n as nat)[i],
    {
        self.history.query(n)
    }
}

impl<V, S: Fn() -> V, A, C: Fn(&[(String, V)]) -> bool> PlatoEngine<V, S, A, C> {
    /// Every sensor may be read, every alarm condition may be evaluated, the
    /// next tick index fits, and an active alarm whose condition may clear can
    /// start its cooldown without overflow.
    pub open spec fn tick_ready(&self) -> bool {
        &&& sensors_readable(self.sensors@)
        &&& forall|i: int, d: &[(String, V)]|
            0 <= i < self.alarms@.len() ==> #[trigger] call_requires(self.alarms@[i].condition, (d,))
        &&& self.tick_index < u64::MAX
        &&& forall|i: int, d: &[(String, V)], outcome: bool|
            0 <= i < self.alarms@.len() && #[trigger] call_ensures(self.alarms@[i].condition, (d,), outcome)
                && !outcome ==> cooldown_fits(
                self.alarms@[i].state,
                self.tick_index,
                self.alarms@[i].cooldown_ticks,
            )
    }

    /// `after` is `before` after one tick at `timestamp`: the sensors were read
    /// once each into a new tick with the next index, every alarm was evaluated
    /// against its readings, `alarm_fires` names the alarms that fired, and the
    /// tick was pushed into the history.
    pub open spec fn ticked(before: Self, after: Self, timestamp: V) -> bool {
        let t = after.history@.last();
        &&& after.wf()
        &&& after.tick_index == before.tick_index + 1
        &&& after.history.spec_capacity() == before.history.spec_capacity()
        &&& after.history@ == pushed(before.history@, before.history.spec_capacity(), t)
        &&& t.index == before.tick_index
        &&& t.timestamp == timestamp
        &&& readings_from(t.data@, before.sensors@)
        &&& after.alarms@.len() == before.alarms@.len()
        &&& forall|i: int|
            0 <= i < before.alarms@.len() ==> alarm_evaluated(
                #[trigger] before.alarms@[i],
                after.alarms@[i],
                t.data@,
                before.tick_index,
            )
        &&& after.alarm_fires@.map_values(|s: String| s@) == fired_names(
            before.alarms@,
            after.alarms@,
            before.alarms@.len() as int,
        )
        &&& after.sensors == before.sensors
        &&& after.actuators == before.actuators
        &&& after.tick_hz == before.tick_hz
        &&& after.start_time == before.start_time
        &&& after.streaming == before.streaming
    }

    /// A tick records every alarm that fired on it, once, in alarm order:
    /// `alarm_fires` names exactly the alarms that moved from a non-active
    /// state into `Active`, so it has as many entries as such alarms.
    pub proof fn lemma_tick_records_every_fire(before: Self, after: Self, timestamp: V)
        requires
            Self::ticked(before, after, timestamp),
        ensures
            exists|idx: Seq<int>|
                {
                    &&& picks_fired(before.alarms@, after.alarms@, idx, before.alarms@.len() as int)
                    &&& idx.len() == after.alarm_fires@.len()
                    &&& forall|k: int|
                        0 <= k < idx.len() ==> after.alarm_fires@[k]@ == after.alarms@[#[trigger] idx[k]].name@
                },
    {
        let idx = lemma_fired_names_picks(before.alarms@, after.alarms@, before.alarms@.len() as int);
        let names = after.alarm_fires@.map_values(|s: String| s@);
        assert forall|k: int| 0 <= k < idx.len() implies after.alarm_fires@[k]@ == after.alarms@[
            #[trigger] idx[k]
        ].name@ by {
            assert(names[k] == after.alarm_fires@[k]@);
        }
    }

    /// One tick grows the history by one tick until the capacity is reached;
    /// from then on its length stays at the capacity.
    pub proof fn lemma_tick_grows_history(before: Self, after: Self, timestamp: V)
        requires
            before.wf(),
            Self::ticked(before, after, timestamp),
        ensures
            after.history@.len() == (if before.history@.len() < before.history.spec_capacity() {
                (before.history@.len() + 1) as nat
            } else {
                before.history.spec_capacity()
            }),
            after.history@.last().index == before.tick_index,
    {
        before.history.lemma_within_capacity();
    }

    /// Index and history length after the `k`-th tick of a run from a fresh engine.
    proof fn lemma_run_step(engines: Seq<Self>, stamps: Seq<V>, k: int)
        requires
            0 <= k < engines.len(),
            engines[0].wf(),
            engines[0].tick_index == 0,
            engines[0].history@.len() == 0,
            forall|j: int| 0 <= j < engines.len() - 1 ==> Self::ticked(#[trigger] engines[j], engines[j + 1], stamps[j]),
        ensures
            engines[k].wf(),
            engines[k].tick_index == k,
            engines[k].history.spec_capacity() == engines[0].history.spec_capacity(),
            engines[k].history@.len() == (if k < engines[0].history.spec_capacity() {
                k
            } else {
                engines[0].history.spec_capacity() as int
            }),
        decreases k,
    {
        if k > 0 {
            Self::lemma_run_step(engines, stamps, k - 1);
            assert(Self::ticked(engines[k - 1], engines[k], stamps[k - 1]));
            Self::lemma_tick_grows_history(engines[k - 1], engines[k], stamps[k - 1]);
        }
    }

    /// Starting from a freshly built engine (empty history, index zero), after
    /// `k` ticks the index is `k` and the history holds `min(k, capacity)` ticks.
    pub proof fn lemma_ticks_from_fresh(engines: Seq<Self>, stamps: Seq<V>)
        requires
            engines.len() > 0,
            engines[0].wf(),
            engines[0].tick_index == 0,
            engines[0].history@.len() == 0,
            forall|j: int| 0 <= j < engines.len() - 1 ==> Self::ticked(#[trigger] engines[j], engines[j + 1], stamps[j]),
        ensures
            forall|k: int|
                0 <= k < engines.len() ==> {
                    &&& (#[trigger] engines[k]).tick_index == k
                    &&& engines[k].history.spec_capacity() == engines[0].history.spec_capacity()
                    &&& engines[k].history@.len() == (if k < engines[0].history.spec_capacity() {
                        k
                    } else {
                        engines[0].history.spec_capacity() as int
                    })
                },
    {
        assert forall|k: int| 0 <= k < engines.len() implies {
            &&& (#[trigger] engines[k]).tick_index == k
            &&& engines[k].history.spec_capacity() == engines[0].history.spec_capacity()
            &&& engines[k].history@.len() == (if k < engines[0].history.spec_capacity() {
                k
            } else {
                engines[0].history.spec_capacity() as int
            })
        } by {
            Self::lemma_run_step(engines, stamps, k);
        }
    }

    /// Take one tick at `timestamp`: read every sensor, evaluate every alarm
    /// against the readings, and push the tick into the history.
    pub fn tick(&mut self, timestamp: V) -> (res: &Tick<V>)
        requires
            old(self).wf(),
            old(self).tick_ready(),
        ensures
            Self::ticked(*old(self), *final(self), timestamp),
            *res == final(self).history@.last(),
    {
        let idx = self.tick_index;
        let tick = Tick::from_sensors(idx, timestamp, self.sensors.as_slice());
        self.alarm_fires.clear();
        let data = tick.data.as_slice();
        let ghost pre = *self;
        let ghost before = self.alarms@;
        let n = self.alarms.len();
        let mut i: usize = 0;
        while i < n
            invariant
                n == before.len(),
                data@ == tick.data@,
                self.alarms@.len() == n,
                self.history == pre.history,
                self.sensors == pre.sensors,
                self.actuators == pre.actuators,
                self.tick_hz == pre.tick_hz,
                self.start_time == pre.start_time,
                self.streaming == pre.streaming,
                self.tick_index == idx,
                i <= n,
                forall|d: &[(String, V)], j: int|
                    i <= j < n ==> #[trigger] call_requires(before[j].condition, (d,)),
                forall|j: int| i <= j < n ==> #[trigger] self.alarms@[j] == before[j],
                forall|j: int, d: &[(String, V)], outcome: bool|
                    i <= j < n && #[trigger] call_ensures(before[j].condition, (d,), outcome) && !outcome
                        ==> cooldown_fits(before[j].state, idx, before[j].cooldown_ticks),
                forall|j: int|
                    0 <= j < i ==> alarm_evaluated(#[trigger] before[j], self.alarms@[j], tick.data@, idx),
                self.alarm_fires@.map_values(|s: String| s@) == fired_names(before, self.alarms@, i as int),
            decreases n - i,
        {
            let ghost mid = self.alarms@;
            let fired = self.alarms[i].evaluate(data, idx);
            proof {
                let b = before[i as int];
                let after = self.alarms@[i as int];
                let t = choose|t: bool| {
                    &&& call_ensures(b.condition, (data,), t)
                    &&& (after.state, fired) == alarm_step(b.state, t, idx, b.cooldown_ticks)
                };
                lemma_fires_iff_activated(b.state, t, idx, b.cooldown_ticks);
                assert(alarm_evaluated(b, after, tick.data@, idx));
                assert(self.alarms@ == mid.update(i as int, after));
                lemma_fired_names_prefix(before, mid, self.alarms@, i as int);
            }
            if fired {
                let name = self.alarms[i].name.clone();
                self.alarm_fires.push(name);
            }
            proof {
                assert(self.alarm_fires@.map_values(|s: String| s@) =~= fired_names(before, self.alarms@, i + 1));
            }
            i = i + 1;
        }
        self.tick_index = idx + 1;
        self.history.push(tick);
        self.history.latest().unwrap()
    }
}

impl<V: Copy, S: Fn() -> V, A: Fn(V) -> bool, C: Fn(&[(String, V)]) -> bool> PlatoEngine<V, S, A, C> {
    /// Handle a text command; see `ProtocolHandler::handle`.
    pub fn handle_command<P: Fn(&str) -> Option<V>, F: Fn(V, Option<usize>) -> String>(
        &mut self,
        command: &str,
        timestamp: V,
        parse_value: P,
        format_value: F,
    ) -> (res: String)
        requires
            ready_for(*old(self), parse_spec(command@), parse_value, format_value),
        ensures
            final(self).wf(),
            handled(
                *old(self),
                *final(self),
                parse_spec(command@),
                timestamp,
                parse_value,
                format_value,
                res@,
            ),
    {
        ProtocolHandler::handle(self, command, timestamp, parse_value, format_value)
    }
}

impl<V, S, A: Fn(V) -> bool, C> PlatoEngine<V, S, A, C> {
    /// Every actuator accepts being called with `value`.
    pub open spec fn actuators_ready(&self, value: V) -> bool {
        forall|i: int| 0 <= i < self.actuators@.len() ==> call_requires(#[trigger] self.actuators@[i].callback, (value,))
    }

    /// Set the first actuator called `name` to `value`. Returns whether the
    /// actuator accepted the value, or an error when no actuator has that name.
    pub fn set_actuator(&mut self, name: &str, value: V) -> (res: Result<bool, String>)
        requires
            old(self).actuators_ready(value),
        ensures
            *final(self) == *old(self),
            match actuator_index(old(self).actuators@, name@) {
                Some(k) => res matches Ok(accepted) && call_ensures(old(self).actuators@[k].callback, (value,), accepted),
                None => res matches Err(e) && e@ == unknown_actuator_text(name@),
            },
    {
        let mut i: usize = 0;
        while i < self.actuators.len()
            invariant
                i <= self.actuators@.len(),
                self.actuators_ready(value),
                forall|j: int| 0 <= j < i ==> self.actuators@[j].name@ != name@,
            decreases self.actuators@.len() - i,
        {
            if same_text(self.actuators[i].name.as_str(), name) {
                let accepted = self.actuators[i].set(value);
                proof {
                    let k = actuator_index(self.actuators@, name@)->0;
                    assert(self.actuators@[i as int].name@ == name@);
                    assert(k == i);
                }
                return Ok(accepted);
            }
            i = i + 1;
        }
        let mut msg = "unknown actuator: ".to_owned();
        msg.append(name);
        Err(msg)
    }
}

impl<V: From<u8>, S, A, C> PlatoEngine<V, S, A, C> {
    /// A builder with no sensors, actuators or alarms.
    pub fn builder() -> (res: PlatoEngineBuilder<V, S, A, C>)
        ensures
            res.spec_sensors().len() == 0,
            res.spec_actuators().len() == 0,
            res.spec_alarms().len() == 0,
            call_ensures(V::from, (0u8,), res.spec_tick_hz()),
            res.spec_history_capacity() == 0,
    {
        PlatoEngineBuilder::new()
    }
}

impl<V, S, A, C> PlatoEngineBuilder<V, S, A, C> {
    /// The sensors added so far.
    pub closed spec fn spec_sensors(&self) -> Seq<SensorSpec<S>> {
        self.sensors@
    }

    /// The actuators added so far.
    pub closed spec fn spec_actuators(&self) -> Seq<ActuatorSpec<A>> {
        self.actuators@
    }

    /// The alarm rules added so far.
    pub closed spec fn spec_alarms(&self) -> Seq<AlarmRule<C>> {
        self.alarms@
    }

    /// The tick rate configured so far.
    pub closed spec fn spec_tick_hz(&self) -> V {
        self.tick_hz
    }

    /// The history capacity configured so far.
    pub closed spec fn spec_history_capacity(&self) -> usize {
        self.history_capacity
    }

    /// Add a sensor.
    pub fn sensor(self, name: &str, callback: S) -> (res: Self)
        ensures
            res.spec_sensors().len() == self.spec_sensors().len() + 1,
            res.spec_sensors().drop_last() == self.spec_sensors(),
            res.spec_sensors().last().name@ == name@,
            res.spec_sensors().last().callback == callback,
            res.spec_actuators() == self.spec_actuators(),
            res.spec_alarms() == self.spec_alarms(),
            res.spec_tick_hz() == self.spec_tick_hz(),
            res.spec_history_capacity() == self.spec_history_capacity(),
    {
        let mut b = self;
        b.sensors.push(SensorSpec::new(name, callback));
        proof {
            assert(b.sensors@.drop_last() =~= self.sensors@);
        }
        b
    }

    /// Add an actuator.
    pub fn actuator(self, name: &str, callback: A) -> (res: Self)
        ensures
            res.spec_actuators().len() == self.spec_actuators().len() + 1,
            res.spec_actuators().drop_last() == self.spec_actuators(),
            res.spec_actuators().last().name@ == name@,
            res.spec_actuators().last().callback == callback,
            res.spec_sensors() == self.spec_sensors(),
            res.spec_alarms() == self.spec_alarms(),
            res.spec_tick_hz() == self.spec_tick_hz(),
            res.spec_history_capacity() == self.spec_history_capacity(),
    {
        let mut b = self;
        b.actuators.push(ActuatorSpec::new(name, callback));
        proof {
            assert(b.actuators@.drop_last() =~= self.actuators@);
        }
        b
    }

    /// Add an alarm rule; it starts idle.
    pub fn alarm(self, name: &str, condition: C, cooldown_ticks: u64) -> (res: Self)
        ensures
            res.spec_alarms().len() == self.spec_alarms().len() + 1,
            res.spec_alarms().drop_last() == self.spec_alarms(),
            res.spec_alarms().last().name@ == name@,
            res.spec_alarms().last().condition == condition,
            res.spec_alarms().last().cooldown_ticks == cooldown_ticks,
            res.spec_alarms().last().state == AlarmState::Idle,
            res.spec_alarms().last().last_fired_tick == 0,
            res.spec_sensors() == self.spec_sensors(),
            res.spec_actuators() == self.spec_actuators(),
            res.spec_tick_hz() == self.spec_tick_hz(),
            res.spec_history_capacity() == self.spec_history_capacity(),
    {
        let mut b = self;
        b.alarms.push(AlarmRule::new(name, condition, cooldown_ticks));
        proof {
            assert(b.alarms@.drop_last() =~= self.alarms@);
        }
        b
    }

    /// Set the tick rate, in ticks per second.
    pub fn tick_hz(self, hz: V) -> (res: Self)
        ensures
            res.spec_tick_hz() == hz,
            res.spec_sensors() == self.spec_sensors(),
            res.spec_actuators() == self.spec_actuators(),
            res.spec_alarms() == self.spec_alarms(),
            res.spec_history_capacity() == self.spec_history_capacity(),
    {
        let mut b = self;
        b.tick_hz = hz;
        b
    }

    /// Set the history capacity, in ticks.
    pub fn history_capacity(self, capacity: usize) -> (res: Self)
        ensures
            res.spec_history_capacity() == capacity,
            res.spec_sensors() == self.spec_sensors(),
            res.spec_actuators() == self.spec_actuators(),
            res.spec_alarms() == self.spec_alarms(),
            res.spec_tick_hz() == self.spec_tick_hz(),
    {
        let mut b = self;
        b.history_capacity = capacity;
        b
    }
}

impl<V: From<u8>, S, A, C> PlatoEngineBuilder<V, S, A, C> {
    /// A builder with no sensors, actuators or alarms, a zero tick rate and
    /// a zero history capacity (both replaced by defaults when building).
    pub fn new() -> (res: Self)
        ensures
            res.spec_sensors().len() == 0,
            res.spec_actuators().len() == 0,
            res.spec_alarms().len() == 0,
            call_ensures(V::from, (0u8,), res.spec_tick_hz()),
            res.spec_history_capacity() == 0,
    {
        PlatoEngineBuilder {
            sensors: Vec::new(),
            actuators: Vec::new(),
            alarms: Vec::new(),
            tick_hz: V::from(0u8),
            history_capacity: 0,
        }
    }
}

impl<V: From<u8>, S, A, C> Default for PlatoEngineBuilder<V, S, A, C> {
    /// The same builder as `new`.
    fn default() -> (res: Self)
        ensures
            res.spec_sensors().len() == 0,
            res.spec_actuators().len() == 0,
            res.spec_alarms().len() == 0,
            call_ensures(V::from, (0u8,), res.spec_tick_hz()),
            res.spec_history_capacity() == 0,
    {
        Self::new()
    }
}

impl<V: PartialOrd + From<u8>, S, A, C> PlatoEngineBuilder<V, S, A, C> {
    /// Build the engine. A tick rate that is not greater than zero becomes one,
    /// and a zero history capacity becomes `DEFAULT_HISTORY_CAPACITY`.
    pub fn build(self) -> (res: PlatoEngine<V, S, A, C>)
        ensures
            res.wf(),
            res.sensors@ == self.spec_sensors(),
            res.actuators@ == self.spec_actuators(),
            res.alarms@ == self.spec_alarms(),
            res.history@.len() == 0,
            res.history.spec_capacity() == (if self.spec_history_capacity() > 0 {
                self.spec_history_capacity()
            } else {
                DEFAULT_HISTORY_CAPACITY
            }),
            rate_chosen(self.spec_tick_hz(), res.tick_hz),
            res.tick_index == 0,
            call_ensures(V::from, (0u8,), res.start_time),
            !res.streaming,
            res.alarm_fires@.len() == 0,
    {
        let zero = V::from(0u8);
        let tick_hz = if self.tick_hz > zero {
            self.tick_hz
        } else {
            V::from(1u8)
        };
        let history_capacity = if self.history_capacity > 0 {
            self.history_capacity
        } else {
            DEFAULT_HISTORY_CAPACITY
        };
        PlatoEngine {
            sensors: self.sensors,
            actuators: self.actuators,
            alarms: self.alarms,
            history: HistoryBuffer::new(history_capacity),
            tick_hz,
            tick_index: 0,
            start_time: V::from(0u8),
            streaming: false,
            alarm_fires: Vec::new(),
        }
    }
}

} // verus!
