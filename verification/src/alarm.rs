//! Alarm rules: a condition over the latest readings, and a state machine
//! with a cooldown between fires.

use vstd::prelude::*;

verus! {

/// State of an alarm.
#[derive(Clone, Copy, Debug, PartialEq, Eq, Structural)]
pub enum AlarmState {
    /// Not triggered, or the cooldown has expired.
    Idle,
    /// Triggered; the condition held at the last evaluation.
    Active { since_tick: u64 },
    /// The condition cleared; the alarm cannot fire before `until_tick`.
    Cooldown { until_tick: u64 },
}

/// Whether evaluating an alarm in `state` at `current_tick` cannot overflow
/// the cooldown arithmetic.
pub open spec fn cooldown_fits(state: AlarmState, current_tick: u64, cooldown_ticks: u64) -> bool {
    state is Active ==> current_tick + cooldown_ticks <= u64::MAX
}

/// The state an alarm moves to, and whether it fires, when its condition
/// evaluates to `triggered` at `current_tick`.
pub open spec fn alarm_step(
    state: AlarmState,
    triggered: bool,
    current_tick: u64,
    cooldown_ticks: u64,
) -> (AlarmState, bool) {
    match state {
        AlarmState::Idle => {
            if triggered {
                (AlarmState::Active { since_tick: current_tick }, true)
            } else {
                (AlarmState::Idle, false)
            }
        },
        AlarmState::Active { .. } => {
            if triggered {
                (state, false)
            } else {
                (AlarmState::Cooldown { until_tick: (current_tick + cooldown_ticks) as u64 }, false)
            }
        },
        AlarmState::Cooldown { until_tick } => {
            if current_tick >= until_tick {
                if triggered {
                    (AlarmState::Active { since_tick: current_tick }, true)
                } else {
                    (AlarmState::Idle, false)
                }
            } else {
                (state, false)
            }
        },
    }
}

/// An alarm fires when it moves from a non-active state into `Active`.
pub open spec fn alarm_fired(before: AlarmState, after: AlarmState) -> bool {
    !(before is Active) && after is Active
}

/// An alarm fires exactly when its evaluation moves it from a non-active
/// state into `Active`.
pub proof fn lemma_fires_iff_activated(state: AlarmState, triggered: bool, current_tick: u64, cooldown_ticks: u64)
    ensures
        alarm_step(state, triggered, current_tick, cooldown_ticks).1 == alarm_fired(
            state,
            alarm_step(state, triggered, current_tick, cooldown_ticks).0,
        ),
{
}

/// While the condition holds an active alarm stays active without firing
/// again; once it clears, the cooldown starts at the current tick.
pub proof fn lemma_active_never_refires(since_tick: u64, triggered: bool, current_tick: u64, cooldown_ticks: u64)
    ensures
        !alarm_step((AlarmState::Active { since_tick }), triggered, current_tick, cooldown_ticks).1,
        triggered ==> alarm_step((AlarmState::Active { since_tick }), triggered, current_tick, cooldown_ticks).0
            == (AlarmState::Active { since_tick }),
        !triggered && current_tick + cooldown_ticks <= u64::MAX ==> alarm_step(
            (AlarmState::Active { since_tick }),
            triggered,
            current_tick,
            cooldown_ticks,
        ).0 == (AlarmState::Cooldown { until_tick: (current_tick + cooldown_ticks) as u64 }),
{
}

/// An idle alarm fires as soon as its condition holds, becoming active at
/// that tick, and stays idle without firing while the condition is false.
pub proof fn lemma_idle_fires_on_condition(current_tick: u64, cooldown_ticks: u64)
    ensures
        alarm_step(AlarmState::Idle, false, current_tick, cooldown_ticks) == (AlarmState::Idle, false),
        alarm_step(AlarmState::Idle, true, current_tick, cooldown_ticks) == (
            (AlarmState::Active { since_tick: current_tick }),
            true,
        ),
{
}

/// Once its cooldown has run out an alarm re-arms: it fires at once if the
/// condition holds, and otherwise goes back to idle.
pub proof fn lemma_cooldown_expires(until_tick: u64, current_tick: u64, cooldown_ticks: u64)
    requires
        current_tick >= until_tick,
    ensures
        alarm_step((AlarmState::Cooldown { until_tick }), true, current_tick, cooldown_ticks) == (
            (AlarmState::Active { since_tick: current_tick }),
            true,
        ),
        alarm_step((AlarmState::Cooldown { until_tick }), false, current_tick, cooldown_ticks) == (
            AlarmState::Idle,
            false,
        ),
{
}

/// Before its cooldown has run out an alarm neither fires nor changes state,
/// whatever the condition says.
pub proof fn lemma_cooldown_holds(until_tick: u64, triggered: bool, current_tick: u64, cooldown_ticks: u64)
    requires
        current_tick < until_tick,
    ensures
        alarm_step((AlarmState::Cooldown { until_tick }), triggered, current_tick, cooldown_ticks) == (
            (AlarmState::Cooldown { until_tick }),
            false,
        ),
{
}

/// The state of an alarm started in `state` after it is evaluated once per
/// event (condition outcome, tick) of `events`, in order.
pub open spec fn state_after(state: AlarmState, cooldown_ticks: u64, events: Seq<(bool, u64)>) -> AlarmState
    decreases events.len(),
{
    if events.len() == 0 {
        state
    } else {
        alarm_step(
            state_after(state, cooldown_ticks, events.drop_last()),
            events.last().0,
            events.last().1,
            cooldown_ticks,
        ).0
    }
}

/// A fresh alarm whose condition never holds stays idle, whatever the ticks.
pub proof fn lemma_quiet_alarm_stays_idle(cooldown_ticks: u64, events: Seq<(bool, u64)>)
    requires
        forall|i: int| 0 <= i < events.len() ==> !(#[trigger] events[i]).0,
    ensures
        state_after(AlarmState::Idle, cooldown_ticks, events) == AlarmState::Idle,
    decreases events.len(),
{
    if events.len() > 0 {
        let prefix = events.drop_last();
        assert forall|i: int| 0 <= i < prefix.len() implies !(#[trigger] prefix[i]).0 by {
            assert(prefix[i] == events[i]);
        }
        lemma_quiet_alarm_stays_idle(cooldown_ticks, prefix);
        assert(!events[events.len() - 1].0);
    }
}

/// Whether an alarm started in `state` fires at event `n` of `events`.
pub open spec fn fires_at(state: AlarmState, cooldown_ticks: u64, events: Seq<(bool, u64)>, n: int) -> bool {
    alarm_step(state_after(state, cooldown_ticks, events.take(n)), events[n].0, events[n].1, cooldown_ticks).1
}

/// Ticks strictly increase along `events`, and no tick plus the cooldown overflows.
pub open spec fn events_ordered(events: Seq<(bool, u64)>, cooldown_ticks: u64) -> bool {
    &&& forall|i: int, j: int| 0 <= i < j < events.len() ==> events[i].1 < events[j].1
    &&& forall|i: int| 0 <= i < events.len() ==> events[i].1 + cooldown_ticks <= u64::MAX
}

proof fn lemma_state_after_step(state: AlarmState, cooldown_ticks: u64, events: Seq<(bool, u64)>, n: int)
    requires
        0 <= n < events.len(),
    ensures
        state_after(state, cooldown_ticks, events.take(n + 1)) == alarm_step(
            state_after(state, cooldown_ticks, events.take(n)),
            events[n].0,
            events[n].1,
            cooldown_ticks,
        ).0,
{
    assert(events.take(n + 1).drop_last() =~= events.take(n));
}

/// After firing at event `i`, the alarm stays active while the condition holds.
proof fn lemma_stays_active(state: AlarmState, cooldown_ticks: u64, events: Seq<(bool, u64)>, i: int, m: int)
    requires
        0 <= i < m <= events.len(),
        fires_at(state, cooldown_ticks, events, i),
        forall|l: int| i < l < m ==> #[trigger] events[l].0,
    ensures
        state_after(state, cooldown_ticks, events.take(m)) == (AlarmState::Active { since_tick: events[i].1 }),
    decreases m - i,
{
    lemma_state_after_step(state, cooldown_ticks, events, m - 1);
    if m > i + 1 {
        lemma_stays_active(state, cooldown_ticks, events, i, m - 1);
        assert(events[m - 1].0);
    }
}

/// The first event in `lo .. hi` whose condition outcome is false.
proof fn first_clear(events: Seq<(bool, u64)>, lo: int, hi: int) -> (k: int)
    requires
        0 <= lo <= hi <= events.len(),
        exists|l: int| lo <= l < hi && !(#[trigger] events[l].0),
    ensures
        lo <= k < hi,
        !events[k].0,
        forall|l: int| lo <= l < k ==> #[trigger] events[l].0,
    decreases hi - lo,
{
    if !events[lo].0 {
        lo
    } else {
        first_clear(events, lo + 1, hi)
    }
}

/// Once the cooldown has started at event `k`, the alarm stays in it until
/// its end tick is reached.
proof fn lemma_cooling(state: AlarmState, cooldown_ticks: u64, events: Seq<(bool, u64)>, k: int, m: int)
    requires
        events_ordered(events, cooldown_ticks),
        0 <= k < m <= events.len(),
        state_after(state, cooldown_ticks, events.take(k + 1)) == (AlarmState::Cooldown {
            until_tick: (events[k].1 + cooldown_ticks) as u64,
        }),
    ensures
        state_after(state, cooldown_ticks, events.take(m)) == (AlarmState::Cooldown {
            until_tick: (events[k].1 + cooldown_ticks) as u64,
        }) || events[m - 1].1 >= events[k].1 + cooldown_ticks,
    decreases m - k,
{
    if m > k + 1 {
        lemma_cooling(state, cooldown_ticks, events, k, m - 1);
        lemma_state_after_step(state, cooldown_ticks, events, m - 1);
        if m - 2 >= 0 {
            assert(events[m - 2].1 < events[m - 1].1);
        }
    }
}

/// An alarm that fired cannot fire again before its condition has cleared
/// and the cooldown counted from that clearing has run out: for any start
/// state and any run at increasing ticks, between two fires at events `i < j`
/// there is an event `k` whose condition outcome was false, the first such `k`
/// has `tick_j >= tick_k + cooldown`, and so `tick_j > tick_i + cooldown`.
pub proof fn lemma_refire_needs_clear_and_cooldown(
    state: AlarmState,
    cooldown_ticks: u64,
    events: Seq<(bool, u64)>,
    i: int,
    j: int,
)
    requires
        events_ordered(events, cooldown_ticks),
        0 <= i < j < events.len(),
        fires_at(state, cooldown_ticks, events, i),
        fires_at(state, cooldown_ticks, events, j),
    ensures
        exists|k: int|
            {
                &&& i < k < j
                &&& !events[k].0
                &&& forall|l: int| i < l < k ==> #[trigger] events[l].0
                &&& events[j].1 >= events[k].1 + cooldown_ticks
            },
        events[j].1 > events[i].1 + cooldown_ticks,
{
    if forall|l: int| i < l < j ==> #[trigger] events[l].0 {
        lemma_stays_active(state, cooldown_ticks, events, i, j);
        assert(false);
    }
    let k = first_clear(events, i + 1, j);
    lemma_stays_active(state, cooldown_ticks, events, i, k);
    lemma_state_after_step(state, cooldown_ticks, events, k);
    assert(events[k].1 + cooldown_ticks <= u64::MAX);
    lemma_cooling(state, cooldown_ticks, events, k, j);
    assert(events[j - 1].1 < events[j].1);
    assert(events[i].1 < events[k].1);
    assert(events[j].1 >= events[k].1 + cooldown_ticks);
}

/// An alarm rule: a named condition with a cooldown and its current state.
pub struct AlarmRule<C> {
    pub name: String,
    pub condition: C,
    /// Minimum number of ticks the condition must stay clear before the alarm re-arms.
    pub cooldown_ticks: u64,
    /// Current state.
    pub state: AlarmState,
    /// Tick at which the alarm last fired.
    pub last_fired_tick: u64,
}

impl<C> AlarmRule<C> {
    /// A new, idle alarm rule.
    pub fn new(name: &str, condition: C, cooldown_ticks: u64) -> (res: Self)
        ensures
            res.name@ == name@,
            res.condition == condition,
            res.cooldown_ticks == cooldown_ticks,
            res.state == AlarmState::Idle,
            res.last_fired_tick == 0,
    {
        AlarmRule {
            name: name.to_owned(),
            condition,
            cooldown_ticks,
            state: AlarmState::Idle,
            last_fired_tick: 0,
        }
    }

    /// Advance the state machine given the condition's outcome at `current_tick`.
    /// Returns true when the alarm fires (moves into `Active`).
    pub fn step(&mut self, triggered: bool, current_tick: u64) -> (fired: bool)
        requires
            !triggered ==> cooldown_fits(old(self).state, current_tick, old(self).cooldown_ticks),
        ensures
            (final(self).state, fired) == alarm_step(
                old(self).state,
                triggered,
                current_tick,
                old(self).cooldown_ticks,
            ),
            final(self).last_fired_tick == (if fired {
                current_tick
            } else {
                old(self).last_fired_tick
            }),
            final(self).name == old(self).name,
            final(self).condition == old(self).condition,
            final(self).cooldown_ticks == old(self).cooldown_ticks,
    {
        match self.state {
            AlarmState::Idle => {
                if triggered {
                    self.state = AlarmState::Active { since_tick: current_tick };
                    self.last_fired_tick = current_tick;
                    return true;
                }
            },
            AlarmState::Active { .. } => {
                if !triggered {
                    self.state = AlarmState::Cooldown {
                        until_tick: current_tick + self.cooldown_ticks,
                    };
                }
            },
            AlarmState::Cooldown { until_tick } => {
                if current_tick >= until_tick {
                    if triggered {
                        self.state = AlarmState::Active { since_tick: current_tick };
                        self.last_fired_tick = current_tick;
                        return true;
                    } else {
                        self.state = AlarmState::Idle;
                    }
                }
            },
        }
        false
    }

    /// Evaluate the condition against the tick data and advance the state machine.
    /// Returns true when the alarm fires.
    pub fn evaluate<V>(&mut self, data: &[(String, V)], current_tick: u64) -> (fired: bool)
        where C: Fn(&[(String, V)]) -> bool,
        requires
            call_requires(old(self).condition, (data,)),
            forall|outcome: bool|
                #[trigger] call_ensures(old(self).condition, (data,), outcome) && !outcome ==> cooldown_fits(
                    old(self).state,
                    current_tick,
                    old(self).cooldown_ticks,
                ),
        ensures
            exists|triggered: bool|
                {
                    &&& call_ensures(old(self).condition, (data,), triggered)
                    &&& (final(self).state, fired) == alarm_step(
                        old(self).state,
                        triggered,
                        current_tick,
                        old(self).cooldown_ticks,
                    )
                },
            final(self).last_fired_tick == (if fired {
                current_tick
            } else {
                old(self).last_fired_tick
            }),
            final(self).name == old(self).name,
            final(self).condition == old(self).condition,
            final(self).cooldown_ticks == old(self).cooldown_ticks,
    {
        let triggered = (self.condition)(data);
        self.step(triggered, current_tick)
    }

    /// Put the alarm back to idle.
    pub fn reset(&mut self)
        ensures
            final(self).state == AlarmState::Idle,
            final(self).name == old(self).name,
            final(self).condition == old(self).condition,
            final(self).cooldown_ticks == old(self).cooldown_ticks,
            final(self).last_fired_tick == old(self).last_fired_tick,
    {
        self.state = AlarmState::Idle;
    }
}

} // verus!
