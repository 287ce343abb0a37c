//! The text protocol: command parsing, dispatch to the engine, and replies.

use vstd::prelude::*;
use crate::actuator::ActuatorSpec;
use crate::alarm::{AlarmRule, AlarmState};
use crate::engine::{PlatoEngine, actuator_index, unknown_actuator_text};
use crate::history::last_n;
use crate::tick::Tick;
use crate::text::{
    decimal, push_decimal,
    back_whitespace, chars_of, find_in, is_whitespace, parse_usize, parse_usize_spec, range_is,
    skip_whitespace, split3, trimmed, words, words_from, lemma_trim_idempotent, find_char, skip_ws,
    back_ws, spec_is_whitespace, unsigned_part, all_digits, digits_value, lemma_back_ws_bounds,
    lemma_find_bounds, lemma_back_ws_split, lemma_trim_ignores_trailing_whitespace, lemma_decimal_digits, lemma_parse_decimal_round_trip,
};

verus! {

/// How many ticks `history` shows when no valid count is given.
pub const DEFAULT_HISTORY_COUNT: usize = 10;

/// A parsed protocol command.
#[derive(Debug, PartialEq, Eq)]
pub enum Command {
    /// `alarm list`
    AlarmList,
    /// `alarm set <id> <condition> <cooldown>`
    AlarmSet { id: String },
    /// `alarm set ...` with too few words.
    AlarmSetUsage,
    /// `tick`
    Tick,
    /// `history [N]`
    History { count: usize },
    /// `actuator <name> <value>`; the value is still text.
    Actuator { name: String, value: String },
    /// `actuator` without both a name and a value.
    ActuatorUsage,
    /// `subscribe`
    Subscribe,
    /// `unsubscribe`
    Unsubscribe,
    /// `help`
    Help,
    /// `quit`
    Quit,
    /// `<name> <value>`: sets an actuator when the value parses, else `text`
    /// is an unknown command.
    SetByName { name: String, value: String, text: String },
    /// A single word that is no command.
    Unknown { text: String },
}

/// The mathematical form of `Command`, with texts as character sequences.
pub enum CommandView {
    AlarmList,
    AlarmSet { id: Seq<char> },
    AlarmSetUsage,
    Tick,
    History { count: usize },
    Actuator { name: Seq<char>, value: Seq<char> },
    ActuatorUsage,
    Subscribe,
    Unsubscribe,
    Help,
    Quit,
    SetByName { name: Seq<char>, value: Seq<char>, text: Seq<char> },
    Unknown { text: Seq<char> },
}

impl View for Command {
    type V = CommandView;

    open spec fn view(&self) -> CommandView {
        match self {
            Command::AlarmList => CommandView::AlarmList,
            Command::AlarmSet { id } => CommandView::AlarmSet { id: id@ },
            Command::AlarmSetUsage => CommandView::AlarmSetUsage,
            Command::Tick => CommandView::Tick,
            Command::History { count } => CommandView::History { count: *count },
            Command::Actuator { name, value } => CommandView::Actuator { name: name@, value: value@ },
            Command::ActuatorUsage => CommandView::ActuatorUsage,
            Command::Subscribe => CommandView::Subscribe,
            Command::Unsubscribe => CommandView::Unsubscribe,
            Command::Help => CommandView::Help,
            Command::Quit => CommandView::Quit,
            Command::SetByName { name, value, text } => CommandView::SetByName {
                name: name@,
                value: value@,
                text: text@,
            },
            Command::Unknown { text } => CommandView::Unknown { text: text@ },
        }
    }
}

/// Decimal places of timestamps in replies.
pub const TIME_DECIMALS: usize = 3;

/// Decimal places of readings and accepted actuator values in replies.
pub const VALUE_DECIMALS: usize = 4;

/// `text` is what `format_value` may give for `value` at `decimals` places
/// (`None`: the shortest form that reads back as the same value).
pub open spec fn formats<V, F: Fn(V, Option<usize>) -> String>(
    format_value: F,
    value: V,
    decimals: Option<usize>,
    text: Seq<char>,
) -> bool {
    exists|s: String| #[trigger] call_ensures(format_value, (value, decimals), s) && s@ == text
}

/// The reading lines of a tick: for each of the first `n` readings, a new
/// line holding `name = value`.
pub open spec fn reading_lines(names: Seq<Seq<char>>, values: Seq<Seq<char>>, n: int) -> Seq<char>
    decreases n,
{
    if n <= 0 {
        Seq::empty()
    } else {
        reading_lines(names, values, n - 1) + "\n  "@ + names[n - 1] + " = "@ + values[n - 1]
    }
}

/// The text of a tick, given its index, its formatted timestamp, and its
/// sensor names and formatted readings.
pub open spec fn tick_text(index: u64, time: Seq<char>, names: Seq<Seq<char>>, values: Seq<Seq<char>>) -> Seq<char> {
    "tick "@ + decimal(index as nat) + " @ "@ + time + "s"@ + reading_lines(names, values, names.len() as int)
}

/// The names of a tick's readings.
pub open spec fn reading_names<V>(data: Seq<(String, V)>) -> Seq<Seq<char>> {
    data.map_values(|p: (String, V)| p.0@)
}

/// `out` is the text of `tick`, with its values formatted by `format_value`.
pub open spec fn renders_tick<V, F: Fn(V, Option<usize>) -> String>(tick: Tick<V>, format_value: F, out: Seq<char>) -> bool {
    exists|time: Seq<char>, values: Seq<Seq<char>>|
        {
            &&& formats(format_value, tick.timestamp, Some(TIME_DECIMALS), time)
            &&& values.len() == tick.data@.len()
            &&& forall|i: int|
                0 <= i < values.len() ==> formats(
                    format_value,
                    tick.data@[i].1,
                    Some(VALUE_DECIMALS),
                    #[trigger] values[i],
                )
            &&& out == tick_text(tick.index, time, reading_names(tick.data@), values)
        }
}

/// The first `n` tick texts, each on a new line.
pub open spec fn tick_blocks(texts: Seq<Seq<char>>, n: int) -> Seq<char>
    decreases n,
{
    if n <= 0 {
        Seq::empty()
    } else {
        tick_blocks(texts, n - 1) + "\n"@ + texts[n - 1]
    }
}

/// `out` is the reply to `history`: a count line, then each tick's text.
pub open spec fn renders_history<V, F: Fn(V, Option<usize>) -> String>(
    ticks: Seq<Tick<V>>,
    format_value: F,
    out: Seq<char>,
) -> bool {
    exists|texts: Seq<Seq<char>>|
        {
            &&& texts.len() == ticks.len()
            &&& forall|i: int| 0 <= i < texts.len() ==> renders_tick(ticks[i], format_value, #[trigger] texts[i])
            &&& out == "history "@ + decimal(ticks.len()) + tick_blocks(texts, ticks.len() as int)
        }
}

/// The word for an alarm state.
pub open spec fn state_word(state: AlarmState) -> Seq<char> {
    match state {
        AlarmState::Idle => "idle"@,
        AlarmState::Active { .. } => "active"@,
        AlarmState::Cooldown { .. } => "cooldown"@,
    }
}

/// The JSON object describing one alarm rule.
pub open spec fn alarm_entry<C>(alarm: AlarmRule<C>) -> Seq<char> {
    "{\"id\":\""@ + alarm.name@ + "\",\"condition\":\"\",\"cooldown_sec\":"@ + decimal(
        alarm.cooldown_ticks as nat,
    ) + ",\"last_triggered\":null,\"state\":\""@ + state_word(alarm.state) + "\"}"@
}

/// The entries of the first `n` alarm rules, separated by commas.
pub open spec fn alarm_entries<C>(alarms: Seq<AlarmRule<C>>, n: int) -> Seq<char>
    decreases n,
{
    if n <= 0 {
        Seq::empty()
    } else if n == 1 {
        alarm_entry(alarms[0])
    } else {
        alarm_entries(alarms, n - 1) + ","@ + alarm_entry(alarms[n - 1])
    }
}

/// The reply to `alarm list`: an `alarm_list` object holding one entry per rule.
pub open spec fn alarm_list_text<C>(alarms: Seq<AlarmRule<C>>) -> Seq<char> {
    "{\"type\":\"alarm_list\",\"alarms\":["@ + alarm_entries(alarms, alarms.len() as int) + "]}"@
}

/// The reply to `help`.
pub open spec fn help_text() -> Seq<char> {
    "{\"type\":\"help\",\"commands\":[\"tick\",\"history [N]\",\"actuator <name> <value>\",\"alarm list\",\"alarm set <id> <condition> <cooldown>\",\"subscribe\",\"unsubscribe\",\"help\",\"quit\"]}"@
}

/// The reply to a well-formed `alarm set`.
pub open spec fn alarm_set_text(id: Seq<char>) -> Seq<char> {
    "{\"type\":\"ack\",\"command\":\"alarm_set\",\"id\":\""@ + id + "\"}"@
}

/// An error reply carrying `message`.
pub open spec fn error_text(message: Seq<char>) -> Seq<char> {
    "{\"type\":\"error\",\"message\":\""@ + message + "\"}"@
}

/// The reply to `quit`.
pub open spec fn bye_text() -> Seq<char> {
    "{\"type\":\"bye\"}"@
}

/// The reply when an actuator accepted a value set by `<name> <value>`.
pub open spec fn ack_text(name: Seq<char>, value: Seq<char>) -> Seq<char> {
    name + " ← "@ + value
}

/// The reply when an actuator accepted a value set by `actuator <name> <value>`.
pub open spec fn actuator_ack_text(name: Seq<char>, value: Seq<char>) -> Seq<char> {
    "{\"type\":\"ack\",\"command\":\"actuator\",\"name\":\""@ + name + "\",\"value\":"@ + value + "}"@
}

/// The reply when an actuator refused a value.
pub open spec fn rejected_text(name: Seq<char>, value: Seq<char>) -> Seq<char> {
    error_text("actuator '"@ + name + "' rejected value "@ + value)
}

/// The reply when `actuator` has a value that does not parse.
pub open spec fn invalid_value_text(value: Seq<char>) -> Seq<char> {
    error_text("invalid actuator value: "@ + value)
}

/// The reply to a line that is no command.
pub open spec fn unknown_command_text(text: Seq<char>) -> Seq<char> {
    error_text("unknown command: "@ + text)
}

/// The reply to `actuator` without a name and a value.
pub open spec fn actuator_usage_text() -> Seq<char> {
    error_text("usage: actuator <name> <value>"@)
}

/// The reply to `alarm set` with too few words.
pub open spec fn alarm_set_usage_text() -> Seq<char> {
    error_text("usage: alarm set <id> <condition> <cooldown>"@)
}

/// How the value is written in the reply to setting an actuator: with fixed
/// decimals when accepted, in its shortest form when refused.
pub open spec fn set_decimals(accepted: bool) -> Option<usize> {
    if accepted {
        Some(VALUE_DECIMALS)
    } else {
        None
    }
}

/// `out` is the reply to setting actuator `name` to the parsed value `value`;
/// `explicit` tells the `actuator <name> <value>` form from `<name> <value>`.
pub open spec fn renders_set<V, A: Fn(V) -> bool, F: Fn(V, Option<usize>) -> String>(
    actuators: Seq<ActuatorSpec<A>>,
    name: Seq<char>,
    value: V,
    format_value: F,
    explicit: bool,
    out: Seq<char>,
) -> bool {
    match actuator_index(actuators, name) {
        None => out == error_text(unknown_actuator_text(name)),
        Some(k) => exists|accepted: bool, text: Seq<char>|
            {
                &&& #[trigger] call_ensures(actuators[k].callback, (value,), accepted)
                &&& #[trigger] formats(
                    format_value,
                    value,
                    set_decimals(accepted),
                    text,
                )
                &&& out == (if accepted && explicit {
                    actuator_ack_text(name, text)
                } else if accepted {
                    ack_text(name, text)
                } else {
                    rejected_text(name, text)
                })
            },
    }
}

/// `out` is the reply to setting actuator `name` from the text `value_text`;
/// `invalid` is the reply when that text does not parse as a value.
pub open spec fn renders_set_text<V, A: Fn(V) -> bool, P: Fn(&str) -> Option<V>, F: Fn(V, Option<usize>) -> String>(
    actuators: Seq<ActuatorSpec<A>>,
    name: Seq<char>,
    value_text: Seq<char>,
    parse_value: P,
    format_value: F,
    explicit: bool,
    invalid: Seq<char>,
    out: Seq<char>,
) -> bool {
    exists|s: &str, parsed: Option<V>|
        {
            &&& s@ == value_text
            &&& #[trigger] call_ensures(parse_value, (s,), parsed)
            &&& match parsed {
                None => out == invalid,
                Some(v) => renders_set(actuators, name, v, format_value, explicit, out),
            }
        }
}

/// The engine `after` and the reply `out` are what `command` leads to from
/// the engine `before`, with readings taken at `timestamp`, values parsed by
/// `parse_value` and formatted by `format_value`.
pub open spec fn handled<V, S: Fn() -> V, A: Fn(V) -> bool, C: Fn(&[(String, V)]) -> bool, P: Fn(&str) -> Option<V>, F: Fn(V, Option<usize>) -> String>(
    before: PlatoEngine<V, S, A, C>,
    after: PlatoEngine<V, S, A, C>,
    command: CommandView,
    timestamp: V,
    parse_value: P,
    format_value: F,
    out: Seq<char>,
) -> bool {
    match command {
        CommandView::Tick => {
            &&& PlatoEngine::ticked(before, after, timestamp)
            &&& renders_tick(after.history@.last(), format_value, out)
        },
        CommandView::Subscribe => after == (PlatoEngine { streaming: true, ..before }) && out == "subscribed"@,
        CommandView::Unsubscribe => after == (PlatoEngine { streaming: false, ..before }) && out
            == "unsubscribed"@,
        _ => {
            &&& after == before
            &&& match command {
                CommandView::History { count } => renders_history(
                    last_n(before.history@, count as nat),
                    format_value,
                    out,
                ),
                CommandView::AlarmList => out == alarm_list_text(before.alarms@),
                CommandView::AlarmSet { id } => out == alarm_set_text(id),
                CommandView::AlarmSetUsage => out == alarm_set_usage_text(),
                CommandView::Actuator { name, value } => renders_set_text(
                    before.actuators@,
                    name,
                    value,
                    parse_value,
                    format_value,
                    true,
                    invalid_value_text(value),
                    out,
                ),
                CommandView::ActuatorUsage => out == actuator_usage_text(),
                CommandView::Help => out == help_text(),
                CommandView::Quit => out == bye_text(),
                CommandView::SetByName { name, value, text } => renders_set_text(
                    before.actuators@,
                    name,
                    value,
                    parse_value,
                    format_value,
                    false,
                    unknown_command_text(text),
                    out,
                ),
                CommandView::Unknown { text } => out == unknown_command_text(text),
                _ => false,
            }
        },
    }
}

/// What `handle` needs of the engine and the callbacks to run `command`.
pub open spec fn ready_for<V, S: Fn() -> V, A: Fn(V) -> bool, C: Fn(&[(String, V)]) -> bool, P: Fn(&str) -> Option<V>, F: Fn(V, Option<usize>) -> String>(
    engine: PlatoEngine<V, S, A, C>,
    command: CommandView,
    parse_value: P,
    format_value: F,
) -> bool {
    &&& engine.wf()
    &&& (command is Tick ==> engine.tick_ready())
    &&& (command is Actuator || command is SetByName) ==> forall|v: V| #[trigger] engine.actuators_ready(v)
    &&& forall|s: &str| #[trigger] call_requires(parse_value, (s,))
    &&& forall|v: V, d: Option<usize>| #[trigger] call_requires(format_value, (v, d))
}

/// The count `history` uses given its parts.
pub open spec fn history_count(parts: Seq<Seq<char>>) -> usize {
    if parts.len() >= 2 && parse_usize_spec(parts[1]) is Some {
        parse_usize_spec(parts[1])->0
    } else {
        DEFAULT_HISTORY_COUNT
    }
}

/// The command a line of text stands for.
pub open spec fn parse_spec(raw: Seq<char>) -> CommandView {
    let cmd = trimmed(raw);
    if cmd == "alarm list"@ {
        CommandView::AlarmList
    } else if cmd.len() >= 10 && cmd.subrange(0, 10) == "alarm set "@ {
        let w = words(cmd);
        if w.len() >= 4 {
            CommandView::AlarmSet { id: w[2] }
        } else {
            CommandView::AlarmSetUsage
        }
    } else {
        let parts = split3(cmd);
        let head = parts[0];
        if head == "tick"@ {
            CommandView::Tick
        } else if head == "history"@ {
            CommandView::History { count: history_count(parts) }
        } else if head == "actuator"@ {
            if parts.len() == 3 {
                CommandView::Actuator { name: parts[1], value: parts[2] }
            } else {
                CommandView::ActuatorUsage
            }
        } else if head == "subscribe"@ {
            CommandView::Subscribe
        } else if head == "unsubscribe"@ {
            CommandView::Unsubscribe
        } else if head == "help"@ {
            CommandView::Help
        } else if head == "quit"@ {
            CommandView::Quit
        } else if parts.len() >= 2 {
            CommandView::SetByName { name: head, value: parts[1], text: cmd }
        } else {
            CommandView::Unknown { text: cmd }
        }
    }
}

/// `reading_lines` looks only at the first `n` values.
proof fn lemma_reading_lines_prefix(names: Seq<Seq<char>>, v1: Seq<Seq<char>>, v2: Seq<Seq<char>>, n: int)
    requires
        n <= v1.len(),
        n <= v2.len(),
        forall|j: int| 0 <= j < n ==> v1[j] == v2[j],
    ensures
        reading_lines(names, v1, n) == reading_lines(names, v2, n),
    decreases n,
{
    if n > 0 {
        lemma_reading_lines_prefix(names, v1, v2, n - 1);
    }
}

/// `tick_blocks` looks only at the first `n` texts.
proof fn lemma_tick_blocks_prefix(t1: Seq<Seq<char>>, t2: Seq<Seq<char>>, n: int)
    requires
        n <= t1.len(),
        n <= t2.len(),
        forall|j: int| 0 <= j < n ==> t1[j] == t2[j],
    ensures
        tick_blocks(t1, n) == tick_blocks(t2, n),
    decreases n,
{
    if n > 0 {
        lemma_tick_blocks_prefix(t1, t2, n - 1);
    }
}

/// Whitespace around a command does not change it: a line and its trimmed
/// form stand for the same command.
pub proof fn lemma_parse_ignores_surrounding_whitespace(raw: Seq<char>)
    ensures
        parse_spec(trimmed(raw)) == parse_spec(raw),
{
    lemma_trim_idempotent(raw);
}

/// `find_char` runs to the end when `c` does not occur from `from` on.
proof fn lemma_find_absent(s: Seq<char>, c: char, from: int)
    requires
        0 <= from <= s.len(),
        forall|i: int| from <= i < s.len() ==> s[i] != c,
    ensures
        find_char(s, c, from) == s.len(),
    decreases s.len() - from,
{
    if from < s.len() {
        lemma_find_absent(s, c, from + 1);
    }
}

/// The count word of the text after `history `: the text without its
/// trailing whitespace, up to its first space.
pub open spec fn count_word(rest: Seq<char>) -> Seq<char> {
    let t = rest.subrange(0, back_ws(rest, 0, rest.len() as int));
    t.subrange(0, find_char(t, ' ', 0))
}

/// Trailing whitespace of `rest` is found at the same place once a prefix is put before it.
proof fn lemma_back_ws_shift(prefix: Seq<char>, rest: Seq<char>, j: int)
    requires
        0 <= j <= rest.len(),
    ensures
        back_ws(prefix + rest, prefix.len() as int, prefix.len() + j) == prefix.len() + back_ws(rest, 0, j),
    decreases j,
{
    let s = prefix + rest;
    if j > 0 {
        assert(s[prefix.len() + j - 1] == rest[j - 1]);
        lemma_back_ws_shift(prefix, rest, j - 1);
    }
}

/// `find_char` in `prefix + rest` past the prefix is `find_char` in `rest`, shifted.
proof fn lemma_find_shift(prefix: Seq<char>, rest: Seq<char>, c: char, i: int)
    requires
        0 <= i <= rest.len(),
    ensures
        find_char(prefix + rest, c, prefix.len() + i) == prefix.len() + find_char(rest, c, i),
    decreases rest.len() - i,
{
    if i < rest.len() {
        assert((prefix + rest)[prefix.len() + i] == rest[i]);
        lemma_find_shift(prefix, rest, c, i + 1);
    }
}

/// `history ` followed by any text asks for the count its count word gives,
/// or the default when that word does not parse.
proof fn lemma_history_line(rest: Seq<char>)
    ensures
        parse_spec("history "@ + rest) == (CommandView::History {
            count: match parse_usize_spec(count_word(rest)) {
                Some(n) => n,
                None => DEFAULT_HISTORY_COUNT,
            },
        }),
{
    reveal_strlit("history ");
    reveal_strlit("history");
    reveal_strlit("alarm list");
    reveal_strlit("alarm set ");
    reveal_strlit("tick");
    let prefix = "history "@;
    let line = prefix + rest;
    let word = "history"@;
    assert(line[0] == 'h');
    assert(skip_ws(line, 0) == 0);
    let bw = back_ws(rest, 0, rest.len() as int);
    lemma_back_ws_bounds(rest, 0, rest.len() as int);
    lemma_back_ws_shift(prefix, rest, rest.len() as int);
    lemma_back_ws_split(line, 0, 8, line.len() as int);
    let t = rest.subrange(0, bw);
    let cmd = trimmed(line);
    if bw > 0 {
        assert(back_ws(line, 0, line.len() as int) == 8 + bw);
        assert(cmd =~= prefix + t);
        assert(cmd[0] != "alarm list"@[0]);
        assert(cmd.len() >= 10 ==> cmd.subrange(0, 10)[0] != "alarm set "@[0]);
        assert(cmd[7] == ' ');
        assert forall|i: int| 0 <= i < 7 implies cmd[i] == word[i] by {}
        assert(find_char(cmd, ' ', 0) == 7) by {
            reveal_with_fuel(find_char, 9);
        }
        lemma_find_shift(prefix, t, ' ', 0);
        lemma_find_bounds(t, ' ', 0);
        let f = find_char(t, ' ', 0);
        let parts = split3(cmd);
        assert(parts[0] =~= word);
        assert(parts[0] != "tick"@);
        assert(parts[1] =~= t.subrange(0, f));
        assert(count_word(rest) == t.subrange(0, f));
    } else {
        assert(line[7] == ' ');
        assert(spec_is_whitespace(line[7]));
        assert(!spec_is_whitespace(line[6]));
        assert(back_ws(line, 0, 8) == back_ws(line, 0, 7));
        assert(back_ws(line, 0, 7) == 7);
        assert(cmd =~= word);
        assert(cmd[0] != "alarm list"@[0]);
        assert forall|i: int| 0 <= i < 7 implies cmd[i] != ' ' by {
            assert(cmd[i] == word[i]);
        }
        lemma_find_absent(cmd, ' ', 0);
        let parts = split3(cmd);
        assert(parts[0] =~= word);
        assert(parts[0] != "tick"@);
        assert(t =~= Seq::<char>::empty());
        assert(find_char(t, ' ', 0) == 0);
        assert(count_word(rest) =~= Seq::<char>::empty());
        assert(parse_usize_spec(count_word(rest)) is None);
    }
}

/// `history` followed by the decimal text of any count asks for that count.
pub proof fn lemma_history_decimal_count(n: usize)
    ensures
        parse_spec("history "@ + decimal(n as nat)) == (CommandView::History { count: n }),
{
    let d = decimal(n as nat);
    lemma_decimal_digits(n as nat);
    lemma_parse_decimal_round_trip(n);
    lemma_history_line(d);
    assert(!spec_is_whitespace(d[d.len() - 1]));
    assert(back_ws(d, 0, d.len() as int) == d.len());
    assert(d.subrange(0, d.len() as int) =~= d);
    assert forall|i: int| 0 <= i < d.len() implies d[i] != ' ' by {
        assert(!spec_is_whitespace(d[i]));
        assert(spec_is_whitespace(' '));
    }
    lemma_find_absent(d, ' ', 0);
    assert(count_word(d) =~= d);
}

/// Whitespace after a command, such as the line ending a client sends, does
/// not change the command.
pub proof fn lemma_parse_ignores_trailing_whitespace(line: Seq<char>, tail: Seq<char>)
    requires
        forall|j: int| 0 <= j < tail.len() ==> spec_is_whitespace(#[trigger] tail[j]),
    ensures
        parse_spec(line + tail) == parse_spec(line),
{
    lemma_trim_ignores_trailing_whitespace(line, tail);
}

/// A command ended by CR LF, or by a tab, is the same command.
pub proof fn lemma_parse_ignores_line_ending(line: Seq<char>)
    ensures
        parse_spec(line + "\r\n"@) == parse_spec(line),
        parse_spec(line + "\n"@) == parse_spec(line),
        parse_spec(line + "\t"@) == parse_spec(line),
{
    reveal_strlit("\r\n");
    reveal_strlit("\n");
    reveal_strlit("\t");
    assert(('\r' as u32) == 13 && ('\n' as u32) == 10 && ('\t' as u32) == 9);
    lemma_parse_ignores_trailing_whitespace(line, "\r\n"@);
    lemma_parse_ignores_trailing_whitespace(line, "\n"@);
    lemma_parse_ignores_trailing_whitespace(line, "\t"@);
}

/// `history` with no count, or with a count word that does not parse as a
/// `usize`, asks for the same ten ticks as `history 10`: all three lines stand
/// for the same command, so they get the same reply and leave the engine alike.
/// The count word is the text after `history ` without its trailing
/// whitespace, up to its first space; `history 5 x` and `history 5\t` ask for 5.
pub proof fn lemma_history_default_count(count_text: Seq<char>)
    requires
        parse_usize_spec(count_word(count_text)) is None,
    ensures
        parse_spec("history"@) == (CommandView::History { count: DEFAULT_HISTORY_COUNT }),
        parse_spec("history 10"@) == (CommandView::History { count: DEFAULT_HISTORY_COUNT }),
        parse_spec("history "@ + count_text) == (CommandView::History { count: DEFAULT_HISTORY_COUNT }),
{
    reveal_strlit("history ");
    reveal_strlit("history");
    reveal_strlit("history 10");
    reveal_strlit("10");
    lemma_history_line(count_text);
    lemma_history_line(Seq::empty());
    assert("history "@ + Seq::<char>::empty() =~= "history "@);
    let ten = "10"@;
    assert("history "@ + ten =~= "history 10"@);
    lemma_history_line(ten);
    assert(!spec_is_whitespace(ten[1]));
    assert(back_ws(ten, 0, 2) == 2);
    assert(ten.subrange(0, 2) =~= ten);
    assert(find_char(ten, ' ', 0) == 2) by {
        reveal_with_fuel(find_char, 3);
    }
    assert(count_word(ten) =~= ten);
    assert(unsigned_part(ten) =~= ten);
    assert(all_digits(ten));
    assert(ten.drop_last().len() == 1);
    assert(ten.drop_last().last() == '1');
    assert(('1' as u32) == 49);
    assert(('0' as u32) == 48);
    assert(digits_value(ten.drop_last().drop_last()) == 0);
    assert(digits_value(ten.drop_last()) == 1);
    assert(digits_value(ten) == 10);
    // the bare word parses like `history ` followed by nothing
    assert(trimmed("history "@) =~= trimmed("history"@)) by {
        let a = "history "@;
        let b = "history"@;
        assert(!spec_is_whitespace(a[0]) && !spec_is_whitespace(b[0]));
        assert(skip_ws(a, 0) == 0 && skip_ws(b, 0) == 0);
        assert(spec_is_whitespace(a[7]));
        assert(!spec_is_whitespace(a[6]));
        assert(back_ws(a, 0, 8) == back_ws(a, 0, 7));
        assert(back_ws(a, 0, 7) == 7);
        assert(back_ws(b, 0, 7) == 7);
    }
}

/// The whitespace-separated words of `text`, whose characters are `cs`.
pub fn words_of(text: &str, cs: &Vec<char>) -> (res: Vec<String>)
    requires
        cs@ == text@,
    ensures
        res@.map_values(|s: String| s@) == words(cs@),
{
    let n = cs.len();
    let mut res: Vec<String> = Vec::new();
    let mut in_word = false;
    let mut start: usize = 0;
    let mut i: usize = 0;
    assert(res@.map_values(|s: String| s@) =~= Seq::<Seq<char>>::empty());
    while i < n
        invariant
            n == cs@.len(),
            cs@ == text@,
            i <= n,
            start <= i,
            words(cs@) == words_from(
                cs@,
                i as int,
                if in_word { cs@.subrange(start as int, i as int) } else { Seq::empty() },
                res@.map_values(|s: String| s@),
            ),
            in_word ==> start < i,
        decreases n - i,
    {
        let ghost acc = res@.map_values(|s: String| s@);
        if is_whitespace(cs[i]) {
            if in_word {
                let w = text.substring_char(start, i).to_owned();
                res.push(w);
                proof {
                    assert(res@.map_values(|s: String| s@) =~= acc.push(cs@.subrange(start as int, i as int)));
                }
            }
            in_word = false;
        } else {
            if !in_word {
                start = i;
                in_word = true;
                proof {
                    assert(Seq::<char>::empty().push(cs@[i as int]) =~= cs@.subrange(start as int, i + 1));
                }
            } else {
                proof {
                    assert(cs@.subrange(start as int, i as int).push(cs@[i as int]) =~= cs@.subrange(start as int, i + 1));
                }
            }
        }
        i = i + 1;
    }
    if in_word {
        let ghost acc = res@.map_values(|s: String| s@);
        let w = text.substring_char(start, n).to_owned();
        res.push(w);
        proof {
            assert(res@.map_values(|s: String| s@) =~= acc.push(cs@.subrange(start as int, n as int)));
        }
    }
    res
}

/// Handles text protocol commands for a `PlatoEngine`.
pub struct ProtocolHandler;

impl ProtocolHandler {
    /// The text of one tick: `tick <index> @ <time>s`, then `  <name> = <value>`
    /// for each reading.
    pub fn format_tick<V: Copy, F: Fn(V, Option<usize>) -> String>(tick: &Tick<V>, format_value: &F) -> (res: String)
        requires
            forall|v: V, d: Option<usize>| call_requires(*format_value, (v, d)),
        ensures
            renders_tick(*tick, *format_value, res@),
    {
        let mut out = "tick ".to_owned();
        push_decimal(&mut out, tick.index);
        out.append(" @ ");
        let time = format_value(tick.timestamp, Some(TIME_DECIMALS));
        out.append(time.as_str());
        out.append("s");
        let ghost head = out@;
        let ghost names = reading_names(tick.data@);
        let ghost mut values: Seq<Seq<char>> = Seq::empty();
        let mut i: usize = 0;
        while i < tick.data.len()
            invariant
                forall|v: V, d: Option<usize>| call_requires(*format_value, (v, d)),
                i <= tick.data@.len(),
                names == reading_names(tick.data@),
                values.len() == i,
                forall|j: int|
                    0 <= j < i ==> formats(*format_value, tick.data@[j].1, Some(VALUE_DECIMALS), #[trigger] values[j]),
                out@ == head + reading_lines(names, values, i as int),
            decreases tick.data@.len() - i,
        {
            out.append("\n  ");
            out.append(tick.data[i].0.as_str());
            out.append(" = ");
            let v = format_value(tick.data[i].1, Some(VALUE_DECIMALS));
            out.append(v.as_str());
            proof {
                let old_values = values;
                values = values.push(v@);
                assert(formats(*format_value, tick.data@[i as int].1, Some(VALUE_DECIMALS), v@));
                assert forall|j: int| 0 <= j < i + 1 implies formats(*format_value, tick.data@[j].1, Some(VALUE_DECIMALS), #[trigger] values[j]) by {
                    if j < i {
                        assert(values[j] == old_values[j]);
                    }
                }
                assert(reading_lines(names, values, i as int) == reading_lines(names, old_values, i as int)) by {
                    lemma_reading_lines_prefix(names, values, old_values, i as int);
                }
                assert(names[i as int] == tick.data@[i as int].0@);
                assert(out@ =~= head + reading_lines(names, values, i + 1));
            }
            i = i + 1;
        }
        proof {
            assert(formats(*format_value, tick.timestamp, Some(TIME_DECIMALS), time@));
            assert(out@ =~= tick_text(tick.index, time@, names, values));
        }
        out
    }

    /// The reply to `history`: `history <count>`, then each tick's text.
    pub fn format_history<V: Copy, F: Fn(V, Option<usize>) -> String>(ticks: &Vec<&Tick<V>>, format_value: &F) -> (res: String)
        requires
            forall|v: V, d: Option<usize>| call_requires(*format_value, (v, d)),
        ensures
            renders_history(ticks@.map_values(|t: &Tick<V>| *t), *format_value, res@),
    {
        let ghost seq = ticks@.map_values(|t: &Tick<V>| *t);
        let mut out = "history ".to_owned();
        push_decimal(&mut out, ticks.len() as u64);
        let ghost head = out@;
        let ghost mut texts: Seq<Seq<char>> = Seq::empty();
        let mut i: usize = 0;
        while i < ticks.len()
            invariant
                forall|v: V, d: Option<usize>| call_requires(*format_value, (v, d)),
                seq == ticks@.map_values(|t: &Tick<V>| *t),
                i <= ticks@.len(),
                texts.len() == i,
                forall|j: int| 0 <= j < i ==> renders_tick(seq[j], *format_value, #[trigger] texts[j]),
                out@ == head + tick_blocks(texts, i as int),
            decreases ticks@.len() - i,
        {
            out.append("\n");
            let t = Self::format_tick(ticks[i], format_value);
            out.append(t.as_str());
            proof {
                let old_texts = texts;
                texts = texts.push(t@);
                assert forall|j: int| 0 <= j < i + 1 implies renders_tick(seq[j], *format_value, #[trigger] texts[j]) by {
                    if j < i {
                        assert(texts[j] == old_texts[j]);
                    }
                }
                assert(tick_blocks(texts, i as int) == tick_blocks(old_texts, i as int)) by {
                    lemma_tick_blocks_prefix(texts, old_texts, i as int);
                }
                assert(out@ =~= head + tick_blocks(texts, i + 1));
            }
            i = i + 1;
        }
        out
    }

    /// The reply to `alarm list`: an `alarm_list` object with one entry per
    /// alarm rule, giving its name, cooldown and state.
    pub fn format_alarm_list<C>(alarms: &Vec<AlarmRule<C>>) -> (res: String)
        ensures
            res@ == alarm_list_text(alarms@),
    {
        let mut out = "{\"type\":\"alarm_list\",\"alarms\":[".to_owned();
        let ghost head = out@;
        let mut i: usize = 0;
        while i < alarms.len()
            invariant
                i <= alarms@.len(),
                out@ == head + alarm_entries(alarms@, i as int),
            decreases alarms@.len() - i,
        {
            if i > 0 {
                out.append(",");
            }
            out.append("{\"id\":\"");
            out.append(alarms[i].name.as_str());
            out.append("\",\"condition\":\"\",\"cooldown_sec\":");
            push_decimal(&mut out, alarms[i].cooldown_ticks);
            out.append(",\"last_triggered\":null,\"state\":\"");
            let word = match alarms[i].state {
                AlarmState::Idle => "idle",
                AlarmState::Active { .. } => "active",
                AlarmState::Cooldown { .. } => "cooldown",
            };
            out.append(word);
            out.append("\"}");
            proof {
                assert(word@ == state_word(alarms@[i as int].state));
                assert(out@ =~= head + alarm_entries(alarms@, i + 1));
            }
            i = i + 1;
        }
        out.append("]}");
        out
    }

    /// The reply to a well-formed `alarm set`: an acknowledgement naming the id.
    pub fn handle_alarm_set(id: &str) -> (res: String)
        ensures
            res@ == alarm_set_text(id@),
    {
        let mut out = "{\"type\":\"ack\",\"command\":\"alarm_set\",\"id\":\"".to_owned();
        out.append(id);
        out.append("\"}");
        out
    }

    /// An error reply carrying `message`.
    fn error_reply(message: &str) -> (res: String)
        ensures
            res@ == error_text(message@),
    {
        let mut out = "{\"type\":\"error\",\"message\":\"".to_owned();
        out.append(message);
        out.append("\"}");
        out
    }

    /// Parse `value_text` and hand the value to actuator `name`; `invalid` is
    /// the reply when the text does not parse, and `explicit` tells the
    /// `actuator <name> <value>` form from `<name> <value>`.
    fn set_from_text<V: Copy, S, A: Fn(V) -> bool, C, P: Fn(&str) -> Option<V>, F: Fn(V, Option<usize>) -> String>(
        engine: &mut PlatoEngine<V, S, A, C>,
        name: &str,
        value_text: &str,
        parse_value: &P,
        format_value: &F,
        explicit: bool,
        invalid: String,
    ) -> (res: String)
        requires
            forall|v: V| #[trigger] old(engine).actuators_ready(v),
            forall|s: &str| #[trigger] call_requires(*parse_value, (s,)),
            forall|v: V, d: Option<usize>| #[trigger] call_requires(*format_value, (v, d)),
        ensures
            *final(engine) == *old(engine),
            renders_set_text(
                old(engine).actuators@,
                name@,
                value_text@,
                *parse_value,
                *format_value,
                explicit,
                invalid@,
                res@,
            ),
    {
        let parsed = parse_value(value_text);
        match parsed {
            None => invalid,
            Some(value) => {
                assert(engine.actuators_ready(value));
                match engine.set_actuator(name, value) {
                    Ok(accepted) => {
                        if accepted && explicit {
                            let text = format_value(value, Some(VALUE_DECIMALS));
                            let mut out = "{\"type\":\"ack\",\"command\":\"actuator\",\"name\":\"".to_owned();
                            out.append(name);
                            out.append("\",\"value\":");
                            out.append(text.as_str());
                            out.append("}");
                            proof {
                                assert(formats(*format_value, value, set_decimals(accepted), text@));
                            }
                            out
                        } else if accepted {
                            let text = format_value(value, Some(VALUE_DECIMALS));
                            let mut out = name.to_owned();
                            out.append(" ← ");
                            out.append(text.as_str());
                            proof {
                                assert(formats(*format_value, value, set_decimals(accepted), text@));
                            }
                            out
                        } else {
                            let text = format_value(value, None);
                            let mut msg = "actuator '".to_owned();
                            msg.append(name);
                            msg.append("' rejected value ");
                            msg.append(text.as_str());
                            proof {
                                assert(formats(*format_value, value, set_decimals(accepted), text@));
                            }
                            let out = Self::error_reply(msg.as_str());
                            proof {
                                assert(out@ =~= rejected_text(name@, text@));
                            }
                            out
                        }
                    },
                    Err(e) => Self::error_reply(e.as_str()),
                }
            },
        }
    }

    /// Parse and execute a text command against the engine, returning the reply.
    /// Readings taken by `tick` carry `timestamp`; actuator values are parsed
    /// by `parse_value` and values are written by `format_value`, with the
    /// given number of decimal places or, for `None`, in their shortest form.
    pub fn handle<V: Copy, S: Fn() -> V, A: Fn(V) -> bool, C: Fn(&[(String, V)]) -> bool, P: Fn(&str) -> Option<V>, F: Fn(V, Option<usize>) -> String>(
        engine: &mut PlatoEngine<V, S, A, C>,
        command: &str,
        timestamp: V,
        parse_value: P,
        format_value: F,
    ) -> (res: String)
        requires
            ready_for(*old(engine), parse_spec(command@), parse_value, format_value),
        ensures
            final(engine).wf(),
            handled(
                *old(engine),
                *final(engine),
                parse_spec(command@),
                timestamp,
                parse_value,
                format_value,
                res@,
            ),
    {
        let cmd = Self::parse(command);
        match cmd {
            Command::Tick => {
                let tick = engine.tick(timestamp);
                Self::format_tick(tick, &format_value)
            },
            Command::History { count } => {
                let ticks = engine.history(count);
                proof {
                    assert(ticks@.map_values(|t: &Tick<V>| *t) =~= last_n(engine.history@, count as nat));
                }
                Self::format_history(&ticks, &format_value)
            },
            Command::Actuator { name, value } => {
                let mut msg = "invalid actuator value: ".to_owned();
                msg.append(value.as_str());
                let invalid = Self::error_reply(msg.as_str());
                Self::set_from_text(engine, name.as_str(), value.as_str(), &parse_value, &format_value, true, invalid)
            },
            Command::ActuatorUsage => Self::error_reply("usage: actuator <name> <value>"),
            Command::Subscribe => {
                engine.subscribe();
                "subscribed".to_owned()
            },
            Command::Unsubscribe => {
                engine.unsubscribe();
                "unsubscribed".to_owned()
            },
            Command::Help => Self::format_help(),
            Command::Quit => "{\"type\":\"bye\"}".to_owned(),
            Command::AlarmList => Self::format_alarm_list(&engine.alarms),
            Command::AlarmSet { id } => Self::handle_alarm_set(id.as_str()),
            Command::AlarmSetUsage => Self::error_reply("usage: alarm set <id> <condition> <cooldown>"),
            Command::SetByName { name, value, text } => {
                let mut msg = "unknown command: ".to_owned();
                msg.append(text.as_str());
                let unknown = Self::error_reply(msg.as_str());
                Self::set_from_text(engine, name.as_str(), value.as_str(), &parse_value, &format_value, false, unknown)
            },
            Command::Unknown { text } => {
                let mut msg = "unknown command: ".to_owned();
                msg.append(text.as_str());
                Self::error_reply(msg.as_str())
            },
        }
    }

    /// The command reference, as a `help` object.
    pub fn format_help() -> (res: String)
        ensures
            res@ == help_text(),
    {
        "{\"type\":\"help\",\"commands\":[\"tick\",\"history [N]\",\"actuator <name> <value>\",\"alarm list\",\"alarm set <id> <condition> <cooldown>\",\"subscribe\",\"unsubscribe\",\"help\",\"quit\"]}".to_owned()
    }

    /// Parse a line of text into a command.
    pub fn parse(command: &str) -> (res: Command)
        ensures
            res@ == parse_spec(command@),
    {
        let all = chars_of(command);
        let a = skip_whitespace(&all, 0);
        let b = back_whitespace(&all, a, all.len());
        let text = command.substring_char(a, b);
        let cs = chars_of(text);
        let n = cs.len();
        let ghost cmd = cs@;
        assert(cmd == trimmed(command@));
        if range_is(&cs, 0, n, "alarm list") {
            assert(cs@.subrange(0, n as int) =~= cs@);
            return Command::AlarmList;
        }
        assert(cs@.subrange(0, n as int) =~= cs@);
        if n >= 10 && range_is(&cs, 0, 10, "alarm set ") {
            let w = words_of(text, &cs);
            if w.len() >= 4 {
                let id = w[2].clone();
                proof {
                    assert(w@.map_values(|s: String| s@)[2] == w@[2]@);
                }
                return Command::AlarmSet { id };
            }
            return Command::AlarmSetUsage;
        }
        let i1 = find_in(&cs, ' ', 0);
        let has1 = i1 < n;
        let i2 = if has1 { find_in(&cs, ' ', i1 + 1) } else { n };
        let has2 = has1 && i2 < n;
        let ghost parts = split3(cmd);
        proof {
            if !has1 {
                assert(parts[0] =~= cs@.subrange(0, i1 as int));
            }
            assert(parts[0] == cs@.subrange(0, i1 as int));
            assert(parts.len() >= 2 <==> has1);
            assert(parts.len() == 3 <==> has2);
            if has1 {
                assert(parts[1] == cs@.subrange(i1 + 1, i2 as int));
            }
            if has2 {
                assert(parts[2] == cs@.subrange(i2 + 1, n as int));
            }
        }
        if range_is(&cs, 0, i1, "tick") {
            Command::Tick
        } else if range_is(&cs, 0, i1, "history") {
            let count = if has1 {
                match parse_usize(&cs, i1 + 1, i2) {
                    Some(v) => v,
                    None => DEFAULT_HISTORY_COUNT,
                }
            } else {
                DEFAULT_HISTORY_COUNT
            };
            Command::History { count }
        } else if range_is(&cs, 0, i1, "actuator") {
            if has2 {
                let name = text.substring_char(i1 + 1, i2).to_owned();
                let value = text.substring_char(i2 + 1, n).to_owned();
                Command::Actuator { name, value }
            } else {
                Command::ActuatorUsage
            }
        } else if range_is(&cs, 0, i1, "subscribe") {
            Command::Subscribe
        } else if range_is(&cs, 0, i1, "unsubscribe") {
            Command::Unsubscribe
        } else if range_is(&cs, 0, i1, "help") {
            Command::Help
        } else if range_is(&cs, 0, i1, "quit") {
            Command::Quit
        } else if has1 {
            let name = text.substring_char(0, i1).to_owned();
            let value = text.substring_char(i1 + 1, i2).to_owned();
            let whole = text.to_owned();
            Command::SetByName { name, value, text: whole }
        } else {
            Command::Unknown { text: text.to_owned() }
        }
    }
}

} // verus!
