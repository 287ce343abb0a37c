use plato_engine_block::alarm::AlarmRule;
use plato_engine_block::engine::PlatoEngineBuilder;
use plato_engine_block::protocol::Command;
use plato_engine_block::text::{chars_of, is_whitespace, parse_usize, push_decimal, same_text};
use plato_engine_block::{ActuatorSpec, AlarmState, HistoryBuffer, PlatoEngine, ProtocolHandler, SensorSpec, Tick};

type SensorFn = Box<dyn Fn() -> f64 + Send + Sync>;
type ActuatorFn = Box<dyn Fn(f64) -> bool + Send + Sync>;
type AlarmCondition = Box<dyn Fn(&[(String, f64)]) -> bool + Send + Sync>;
type Engine = PlatoEngine<f64, SensorFn, ActuatorFn, AlarmCondition>;

fn now(engine: &Engine) -> f64 {
    engine.start_time + engine.tick_index as f64 / engine.tick_hz.max(0.001)
}

fn parse_value(text: &str) -> Option<f64> {
    text.parse::<f64>().ok()
}

fn format_value(value: f64, decimals: Option<usize>) -> String {
    match decimals {
        Some(d) => format!("{:.*}", d, value),
        None => format!("{}", value),
    }
}

fn command(engine: &mut Engine, line: &str) -> String {
    let ts = now(engine);
    engine.handle_command(line, ts, parse_value, format_value)
}

fn room() -> Engine {
    Engine::builder()
        .sensor("temp", Box::new(|| 22.5))
        .sensor("humidity", Box::new(|| 45.0))
        .actuator("heater", Box::new(|v| v > 0.0 && v < 100.0))
        .alarm("overheat", Box::new(|data| data.iter().any(|(n, v)| n == "temp" && *v > 20.0)), 5)
        .tick_hz(10.0)
        .history_capacity(50)
        .build()
}

fn items(h: &HistoryBuffer<u32>, n: usize) -> Vec<u32> {
    h.query(n).into_iter().copied().collect()
}

#[test]
fn history_keeps_most_recent_items() {
    let mut h = HistoryBuffer::new(3);
    for i in 0..7u32 {
        h.push(i);
    }
    assert_eq!(h.len(), 3);
    assert_eq!(items(&h, 10), vec![4, 5, 6]);
    assert_eq!(items(&h, 2), vec![5, 6]);
    assert_eq!(h.latest(), Some(&6));
}

#[test]
fn history_capacity_one() {
    let mut h = HistoryBuffer::new(1);
    h.push(7u32);
    h.push(8u32);
    assert_eq!(items(&h, 5), vec![8]);
    assert_eq!(h.latest(), Some(&8));
    assert_eq!(h.capacity(), 1);
}

#[test]
fn history_empty_and_zero_capacity() {
    let h: HistoryBuffer<u32> = HistoryBuffer::new(0);
    assert!(h.is_empty());
    assert_eq!(h.latest(), None);
    assert!(items(&h, 4).is_empty());
    let h2: HistoryBuffer<u32> = HistoryBuffer::new(4);
    assert!(h2.is_empty());
    assert_eq!(h2.len(), 0);
}

#[test]
fn history_before_wrapping() {
    let mut h = HistoryBuffer::new(5);
    h.push(1u32);
    h.push(2u32);
    assert!(!h.is_empty());
    assert_eq!(items(&h, 0), Vec::<u32>::new());
    assert_eq!(items(&h, 1), vec![2]);
    assert_eq!(items(&h, 9), vec![1, 2]);
}

#[test]
fn alarm_full_cycle() {
    let mut a = AlarmRule::new("x", (), 5);
    assert!(a.step(true, 0));
    assert_eq!(a.state, AlarmState::Active { since_tick: 0 });
    assert_eq!(a.last_fired_tick, 0);
    assert!(!a.step(true, 1));
    assert_eq!(a.state, AlarmState::Active { since_tick: 0 });
    assert!(!a.step(false, 2));
    assert_eq!(a.state, AlarmState::Cooldown { until_tick: 7 });
    assert!(!a.step(true, 6));
    assert_eq!(a.state, AlarmState::Cooldown { until_tick: 7 });
    assert!(a.step(true, 7));
    assert_eq!(a.state, AlarmState::Active { since_tick: 7 });
    assert_eq!(a.last_fired_tick, 7);
    assert!(!a.step(false, 8));
    assert!(!a.step(false, 13));
    assert_eq!(a.state, AlarmState::Idle);
    assert!(a.step(true, 14));
}

#[test]
fn alarm_fires_more_than_cooldown_apart() {
    let mut a = AlarmRule::new("x", (), 3);
    let outcomes = [true, false, true, true, true, false, false, true, true, false, true];
    let mut fires = Vec::new();
    for (t, trig) in outcomes.iter().enumerate() {
        if a.step(*trig, t as u64) {
            fires.push(t as u64);
        }
    }
    assert_eq!(fires, vec![0, 4, 8]);
    for w in fires.windows(2) {
        assert!(w[1] > w[0] + 3);
    }
}

#[test]
fn alarm_evaluate_and_reset() {
    let cond = |data: &[(String, f64)]| data.iter().any(|(_, v)| *v > 1.0);
    let mut a = AlarmRule::new("hot", cond, 2);
    let low = vec![("t".to_string(), 0.5)];
    let high = vec![("t".to_string(), 3.0)];
    assert!(!a.evaluate(&low, 0));
    assert_eq!(a.state, AlarmState::Idle);
    assert!(a.evaluate(&high, 1));
    assert_eq!(a.last_fired_tick, 1);
    a.reset();
    assert_eq!(a.state, AlarmState::Idle);
    assert_eq!(a.last_fired_tick, 1);
    assert_eq!(a.name, "hot");
    assert_eq!(a.cooldown_ticks, 2);
}

#[test]
fn tick_reads_sensors_in_order() {
    let sensors = vec![
        SensorSpec::new("a", Box::new(|| 1.0) as SensorFn),
        SensorSpec::new("b", Box::new(|| 2.0) as SensorFn),
        SensorSpec::new("a", Box::new(|| 3.0) as SensorFn),
    ];
    let t = Tick::from_sensors(9, 4.5, &sensors);
    assert_eq!(t.index, 9);
    assert_eq!(t.timestamp, 4.5);
    let names: Vec<&str> = t.data.iter().map(|(n, _)| n.as_str()).collect();
    assert_eq!(names, vec!["a", "b", "a"]);
    assert_eq!(t.get("a"), Some(1.0));
    assert_eq!(t.get("b"), Some(2.0));
    assert_eq!(t.get("c"), None);
}

#[test]
fn actuator_spec_reports_callback_result() {
    let act = ActuatorSpec::new("valve", |v: f64| v >= 0.0);
    assert_eq!(act.name, "valve");
    assert!(act.set(1.0));
    assert!(!act.set(-1.0));
}

#[test]
fn engine_set_actuator_first_match_and_error() {
    let mut engine = Engine::builder()
        .actuator("pump", Box::new(|_| true))
        .actuator("pump", Box::new(|_| false))
        .build();
    assert_eq!(engine.set_actuator("pump", 3.0), Ok(true));
    assert_eq!(engine.set_actuator("nope", 3.0), Err("unknown actuator: nope".to_string()));
}

#[test]
fn engine_alarm_fires_cover_last_tick_only() {
    let mut engine = room();
    let ts = now(&engine);
    engine.tick(ts);
    assert_eq!(engine.alarm_fires, vec!["overheat".to_string()]);
    let ts = now(&engine);
    engine.tick(ts);
    assert!(engine.alarm_fires.is_empty());
    assert_eq!(engine.alarms[0].state, AlarmState::Active { since_tick: 0 });
}

#[test]
fn engine_tick_records_timestamp_and_index() {
    let mut engine = room();
    let t = engine.tick(12.25);
    assert_eq!(t.index, 0);
    assert_eq!(t.timestamp, 12.25);
    let t = engine.tick(12.5);
    assert_eq!(t.index, 1);
    assert_eq!(engine.tick_index, 2);
    assert_eq!(engine.latest().unwrap().timestamp, 12.5);
}

#[test]
fn engine_history_indices_consecutive_after_wrap() {
    let mut engine = Engine::builder().sensor("x", Box::new(|| 0.0)).history_capacity(4).build();
    for _ in 0..11 {
        let ts = now(&engine);
        engine.tick(ts);
    }
    let idx: Vec<u64> = engine.history(100).iter().map(|t| t.index).collect();
    assert_eq!(idx, vec![7, 8, 9, 10]);
}

#[test]
fn builder_rate_rules() {
    let e = Engine::builder().tick_hz(-3.0).build();
    assert_eq!(e.tick_hz, 1.0);
    let e = Engine::builder().tick_hz(f64::NAN).build();
    assert_eq!(e.tick_hz, 1.0);
    let e = Engine::builder().tick_hz(0.5).history_capacity(0).build();
    assert_eq!(e.tick_hz, 0.5);
    assert_eq!(e.history.capacity(), 100);
    assert_eq!(e.start_time, 0.0);
    assert_eq!(e.tick_index, 0);
    assert!(!e.streaming);
    let b: PlatoEngineBuilder<f64, SensorFn, ActuatorFn, AlarmCondition> = PlatoEngineBuilder::new();
    assert_eq!(b.build().history.capacity(), 100);
}

#[test]
fn protocol_tick_text() {
    let mut engine = room();
    let resp = command(&mut engine, "tick");
    assert_eq!(resp, "tick 0 @ 0.000s\n  temp = 22.5000\n  humidity = 45.0000");
    let resp = command(&mut engine, " tick ");
    assert_eq!(resp, "tick 1 @ 0.100s\n  temp = 22.5000\n  humidity = 45.0000");
}

#[test]
fn protocol_history_texts() {
    let mut engine = Engine::builder().sensor("x", Box::new(|| 1.0)).build();
    assert_eq!(command(&mut engine, "history"), "history 0");
    for _ in 0..12 {
        command(&mut engine, "tick");
    }
    let resp = command(&mut engine, "history");
    assert!(resp.starts_with("history 10\ntick 2 @ 2.000s"));
    assert!(resp.ends_with("tick 11 @ 11.000s\n  x = 1.0000"));
    assert!(command(&mut engine, "history abc").starts_with("history 10\n"));
    assert_eq!(command(&mut engine, "history +1"), "history 1\ntick 11 @ 11.000s\n  x = 1.0000");
    assert_eq!(command(&mut engine, "history 0"), "history 0");
}

#[test]
fn protocol_actuator_replies() {
    let mut engine = room();
    assert_eq!(
        command(&mut engine, "actuator heater 50"),
        r#"{"type":"ack","command":"actuator","name":"heater","value":50.0000}"#
    );
    assert_eq!(command(&mut engine, "heater 50"), "heater ← 50.0000");
    assert_eq!(
        command(&mut engine, "actuator heater -5"),
        r#"{"type":"error","message":"actuator 'heater' rejected value -5"}"#
    );
    assert_eq!(
        command(&mut engine, "actuator heater 100.5"),
        r#"{"type":"error","message":"actuator 'heater' rejected value 100.5"}"#
    );
    assert_eq!(command(&mut engine, "actuator heater abc"), r#"{"type":"error","message":"invalid actuator value: abc"}"#);
    assert_eq!(command(&mut engine, "actuator nope 1"), r#"{"type":"error","message":"unknown actuator: nope"}"#);
    assert_eq!(command(&mut engine, "actuator heater"), r#"{"type":"error","message":"usage: actuator <name> <value>"}"#);
    assert_eq!(command(&mut engine, "heater abc"), r#"{"type":"error","message":"unknown command: heater abc"}"#);
    assert_eq!(command(&mut engine, "nope 2"), r#"{"type":"error","message":"unknown actuator: nope"}"#);
    assert_eq!(command(&mut engine, "heater 20 extra"), "heater ← 20.0000");
}

#[test]
fn protocol_alarm_commands() {
    let mut engine = Engine::builder().build();
    assert_eq!(command(&mut engine, "alarm list"), r#"{"type":"alarm_list","alarms":[]}"#);
    let mut engine = room();
    assert_eq!(
        command(&mut engine, "alarm list"),
        r#"{"type":"alarm_list","alarms":[{"id":"overheat","condition":"","cooldown_sec":5,"last_triggered":null,"state":"idle"}]}"#
    );
    command(&mut engine, "tick");
    assert_eq!(
        command(&mut engine, "  alarm list\n"),
        r#"{"type":"alarm_list","alarms":[{"id":"overheat","condition":"","cooldown_sec":5,"last_triggered":null,"state":"active"}]}"#
    );
    let mut two = Engine::builder()
        .alarm("a", Box::new(|_| false), 1)
        .alarm("b", Box::new(|_| false), 20)
        .build();
    two.alarms[1].state = AlarmState::Cooldown { until_tick: 9 };
    assert_eq!(
        command(&mut two, "alarm list"),
        r#"{"type":"alarm_list","alarms":[{"id":"a","condition":"","cooldown_sec":1,"last_triggered":null,"state":"idle"},{"id":"b","condition":"","cooldown_sec":20,"last_triggered":null,"state":"cooldown"}]}"#
    );
    assert_eq!(command(&mut engine, "alarm set hot temp>30 5"), r#"{"type":"ack","command":"alarm_set","id":"hot"}"#);
    assert_eq!(command(&mut engine, "alarm set  a\tb c"), r#"{"type":"ack","command":"alarm_set","id":"a"}"#);
    assert_eq!(
        command(&mut engine, "alarm set hot"),
        r#"{"type":"error","message":"usage: alarm set <id> <condition> <cooldown>"}"#
    );
    assert_eq!(engine.alarms.len(), 1);
}

#[test]
fn protocol_other_replies() {
    let mut engine = room();
    assert_eq!(command(&mut engine, "quit"), r#"{"type":"bye"}"#);
    assert_eq!(command(&mut engine, ""), r#"{"type":"error","message":"unknown command: "}"#);
    assert_eq!(command(&mut engine, "   "), r#"{"type":"error","message":"unknown command: "}"#);
    assert_eq!(command(&mut engine, "help"), ProtocolHandler::format_help());
    assert_eq!(
        ProtocolHandler::format_help(),
        r#"{"type":"help","commands":["tick","history [N]","actuator <name> <value>","alarm list","alarm set <id> <condition> <cooldown>","subscribe","unsubscribe","help","quit"]}"#
    );
    assert_eq!(command(&mut engine, "subscribe"), "subscribed");
    assert!(engine.streaming);
    assert_eq!(engine.tick_index, 0);
}

#[test]
fn protocol_parse_commands() {
    assert_eq!(ProtocolHandler::parse("  tick  "), Command::Tick);
    assert_eq!(ProtocolHandler::parse("history 7"), Command::History { count: 7 });
    assert_eq!(ProtocolHandler::parse("history"), Command::History { count: 10 });
    assert_eq!(
        ProtocolHandler::parse("actuator fan 1 2"),
        Command::Actuator { name: "fan".to_string(), value: "1 2".to_string() }
    );
    assert_eq!(
        ProtocolHandler::parse("fan  3"),
        Command::SetByName { name: "fan".to_string(), value: "".to_string(), text: "fan  3".to_string() }
    );
    assert_eq!(ProtocolHandler::parse("fan"), Command::Unknown { text: "fan".to_string() });
    assert_eq!(
        ProtocolHandler::parse("alarm set"),
        Command::SetByName { name: "alarm".to_string(), value: "set".to_string(), text: "alarm set".to_string() }
    );
    assert_eq!(ProtocolHandler::parse("quit"), Command::Quit);
}

#[test]
fn text_helpers() {
    let mut s = String::new();
    push_decimal(&mut s, 0);
    assert_eq!(s, "0");
    let mut s = "n=".to_string();
    push_decimal(&mut s, 1234567890);
    assert_eq!(s, "n=1234567890");
    let mut s = String::new();
    push_decimal(&mut s, u64::MAX);
    assert_eq!(s, u64::MAX.to_string());
    assert!(is_whitespace('\u{3000}'));
    assert!(is_whitespace('\t'));
    assert!(!is_whitespace('a'));
    assert!(same_text("ab", "ab"));
    assert!(!same_text("ab", "abc"));
    let cs = chars_of("x+42 99999999999999999999999 -1 +");
    assert_eq!(parse_usize(&cs, 1, 4), Some(42));
    assert_eq!(parse_usize(&cs, 5, 28), None);
    assert_eq!(parse_usize(&cs, 29, 31), None);
    assert_eq!(parse_usize(&cs, 32, 33), None);
    assert_eq!(parse_usize(&cs, 0, 0), None);
}

#[test]
fn protocol_history_default_count_law() {
    let mut engine = room();
    for _ in 0..13 {
        command(&mut engine, "tick");
    }
    let a = command(&mut engine, "history");
    let b = command(&mut engine, "history 10");
    let c = command(&mut engine, "history abc");
    let d = command(&mut engine, "history -1");
    assert_eq!(a, b);
    assert_eq!(b, c);
    assert_eq!(c, d);
    assert!(a.starts_with("history 10\ntick 3 @"));
    assert_eq!(engine.tick_index, 13);
}

#[test]
fn alarm_refire_from_cooldown_needs_clear() {
    let mut a = AlarmRule::new("x", (), 4);
    a.state = AlarmState::Cooldown { until_tick: 2 };
    assert!(a.step(true, 3));
    assert!(!a.step(true, 4));
    assert!(!a.step(true, 20));
    assert!(!a.step(false, 21));
    assert!(!a.step(true, 24));
    assert!(a.step(true, 25));
    assert_eq!(a.last_fired_tick, 25);
}

#[test]
fn protocol_history_count_word() {
    let mut engine = room();
    for _ in 0..13 {
        command(&mut engine, "tick");
    }
    let ten = command(&mut engine, "history 10");
    assert_eq!(command(&mut engine, "history abc def"), ten);
    assert_eq!(command(&mut engine, "history  5"), ten);
    assert_eq!(command(&mut engine, "history 5 x"), command(&mut engine, "history 5"));
    assert_eq!(command(&mut engine, "history 5\t"), command(&mut engine, "history 5"));
    assert!(command(&mut engine, "history 5").starts_with("history 5\ntick 8 @"));
}

#[test]
fn tick_sensor_names_in_order() {
    let mut engine = room();
    let t = engine.tick(0.0);
    assert_eq!(t.sensor_names(), vec!["temp", "humidity"]);
}

#[test]
fn builder_default_matches_new() {
    let b: PlatoEngineBuilder<f64, SensorFn, ActuatorFn, AlarmCondition> = Default::default();
    let e = b.build();
    assert_eq!(e.tick_hz, 1.0);
    assert_eq!(e.history.capacity(), 100);
    assert!(e.sensors.is_empty());
}

#[test]
fn engine_ticks_fill_history_up_to_capacity() {
    for cap in [1usize, 3, 5] {
        let mut engine = Engine::builder().sensor("x", Box::new(|| 1.0)).history_capacity(cap).build();
        for k in 0..9usize {
            assert_eq!(engine.tick_index, k as u64);
            assert_eq!(engine.history.len(), k.min(cap));
            let ts = now(&engine);
            engine.tick(ts);
        }
    }
}
