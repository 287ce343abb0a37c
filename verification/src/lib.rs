//! A room runtime: sensors are read on every tick, ticks are kept in a
//! bounded history, alarm rules run a small state machine, and a text
//! protocol drives the whole engine.

pub mod actuator;
pub mod alarm;
pub mod engine;
pub mod history;
pub mod protocol;
pub mod sensor;
pub mod text;
pub mod tick;

pub use actuator::ActuatorSpec;
pub use alarm::{AlarmRule, AlarmState};
pub use engine::{PlatoEngine, PlatoEngineBuilder};
pub use history::HistoryBuffer;
pub use protocol::ProtocolHandler;
pub use sensor::SensorSpec;
pub use tick::Tick;
