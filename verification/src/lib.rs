//! A verified core for a personal time tracker: named trackers accumulate
//! timed sessions, one of which may be "current"; operations create, start,
//! stop, switch, delete and inspect them, with the state-machine rules and
//! the error taxonomy stated as contracts and proved.

pub mod clock;
pub mod model;
pub mod order;
pub mod render;
pub mod service;

pub use model::{Log, Tracker, TrackerError};
pub use service::{App, TrackerPackage};
