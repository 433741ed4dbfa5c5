//! Points in time, and the clock that hands them out.

pub mod clock;
pub mod std_time;
pub mod time;
pub mod utc;

pub use clock::{Clock, MockClockGuard, MockClockPerThread};
pub use std::time::{Duration, Instant};
pub use time::Time;
pub use utc::UtcDateTime;
