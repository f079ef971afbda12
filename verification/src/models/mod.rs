//! The value objects of the application.
pub mod decimal;
pub mod epoch;
pub mod event;
pub mod notify;
pub mod signal;
pub mod time;
pub mod uid;

pub use epoch::{CalendarData, Epoch};
pub use signal::SignalTrigger;
pub use time::MilitaryTime;
