pub mod calendar;
pub mod digits;
pub mod epoch;
pub mod laws;
pub mod offset_time;
pub mod wall_time;
pub mod weekday;

pub use offset_time::OffsetDateTime;
pub use offset_time::OffsetDateTimeError;
pub use wall_time::Time;
pub use wall_time::TimeError;
pub use weekday::weekday_to_u8;
pub use weekday::Weekday;
