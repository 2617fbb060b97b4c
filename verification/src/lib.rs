//! Host metrics for a monitoring dashboard: what is read from the operating
//! system is normalised here into snapshots that a user interface can show.

pub mod battery;
pub mod binary32;
pub mod clock;
pub mod coordinator;
pub mod gpu;
pub mod info;
pub mod page;
pub mod probe;
pub mod process;
pub mod rounding;
pub mod stardate;
pub mod sysfs;
pub mod text;
pub mod theme;
pub mod units;
