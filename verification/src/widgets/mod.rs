//! The built-in widgets: the device access of each lives with the caller,
//! and everything each one decides or renders is here.

mod battery;
mod cpu;
mod datetime;
mod network;
mod stock;
mod volume;

pub use self::battery::{BatteryState, BatteryStatus, BatteryWidget};
pub use self::cpu::{CpuWidget, parse_status_line};
pub use self::datetime::DateTimeWidget;
pub use self::network::{NetworkSpeedWidget, TransferStat, format_rate};
pub use self::stock::{DailyEntry, StockPrice, parse_price, select_latest, stock_update, str_lt};
pub use self::volume::{volume_percent, volume_update};
