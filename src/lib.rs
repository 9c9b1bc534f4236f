pub mod alarm;
pub mod cron;
pub mod db;
pub mod scheduler;
pub mod time;
