//! The verified core of the MaaWeb server: cron schedules, the scheduled task
//! list, the updater's decisions, MaaCore's event fan-out and start-up order,
//! and the text and JSON handling they rest on.

pub mod api;
pub mod cron;
pub mod json;
pub mod maa;
pub mod maa_core;
pub mod schedule;
pub mod text;
pub mod update;
pub mod ws;
