//! Core of a personal day-planning tool.
//!
//! A [`day::Day`] owns a registry of [`task::Task`]s, a ranked list of
//! priorities, free-text notes, and an append-only [`log::Log`] that records
//! what the user was doing over the day as a small state machine.

pub mod breaks;
pub mod cli;
pub mod commands;
pub mod database;
pub mod day;
pub mod edit_day_guard;
pub mod focus;
pub mod log;
pub mod priority;
pub mod record;
pub mod render;
pub mod storage;
pub mod task;
pub mod time;
