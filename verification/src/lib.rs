//! Core of a focus-tracking agent: the sampling state machine that turns raw
//! OS focus samples into pulses and transitions, the session-scoped activity
//! ledger, the read-side aggregation queries (per-app stats, heatmaps,
//! timelines), and the TTL/capacity result cache in front of them.

pub mod aggregate;
pub mod cache;
pub mod config;
pub mod dashboard;
pub mod error;
pub mod heatmap;
pub mod icon;
pub mod models;
pub mod seqs;
pub mod services;
pub mod state;
pub mod store;
pub mod time;
pub mod timeline;
pub mod tracker;
